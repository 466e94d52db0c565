use rsysearcher::number::{parse_u16, radix_string};
use rsysearcher::{
    catalog_records, is_selected, no_result_message, number_text, text_or_empty, CallingConventionForArch,
    ErrorKind, RsysearcherError, SyscallForArch, SyscallRecord,
};

const CONVENTIONS: &str = r#"[
  {"arch": "x86_64", "nr": "rax", "return": "rax", "arg0": "rdi", "arg1": "rsi", "arg2": "rdx", "arg3": "r10", "arg4": "r8", "arg5": "r9"},
  {"arch": "arm", "nr": "r7", "return": "r0", "arg0": "r0", "arg1": "r1", "arg2": "r2", "arg3": "r3", "arg4": "r4", "arg5": "r5"},
  {"arch": "x86", "nr": "eax", "return": "eax", "arg0": "ebx", "arg1": "ecx", "arg2": "edx", "arg3": "esi", "arg4": "edi", "arg5": "ebp"}
]"#;

const EXECVE: &str = r#"[
  {"arch": "x86_64", "nr": 59, "name": "execve", "refs": "", "return": "int", "arg0": "char*", "arg1": "char**", "arg2": "char**"},
  {"arch": "arm", "nr": 11, "name": "execve", "arg0": "const char *filename", "arg1": "const char *const *argv", "arg2": "const char *const *envp"},
  {"arch": "x86", "nr": "11", "name": "execve", "arg0": "char*", "arg1": "char**", "arg2": "char**"}
]"#;

fn table() -> Vec<CallingConventionForArch> {
    CallingConventionForArch::get_calling_conventions_for_all_archs(CONVENTIONS).unwrap()
}

fn s(t: &str) -> String {
    t.to_string()
}

fn record(arch: &str, nr: &str, name: &str, args: [&str; 6]) -> SyscallRecord {
    SyscallRecord {
        arch: s(arch),
        nr: s(nr),
        name: s(name),
        refs: String::new(),
        _return: String::new(),
        arg0: s(args[0]),
        arg1: s(args[1]),
        arg2: s(args[2]),
        arg3: s(args[3]),
        arg4: s(args[4]),
        arg5: s(args[5]),
    }
}

fn strip_colors(t: &str) -> String {
    t.replace("\x1b[92m", "").replace("\x1b[0m", "")
}

#[test]
fn end_to_end_execve_on_x86_64() {
    let found = SyscallForArch::search_syscall("x86_64", EXECVE, false, &table()).unwrap();
    assert_eq!(found.len(), 1);
    let text = found[0].render().unwrap();
    let lines: Vec<&str> = text.lines().collect();
    for expected in ["rax <- 59", "rdi <- char*", "rsi <- char**", "rdx <- char**"] {
        assert!(lines.contains(&expected), "missing line {expected:?} in {text:?}");
    }
    assert!(text.contains("execve(char*, char**, char**);"));
    assert!(lines.contains(&"Return is on: rax"));
    assert_eq!(
        text,
        "\nArchitecture: x86_64\nName: execve\nSyscall Number: 59 ( 0x3b )\n\nrax <- 59\n\
         rdi <- char*\nrsi <- char**\nrdx <- char**\n\nPrototype: execve(char*, char**, char**);\n\
         Return is on: rax\n"
    );
}

#[test]
fn zero_match_gives_no_blocks_and_one_notice() {
    let found = SyscallForArch::search_syscall("x86_64", "[]", false, &table()).unwrap();
    assert!(found.is_empty());
    assert_eq!(no_result_message("notasyscall", "x86_64"), "No result found for notasyscall on arch x86_64");
    let other = SyscallForArch::search_syscall("mips", EXECVE, false, &table()).unwrap();
    assert!(other.is_empty());
}

#[test]
fn render_skips_exactly_the_empty_slots() {
    let t = table();
    let r = record("x86_64", "9", "f", ["int", "", "long", "", "", "void*"]);
    let joined = SyscallForArch::resolve(r, &t, false).unwrap();
    let text = joined.render().unwrap();
    let arg_lines: Vec<&str> =
        text.lines().filter(|l| l.contains(" <- ") && !l.starts_with("rax")).collect();
    assert_eq!(arg_lines, vec!["rdi <- int", "rdx <- long", "r9 <- void*"]);
    assert!(!text.contains("\n\n\n"));
    assert!(text.contains("Prototype: f(int, long, void*);\n"));
}

#[test]
fn prototype_has_no_dangling_separator() {
    let t = table();
    let none = SyscallForArch::resolve(record("x86_64", "39", "getpid", ["", "", "", "", "", ""]), &t, false).unwrap();
    assert_eq!(none.get_prototype(), "getpid();");
    let last_only = SyscallForArch::resolve(record("x86_64", "1", "g", ["", "", "", "", "", "int"]), &t, false).unwrap();
    assert_eq!(last_only.get_prototype(), "g(int);");
    let gaps = SyscallForArch::resolve(record("x86_64", "1", "h", ["a", "", "b", "", "c", ""]), &t, false).unwrap();
    let p = gaps.get_prototype();
    assert_eq!(p, "h(a, b, c);");
    assert!(!p.contains(", , ") && !p.contains(", )"));
}

#[test]
fn color_only_wraps_values() {
    let plain = SyscallForArch::search_syscall("all", EXECVE, false, &table()).unwrap();
    let colored = SyscallForArch::search_syscall("all", EXECVE, true, &table()).unwrap();
    assert_eq!(plain.len(), colored.len());
    for (p, c) in plain.iter().zip(colored.iter()) {
        let pt = p.render().unwrap();
        let ct = c.render().unwrap();
        assert!(!pt.contains('\x1b'));
        assert!(!pt.chars().any(|c| c.is_control() && c != '\n'));
        assert!(ct.contains("\x1b[92mexecve\x1b[0m"));
        assert_ne!(pt, ct);
        assert_eq!(strip_colors(&ct), pt);
    }
}

#[test]
fn colorize_or_not_wraps_only_when_on() {
    let t = table();
    let on = SyscallForArch::resolve(record("x86", "1", "exit", ["int", "", "", "", "", ""]), &t, true).unwrap();
    assert_eq!(on.colorize_or_not("eax"), "\x1b[92meax\x1b[0m");
    assert_eq!(on.get_prototype(), "exit(\x1b[92mint\x1b[0m);");
    let off = SyscallForArch::resolve(record("x86", "1", "exit", ["int", "", "", "", "", ""]), &t, false).unwrap();
    assert_eq!(off.colorize_or_not("eax"), "eax");
}

#[test]
fn all_keeps_every_record_and_a_key_keeps_exact_matches() {
    let t = table();
    let all = SyscallForArch::search_syscall("all", EXECVE, false, &t).unwrap();
    let archs: Vec<&str> = all.iter().map(|r| r.syscall.arch.as_str()).collect();
    assert_eq!(archs, vec!["x86_64", "arm", "x86"]);
    let x86 = SyscallForArch::search_syscall("x86", EXECVE, false, &t).unwrap();
    assert_eq!(x86.len(), 1);
    assert_eq!(x86[0].syscall.arch, "x86");
    assert!(SyscallForArch::search_syscall("X86", EXECVE, false, &t).unwrap().is_empty());
    assert!(SyscallForArch::search_syscall("x86_", EXECVE, false, &t).unwrap().is_empty());
    assert!(is_selected("all", "anything"));
    assert!(is_selected("arm", "arm"));
    assert!(!is_selected("arm", "arm64"));
}

#[test]
fn lookup_by_own_arch_returns_that_convention() {
    let t = table();
    for c in t.iter() {
        let found = SyscallForArch::get_calling_convention_for(c.get_arch(), &t).unwrap();
        assert_eq!(found.arch, c.arch);
        assert_eq!(found.nr, c.nr);
        assert_eq!(found._return, c._return);
        assert_eq!(found.arg0, c.arg0);
        assert_eq!(found.arg5, c.arg5);
    }
    assert_eq!(t[1].get_arch(), "arm");
    assert_eq!(t[1].nr, "r7");
}

#[test]
fn missing_convention_fails_the_query() {
    let t = table();
    let e = SyscallForArch::get_calling_convention_for("riscv64", &t).unwrap_err();
    assert_eq!(e.kind, ErrorKind::ConventionNotFound);
    assert_eq!(e.detail, "Calling convention not found for arch riscv64");
    let e = SyscallForArch::resolve(record("riscv64", "221", "execve", ["", "", "", "", "", ""]), &t, false)
        .unwrap_err();
    assert_eq!(e.kind, ErrorKind::ConventionNotFound);
    let catalog = r#"[{"arch": "x86_64", "nr": 59, "name": "execve"}, {"arch": "riscv64", "nr": 221, "name": "execve"}]"#;
    let e = SyscallForArch::search_syscall("all", catalog, false, &t).unwrap_err();
    assert_eq!(e.kind, ErrorKind::ConventionNotFound);
    assert_eq!(SyscallForArch::search_syscall("x86_64", catalog, false, &t).unwrap().len(), 1);
}

#[test]
fn number_that_is_not_u16_fails_rendering() {
    let t = table();
    for nr in ["70000", "abc", "", "-1", " 5", "65536"] {
        let joined = SyscallForArch::resolve(record("x86_64", nr, "f", ["", "", "", "", "", ""]), &t, false).unwrap();
        assert_eq!(joined.render().unwrap_err().kind, ErrorKind::NumberFormat, "number {nr:?}");
    }
    let max = SyscallForArch::resolve(record("x86_64", "65535", "f", ["", "", "", "", "", ""]), &t, false).unwrap();
    assert!(max.render().unwrap().contains("Syscall Number: 65535 ( 0xffff )"));
    let zero = SyscallForArch::resolve(record("x86_64", "0", "read", ["", "", "", "", "", ""]), &t, false).unwrap();
    assert!(zero.render().unwrap().contains("Syscall Number: 0 ( 0x0 )"));
}

#[test]
fn parse_u16_reads_decimal_text() {
    assert_eq!(parse_u16("59"), Some(59));
    assert_eq!(parse_u16("+59"), Some(59));
    assert_eq!(parse_u16("0059"), Some(59));
    assert_eq!(parse_u16("65535"), Some(65535));
    assert_eq!(parse_u16("65536"), None);
    assert_eq!(parse_u16("+"), None);
    assert_eq!(parse_u16("5a"), None);
    assert_eq!(parse_u16(""), None);
}

#[test]
fn radix_string_writes_decimal_and_hex() {
    assert_eq!(radix_string(59, 16), "3b");
    assert_eq!(radix_string(59, 10), "59");
    assert_eq!(radix_string(0, 16), "0");
    assert_eq!(radix_string(4096, 16), "1000");
    assert_eq!(radix_string(u64::MAX, 10), "18446744073709551615");
}

#[test]
fn malformed_responses_are_reported() {
    let e = CallingConventionForArch::get_calling_conventions_for_all_archs("<html>").unwrap_err();
    assert_eq!(e.kind, ErrorKind::DataSourceMalformed);
    let e = catalog_records("{\"arch\": \"x86\"}").unwrap_err();
    assert_eq!(e.kind, ErrorKind::DataSourceMalformed);
    let e = SyscallForArch::search_syscall("all", "not json", false, &table()).unwrap_err();
    assert_eq!(e.kind, ErrorKind::DataSourceMalformed);
}

#[test]
fn absent_fields_read_as_empty() {
    let t = CallingConventionForArch::get_calling_conventions_for_all_archs(r#"[{"arch": "m", "nr": "d0", "arg0": 3}]"#)
        .unwrap();
    assert_eq!(t.len(), 1);
    assert_eq!(t[0].arch, "m");
    assert_eq!(t[0].nr, "d0");
    assert_eq!(t[0]._return, "");
    assert_eq!(t[0].arg0, "");
    let r = catalog_records(r#"[{"nr": "12", "name": "brk"}, {"arch": "x86", "nr": 45, "refs": "man 2 brk"}, {}]"#)
        .unwrap();
    assert_eq!(r.len(), 3);
    assert_eq!(r[0].arch, "");
    assert_eq!(r[0].nr, "12");
    assert_eq!(r[0].name, "brk");
    assert_eq!(r[1].nr, "45");
    assert_eq!(r[1].refs, "man 2 brk");
    assert_eq!(r[1].name, "");
    assert_eq!(r[2].nr, "");
}

#[test]
fn field_helpers_default_to_empty() {
    assert_eq!(text_or_empty(&Some(s("rax"))), "rax");
    assert_eq!(text_or_empty(&None), "");
    assert_eq!(number_text(&Some(231), &Some(s("ignored"))), "231");
    assert_eq!(number_text(&None, &Some(s("60"))), "60");
    assert_eq!(number_text(&None, &None), "");
}

#[test]
fn argument_slots_map_to_registers() {
    let t = table();
    let joined = SyscallForArch::resolve(record("arm", "1", "f", ["", "", "", "", "", ""]), &t, false).unwrap();
    assert_eq!(joined.convert_arg_to_register(0).unwrap(), "r0");
    assert_eq!(joined.convert_arg_to_register(5).unwrap(), "r5");
    let e = joined.convert_arg_to_register(6).unwrap_err();
    assert_eq!(e.kind, ErrorKind::ArgumentSlotNotFound);
    assert_eq!(e.detail, "Arg slot 6 not found");
}

#[test]
fn error_message_names_the_library() {
    let e = RsysearcherError { kind: ErrorKind::DataSourceUnavailable, detail: s("timed out") };
    assert_eq!(e.message(), "Rsysearcher Error: timed out");
}

#[test]
fn duplicate_copies_every_field() {
    let r = record("x86", "1", "exit", ["int", "", "", "", "", ""]);
    let d = r.duplicate();
    assert_eq!(d.arch, "x86");
    assert_eq!(d.arg0, "int");
    let t = table();
    let c = t[2].duplicate();
    assert_eq!(c.arg5, "ebp");
}

#[test]
fn omitted_registers_read_as_empty() {
    let t = CallingConventionForArch::get_calling_conventions_for_all_archs(r#"[{"arch":"arm","nr":"r7"}]"#).unwrap();
    assert_eq!(t.len(), 1);
    assert_eq!(t[0].arch, "arm");
    assert_eq!(t[0].nr, "r7");
    for f in [&t[0]._return, &t[0].arg0, &t[0].arg1, &t[0].arg2, &t[0].arg3, &t[0].arg4, &t[0].arg5] {
        assert_eq!(f, "");
    }
}

#[test]
fn catalog_fields_keep_order_and_values() {
    let r = catalog_records(EXECVE).unwrap();
    assert_eq!(r.len(), 3);
    assert_eq!(r[0].arch, "x86_64");
    assert_eq!(r[0].nr, "59");
    assert_eq!(r[0].name, "execve");
    assert_eq!(r[0]._return, "int");
    assert_eq!(r[0].arg0, "char*");
    assert_eq!(r[0].arg1, "char**");
    assert_eq!(r[0].arg2, "char**");
    assert_eq!(r[0].arg3, "");
    assert_eq!(r[1].arch, "arm");
    assert_eq!(r[1].nr, "11");
    assert_eq!(r[2].arch, "x86");
    assert_eq!(r[2].nr, "11");
}

#[test]
fn search_keeps_fetched_order_for_a_key() {
    let catalog = r#"[{"arch":"arm","nr":1,"name":"a"},{"arch":"x86","nr":2,"name":"b"},{"arch":"arm","nr":3,"name":"c"}]"#;
    let found = SyscallForArch::search_syscall("arm", catalog, false, &table()).unwrap();
    let names: Vec<&str> = found.iter().map(|r| r.syscall.name.as_str()).collect();
    assert_eq!(names, vec!["a", "c"]);
    assert_eq!(found[1].calling_convention.nr, "r7");
}
