use vstd::prelude::*;
use vstd::string::StrSliceExecFns;
use vstd::string::StringExecFns;

use crate::calling_conventions::{convention_for, lemma_absent_arch_finds_none, CallingConventionForArch};
use crate::error::{ErrorKind, RsysearcherError};
use crate::number::{lemma_radix_text_printable, parse_u16, radix_string, radix_text, u16_value};
use crate::json::{
    json_array_len, json_member_text, json_member_u64, member_or_empty, number_member_text, number_text,
    parse_members, text_of, text_or_empty,
};
use crate::text::{
    chars_ok, color_off, green_on, lemma_color_is_decoration, lemma_show_append, lemma_show_plain_chars,
    lemma_show_push, no_escape, not_control, piece,
    same_text, show, strip, Span,
};

verus! {

/// One syscall's record for one architecture. Every field is text, empty where
/// the source gave none; an empty argument type means the slot is unused.
#[derive(Debug)]
pub struct SyscallRecord {
    pub arch: String,
    pub nr: String,
    pub name: String,
    pub refs: String,
    pub _return: String,
    pub arg0: String,
    pub arg1: String,
    pub arg2: String,
    pub arg3: String,
    pub arg4: String,
    pub arg5: String,
}

impl SyscallRecord {
    /// The type of argument slot `i` (0 to 5).
    pub open spec fn type_slot(self, i: int) -> Seq<char> {
        if i == 0 {
            self.arg0@
        } else if i == 1 {
            self.arg1@
        } else if i == 2 {
            self.arg2@
        } else if i == 3 {
            self.arg3@
        } else if i == 4 {
            self.arg4@
        } else {
            self.arg5@
        }
    }

    /// The type of argument slot `slot`.
    pub fn arg_type(&self, slot: usize) -> (r: &String)
        requires
            slot < 6,
        ensures
            r@ == self.type_slot(slot as int),
    {
        if slot == 0 {
            &self.arg0
        } else if slot == 1 {
            &self.arg1
        } else if slot == 2 {
            &self.arg2
        } else if slot == 3 {
            &self.arg3
        } else if slot == 4 {
            &self.arg4
        } else {
            &self.arg5
        }
    }

    /// A copy of this record.
    pub fn duplicate(&self) -> (r: Self)
        ensures
            r == *self,
    {
        SyscallRecord {
            arch: self.arch.clone(),
            nr: self.nr.clone(),
            name: self.name.clone(),
            refs: self.refs.clone(),
            _return: self._return.clone(),
            arg0: self.arg0.clone(),
            arg1: self.arg1.clone(),
            arg2: self.arg2.clone(),
            arg3: self.arg3.clone(),
            arg4: self.arg4.clone(),
            arg5: self.arg5.clone(),
        }
    }
}

/// A syscall record joined with the calling convention of its architecture,
/// ready to be rendered, with or without colour.
#[derive(Debug)]
pub struct SyscallForArch {
    pub color: bool,
    pub calling_convention: CallingConventionForArch,
    pub syscall: SyscallRecord,
}

/// The line for argument slot `i`: its register, then its type.
pub open spec fn arg_line(r: SyscallForArch, i: int) -> Seq<Span> {
    seq![
        (r.calling_convention.register_slot(i), true),
        (" <- "@, false),
        (r.syscall.type_slot(i), true),
        ("\n"@, false),
    ]
}

/// The argument lines of the slots below `n`, skipping the unused ones.
pub open spec fn arg_spans(r: SyscallForArch, n: nat) -> Seq<Span>
    decreases n,
{
    if n == 0 {
        Seq::empty()
    } else if r.syscall.type_slot(n - 1).len() == 0 {
        arg_spans(r, (n - 1) as nat)
    } else {
        arg_spans(r, (n - 1) as nat) + arg_line(r, n - 1)
    }
}

/// The used argument types of the slots below `n`, separated by `", "`.
pub open spec fn proto_args(s: SyscallRecord, n: nat) -> Seq<Span>
    decreases n,
{
    if n == 0 {
        Seq::empty()
    } else {
        let prev = proto_args(s, (n - 1) as nat);
        let t = s.type_slot(n - 1);
        if t.len() == 0 {
            prev
        } else if prev.len() == 0 {
            seq![(t, true)]
        } else {
            prev + seq![(", "@, false), (t, true)]
        }
    }
}

/// The prototype: `name(type0, type1, ...);`.
pub open spec fn prototype_spans(r: SyscallForArch) -> Seq<Span> {
    seq![(r.syscall.name@, false), ("("@, false)] + proto_args(r.syscall, 6) + seq![(");"@, false)]
}

/// Architecture, name, number in decimal and hexadecimal, and the number register.
pub open spec fn header_spans(r: SyscallForArch, number: nat) -> Seq<Span> {
    seq![
        ("\nArchitecture: "@, false),
        (r.syscall.arch@, true),
        ("\nName: "@, false),
        (r.syscall.name@, true),
        ("\nSyscall Number: "@, false),
        (r.syscall.nr@, true),
        (" ( 0x"@, false),
        (radix_text(number, 16), false),
        (" )\n\n"@, false),
        (r.calling_convention.nr@, true),
        (" <- "@, false),
        (r.syscall.nr@, true),
        ("\n"@, false),
    ]
}

/// The prototype line and the return location.
pub open spec fn tail_spans(r: SyscallForArch) -> Seq<Span> {
    seq![("\nPrototype: "@, false)] + prototype_spans(r) + seq![
        ("\nReturn is on: "@, false),
        (r.calling_convention._return@, true),
        ("\n"@, false),
    ]
}

/// The whole description of a syscall whose number reads as `number`.
pub open spec fn render_spans(r: SyscallForArch, number: nat) -> Seq<Span> {
    header_spans(r, number) + arg_spans(r, 6) + tail_spans(r)
}

/// The rendered text of a joined syscall; none where its number does not read
/// as an unsigned 16-bit value.
pub open spec fn rendered(r: SyscallForArch, color: bool) -> Option<Seq<char>> {
    match u16_value(r.syscall.nr@) {
        Some(n) => Some(show(render_spans(r, n), color)),
        None => None,
    }
}

/// The join of a record with the first convention of the table for its architecture.
pub open spec fn resolved(
    s: SyscallRecord,
    table: Seq<CallingConventionForArch>,
    color: bool,
) -> Option<SyscallForArch> {
    match convention_for(table, s.arch@) {
        Some(c) => Some(SyscallForArch { color, calling_convention: c, syscall: s }),
        None => None,
    }
}

/// Every span's text is made of characters that meet `ok`.
pub open spec fn spans_ok(spans: Seq<Span>, ok: spec_fn(char) -> bool) -> bool {
    forall|k: int| 0 <= k < spans.len() ==> chars_ok(#[trigger] spans[k].0, ok)
}

/// `ok` holds of the line break and of every printable ASCII character.
pub open spec fn accepts_printable(ok: spec_fn(char) -> bool) -> bool {
    ok('\n') && forall|c: char| ' ' <= c && c <= '~' ==> #[trigger] ok(c)
}

/// Every field that rendering shows is made of characters that meet `ok`.
pub open spec fn fields_ok(r: SyscallForArch, ok: spec_fn(char) -> bool) -> bool {
    &&& chars_ok(r.syscall.arch@, ok)
    &&& chars_ok(r.syscall.name@, ok)
    &&& chars_ok(r.syscall.nr@, ok)
    &&& chars_ok(r.calling_convention.nr@, ok)
    &&& chars_ok(r.calling_convention._return@, ok)
    &&& forall|i: int| 0 <= i < 6 ==> chars_ok(#[trigger] r.syscall.type_slot(i), ok)
    &&& forall|i: int| 0 <= i < 6 ==> chars_ok(#[trigger] r.calling_convention.register_slot(i), ok)
}

proof fn lemma_spans_ok_append(a: Seq<Span>, b: Seq<Span>, ok: spec_fn(char) -> bool)
    requires
        spans_ok(a, ok),
        spans_ok(b, ok),
    ensures
        spans_ok(a + b, ok),
{
    assert forall|k: int| 0 <= k < (a + b).len() implies chars_ok(#[trigger] (a + b)[k].0, ok) by {
        if k < a.len() {
            assert((a + b)[k] == a[k]);
        } else {
            assert((a + b)[k] == b[k - a.len()]);
        }
    }
}

proof fn lemma_literals_ok(ok: spec_fn(char) -> bool)
    requires
        accepts_printable(ok),
    ensures
        chars_ok("\nArchitecture: "@, ok),
        chars_ok("\nName: "@, ok),
        chars_ok("\nSyscall Number: "@, ok),
        chars_ok(" ( 0x"@, ok),
        chars_ok(" )\n\n"@, ok),
        chars_ok(" <- "@, ok),
        chars_ok("\n"@, ok),
        chars_ok("\nPrototype: "@, ok),
        chars_ok("("@, ok),
        chars_ok(", "@, ok),
        chars_ok(");"@, ok),
        chars_ok("\nReturn is on: "@, ok),
{
    reveal_strlit("\nArchitecture: ");
    reveal_strlit("\nName: ");
    reveal_strlit("\nSyscall Number: ");
    reveal_strlit(" ( 0x");
    reveal_strlit(" )\n\n");
    reveal_strlit(" <- ");
    reveal_strlit("\n");
    reveal_strlit("\nPrototype: ");
    reveal_strlit("(");
    reveal_strlit(", ");
    reveal_strlit(");");
    reveal_strlit("\nReturn is on: ");
}

proof fn lemma_arg_spans_ok(r: SyscallForArch, n: nat, ok: spec_fn(char) -> bool)
    requires
        accepts_printable(ok),
        fields_ok(r, ok),
        n <= 6,
    ensures
        spans_ok(arg_spans(r, n), ok),
    decreases n,
{
    if n > 0 {
        lemma_arg_spans_ok(r, (n - 1) as nat, ok);
        if r.syscall.type_slot(n - 1).len() > 0 {
            lemma_literals_ok(ok);
            assert(chars_ok(r.syscall.type_slot(n - 1), ok));
            assert(chars_ok(r.calling_convention.register_slot(n - 1), ok));
            lemma_spans_ok_append(arg_spans(r, (n - 1) as nat), arg_line(r, n - 1), ok);
        }
    }
}

proof fn lemma_proto_args_ok(r: SyscallForArch, n: nat, ok: spec_fn(char) -> bool)
    requires
        accepts_printable(ok),
        fields_ok(r, ok),
        n <= 6,
    ensures
        spans_ok(proto_args(r.syscall, n), ok),
    decreases n,
{
    if n > 0 {
        lemma_proto_args_ok(r, (n - 1) as nat, ok);
        lemma_literals_ok(ok);
        assert(chars_ok(r.syscall.type_slot(n - 1), ok));
        let t = r.syscall.type_slot(n - 1);
        lemma_spans_ok_append(proto_args(r.syscall, (n - 1) as nat), seq![(", "@, false), (t, true)], ok);
    }
}

proof fn lemma_render_spans_ok(r: SyscallForArch, n: nat, ok: spec_fn(char) -> bool)
    requires
        accepts_printable(ok),
        fields_ok(r, ok),
    ensures
        spans_ok(render_spans(r, n), ok),
{
    lemma_literals_ok(ok);
    lemma_radix_text_printable(n, 16);
    lemma_arg_spans_ok(r, 6, ok);
    lemma_proto_args_ok(r, 6, ok);
    let h = header_spans(r, n);
    assert(chars_ok(radix_text(n, 16), ok));
    assert(spans_ok(h, ok));
    let p = prototype_spans(r);
    lemma_spans_ok_append(seq![(r.syscall.name@, false), ("("@, false)], proto_args(r.syscall, 6), ok);
    lemma_spans_ok_append(seq![(r.syscall.name@, false), ("("@, false)] + proto_args(r.syscall, 6), seq![(");"@, false)], ok);
    lemma_spans_ok_append(seq![("\nPrototype: "@, false)], p, ok);
    lemma_spans_ok_append(
        seq![("\nPrototype: "@, false)] + p,
        seq![("\nReturn is on: "@, false), (r.calling_convention._return@, true), ("\n"@, false)],
        ok,
    );
    lemma_spans_ok_append(h, arg_spans(r, 6), ok);
    lemma_spans_ok_append(h + arg_spans(r, 6), tail_spans(r), ok);
}

/// Colour only decorates: for a syscall whose fields hold no escape character,
/// the text rendered without colour holds no control sequence, and the text
/// rendered with colour is that same text once its control sequences are taken out.
pub proof fn lemma_render_color_is_decoration(r: SyscallForArch)
    requires
        fields_ok(r, |c: char| c != '\x1b'),
    ensures
        rendered(r, true) is Some <==> rendered(r, false) is Some,
        rendered(r, false) matches Some(t) ==> no_escape(t),
        rendered(r, true) matches Some(t) ==> rendered(r, false) == Some(strip(t)),
{
    if let Some(n) = u16_value(r.syscall.nr@) {
        let ok = |c: char| c != '\x1b';
        lemma_render_spans_ok(r, n, ok);
        let sp = render_spans(r, n);
        assert forall|k: int| 0 <= k < sp.len() implies no_escape(#[trigger] sp[k].0) by {
            assert(chars_ok(sp[k].0, ok));
        }
        lemma_color_is_decoration(sp);
    }
}

/// Without colour, a syscall whose fields hold no control character is
/// rendered with no control character but the line break: no escape, no
/// backspace.
pub proof fn lemma_plain_render_has_no_control(r: SyscallForArch)
    requires
        fields_ok(r, |c: char| not_control(c)),
    ensures
        rendered(r, false) matches Some(t) ==> chars_ok(t, |c: char| not_control(c)),
{
    if let Some(n) = u16_value(r.syscall.nr@) {
        let ok = |c: char| not_control(c);
        lemma_render_spans_ok(r, n, ok);
        lemma_show_plain_chars(render_spans(r, n), ok);
    }
}

/// In a prototype, used argument types and separators alternate: the list is
/// empty or starts and ends with a type, so no separator follows another and
/// none comes before the closing parenthesis, whichever slots are unused.
pub proof fn lemma_prototype_separators(s: SyscallRecord, n: nat)
    ensures
        proto_args(s, n).len() == 0 || proto_args(s, n).len() % 2 == 1,
        forall|k: int|
            0 <= k < proto_args(s, n).len() && k % 2 == 0 ==> (#[trigger] proto_args(s, n)[k]).0.len() > 0
                && proto_args(s, n)[k].1,
        forall|k: int|
            0 <= k < proto_args(s, n).len() && k % 2 == 1 ==> #[trigger] proto_args(s, n)[k] == (", "@, false),
    decreases n,
{
    if n > 0 {
        lemma_prototype_separators(s, (n - 1) as nat);
        let prev = proto_args(s, (n - 1) as nat);
        let t = s.type_slot(n - 1);
        let cur = proto_args(s, n);
        if t.len() > 0 && prev.len() > 0 {
            assert forall|k: int| 0 <= k < cur.len() implies (k % 2 == 0 ==> (#[trigger] cur[k]).0.len() > 0 && cur[k].1)
                && (k % 2 == 1 ==> cur[k] == (", "@, false)) by {
                if k < prev.len() {
                    assert(cur[k] == prev[k]);
                }
            }
        }
    }
}

/// Each comma of the text is followed by a space and then by a character that
/// is not a comma.
pub open spec fn commas_separate(t: Seq<char>) -> bool {
    forall|i: int| 0 <= i < t.len() && #[trigger] t[i] == ',' ==> i + 2 < t.len() && t[i + 1] == ' ' && t[i + 2] != ','
}

proof fn lemma_proto_args_text(s: SyscallRecord, n: nat)
    requires
        forall|i: int| 0 <= i < 6 ==> chars_ok(#[trigger] s.type_slot(i), |c: char| c != ','),
        n <= 6,
    ensures
        commas_separate(show(proto_args(s, n), false)),
    decreases n,
{
    if n > 0 {
        lemma_proto_args_text(s, (n - 1) as nat);
        let prev = proto_args(s, (n - 1) as nat);
        let t = s.type_slot(n - 1);
        assert(chars_ok(t, |c: char| c != ','));
        if t.len() > 0 {
            if prev.len() == 0 {
                assert(prev =~= Seq::<Span>::empty());
                assert(proto_args(s, n) =~= prev.push((t, true)));
                lemma_show_push(prev, (t, true), false);
                assert(show(prev, false) =~= Seq::empty());
                assert(show(proto_args(s, n), false) =~= t);
            } else {
                let j = show(prev, false);
                lemma_show_separator_then_type(prev, t);
                reveal_strlit(", ");
                let q = j + ", "@ + t;
                assert(show(proto_args(s, n), false) == q);
                assert forall|i: int| 0 <= i < q.len() && #[trigger] q[i] == ',' implies i + 2 < q.len() && q[i + 1]
                    == ' ' && q[i + 2] != ',' by {
                    if i < j.len() {
                        assert(q[i] == j[i]);
                        assert(q[i + 1] == j[i + 1]);
                        assert(q[i + 2] == j[i + 2]);
                    } else if i == j.len() {
                        assert(q[i + 2] == t[0]);
                    } else if i == j.len() + 1 {
                        assert(q[i] == ' ');
                    } else {
                        assert(q[i] == t[i - j.len() - 2]);
                    }
                }
            }
        }
    }
}

proof fn lemma_show_separator_then_type(prev: Seq<Span>, t: Seq<char>)
    ensures
        show(prev + seq![(", "@, false), (t, true)], false) == show(prev, false) + ", "@ + t,
{
    lemma_show_push(prev, (", "@, false), false);
    lemma_show_push(prev.push((", "@, false)), (t, true), false);
    assert(prev + seq![(", "@, false), (t, true)] =~= prev.push((", "@, false)).push((t, true)));
}

/// In the prototype written without colour, when neither the name nor an
/// argument type holds a comma, every comma is a separator followed by a space
/// and by the next type, before the closing `);`: no separator follows another
/// and none ends the list, whichever slots are unused.
pub proof fn lemma_prototype_text_separators(r: SyscallForArch)
    requires
        chars_ok(r.syscall.name@, |c: char| c != ','),
        forall|i: int| 0 <= i < 6 ==> chars_ok(#[trigger] r.syscall.type_slot(i), |c: char| c != ','),
    ensures
        forall|i: int|
            0 <= i < show(prototype_spans(r), false).len() && #[trigger] show(prototype_spans(r), false)[i] == ','
                ==> i + 2 < show(prototype_spans(r), false).len() - 2 && show(prototype_spans(r), false)[i + 1] == ' '
                && show(prototype_spans(r), false)[i + 2] != ',',
{
    lemma_proto_args_text(r.syscall, 6);
    let head = seq![(r.syscall.name@, false), ("("@, false)];
    let j = show(proto_args(r.syscall, 6), false);
    lemma_show_append(head, proto_args(r.syscall, 6), false);
    lemma_show_append(head + proto_args(r.syscall, 6), seq![(");"@, false)], false);
    let e = Seq::<Span>::empty();
    assert(head =~= e.push((r.syscall.name@, false)).push(("("@, false)));
    assert(seq![(");"@, false)] =~= e.push((");"@, false)));
    lemma_show_push(e.push((r.syscall.name@, false)), ("("@, false), false);
    lemma_show_push(e, (r.syscall.name@, false), false);
    lemma_show_push(e, (");"@, false), false);
    assert(show(e, false) =~= Seq::empty());
    reveal_strlit("(");
    reveal_strlit(");");
    let h = show(head, false);
    assert(h =~= r.syscall.name@ + "("@);
    assert(show(seq![(");"@, false)], false) =~= ");"@);
    let q = h + j + ");"@;
    assert(show(prototype_spans(r), false) == q);
    assert forall|i: int| 0 <= i < q.len() && #[trigger] q[i] == ',' implies i + 2 < q.len() - 2 && q[i + 1] == ' '
        && q[i + 2] != ',' by {
        if i < h.len() {
            if i < r.syscall.name@.len() {
                assert(q[i] == r.syscall.name@[i]);
            } else {
                assert(q[i] == '(');
            }
        } else if i < h.len() + j.len() {
            let m = i - h.len();
            assert(q[i] == j[m]);
            assert(q[i + 1] == j[m + 1]);
            assert(q[i + 2] == j[m + 2]);
        } else {
            assert(q[i] == ");"@[i - h.len() - j.len()]);
        }
    }
}

/// The used argument slots below `n`, in increasing order.
pub open spec fn filled_slots(s: SyscallRecord, n: nat) -> Seq<int>
    decreases n,
{
    if n == 0 {
        Seq::empty()
    } else if s.type_slot(n - 1).len() == 0 {
        filled_slots(s, (n - 1) as nat)
    } else {
        filled_slots(s, (n - 1) as nat).push(n - 1)
    }
}

/// The argument lines of the given slots, in the order given.
pub open spec fn lines_for(r: SyscallForArch, slots: Seq<int>) -> Seq<Span>
    decreases slots.len(),
{
    if slots.len() == 0 {
        Seq::empty()
    } else {
        lines_for(r, slots.drop_last()) + arg_line(r, slots.last())
    }
}

/// Rendering writes exactly one argument line for each used slot, in slot
/// order, and nothing for an unused slot.
pub proof fn lemma_arg_lines_skip_unused(r: SyscallForArch, n: nat)
    ensures
        arg_spans(r, n) == lines_for(r, filled_slots(r.syscall, n)),
        forall|i: int| 0 <= i < n ==> (filled_slots(r.syscall, n).contains(i) <==> r.syscall.type_slot(i).len() > 0),
        forall|a: int| 0 <= a < filled_slots(r.syscall, n).len() ==> 0 <= #[trigger] filled_slots(r.syscall, n)[a] < n,
        forall|a: int, b: int|
            0 <= a < b < filled_slots(r.syscall, n).len() ==> #[trigger] filled_slots(r.syscall, n)[a]
                < #[trigger] filled_slots(r.syscall, n)[b],
    decreases n,
{
    if n > 0 {
        lemma_arg_lines_skip_unused(r, (n - 1) as nat);
        let prev = filled_slots(r.syscall, (n - 1) as nat);
        let cur = filled_slots(r.syscall, n);
        if r.syscall.type_slot(n - 1).len() > 0 {
            assert(cur.drop_last() =~= prev);
            assert forall|i: int| 0 <= i < n implies (cur.contains(i) <==> r.syscall.type_slot(i).len() > 0) by {
                if i < n - 1 {
                    if prev.contains(i) {
                        let a = choose|a: int| 0 <= a < prev.len() && prev[a] == i;
                        assert(cur[a] == i);
                    }
                    if cur.contains(i) {
                        let a = choose|a: int| 0 <= a < cur.len() && cur[a] == i;
                        if a < prev.len() {
                            assert(prev[a] == i);
                        }
                    }
                } else {
                    assert(cur[cur.len() - 1] == i);
                }
            }
            assert forall|a: int| 0 <= a < cur.len() implies 0 <= #[trigger] cur[a] < n by {
                if a < prev.len() {
                    assert(cur[a] == prev[a]);
                }
            }
            assert forall|a: int, b: int| 0 <= a < b < cur.len() implies #[trigger] cur[a] < #[trigger] cur[b] by {
                assert(cur[a] == prev[a]);
                if b < prev.len() {
                    assert(cur[b] == prev[b]);
                }
            }
        }
    }
}

/// The text of the argument lines of the given slots: for each, its register,
/// ` <- `, its type and a line break.
pub open spec fn lines_text(r: SyscallForArch, slots: Seq<int>) -> Seq<char>
    decreases slots.len(),
{
    if slots.len() == 0 {
        Seq::empty()
    } else {
        lines_text(r, slots.drop_last()) + r.calling_convention.register_slot(slots.last()) + " <- "@
            + r.syscall.type_slot(slots.last()) + "\n"@
    }
}

proof fn lemma_lines_for_text(r: SyscallForArch, slots: Seq<int>)
    ensures
        show(lines_for(r, slots), false) == lines_text(r, slots),
    decreases slots.len(),
{
    if slots.len() > 0 {
        let init = slots.drop_last();
        let i = slots.last();
        lemma_lines_for_text(r, init);
        lemma_show_append(lines_for(r, init), arg_line(r, i), false);
        let e = Seq::<Span>::empty();
        let a = (r.calling_convention.register_slot(i), true);
        let b = (" <- "@, false);
        let c = (r.syscall.type_slot(i), true);
        let d = ("\n"@, false);
        assert(arg_line(r, i) =~= e.push(a).push(b).push(c).push(d));
        lemma_show_push(e, a, false);
        lemma_show_push(e.push(a), b, false);
        lemma_show_push(e.push(a).push(b), c, false);
        lemma_show_push(e.push(a).push(b).push(c), d, false);
        assert(show(e, false) =~= Seq::empty());
        assert(show(arg_line(r, i), false) =~= r.calling_convention.register_slot(i) + " <- "@
            + r.syscall.type_slot(i) + "\n"@);
        assert(lines_text(r, slots) =~= lines_text(r, init) + (r.calling_convention.register_slot(i) + " <- "@
            + r.syscall.type_slot(i) + "\n"@));
    }
}

/// Without colour, the argument block is exactly the lines `register <- type`
/// of the used slots, in slot order; an unused slot writes nothing.
pub proof fn lemma_arg_block_text(r: SyscallForArch)
    ensures
        show(arg_spans(r, 6), false) == lines_text(r, filled_slots(r.syscall, 6)),
        forall|i: int| 0 <= i < 6 ==> (filled_slots(r.syscall, 6).contains(i) <==> r.syscall.type_slot(i).len() > 0),
        forall|a: int, b: int|
            0 <= a < b < filled_slots(r.syscall, 6).len() ==> #[trigger] filled_slots(r.syscall, 6)[a]
                < #[trigger] filled_slots(r.syscall, 6)[b],
{
    lemma_arg_lines_skip_unused(r, 6);
    lemma_lines_for_text(r, filled_slots(r.syscall, 6));
}

/// Selecting by architecture keeps every record for `all`, and for any other
/// architecture exactly the records whose architecture is that text, in order.
pub proof fn lemma_selection(requested: Seq<char>, records: Seq<SyscallRecord>)
    ensures
        requested == "all"@ ==> selected(requested, records) == records,
        requested != "all"@ ==> selected(requested, records) == records.filter(
            |s: SyscallRecord| s.arch@ == requested,
        ),
    decreases records.len(),
{
    reveal(Seq::filter);
    if records.len() > 0 {
        lemma_selection(requested, records.drop_last());
        if requested == "all"@ {
            assert(records.drop_last().push(records.last()) =~= records);
        }
    }
}

/// A record whose architecture has no convention in the table cannot be joined:
/// `resolve` then fails with `ConventionNotFound`.
pub proof fn lemma_absent_arch_not_resolved(s: SyscallRecord, table: Seq<CallingConventionForArch>, color: bool)
    requires
        forall|i: int| 0 <= i < table.len() ==> #[trigger] table[i].arch@ != s.arch@,
    ensures
        resolved(s, table, color) is None,
{
    lemma_absent_arch_finds_none(table, s.arch@);
}

/// Whether a record of architecture `arch` answers a query for `requested`:
/// the same architecture exactly, or any architecture where `requested` is `all`.
pub open spec fn arch_selected(requested: Seq<char>, arch: Seq<char>) -> bool {
    requested == "all"@ || arch == requested
}

/// The records that answer a query for `requested`, in their order.
pub open spec fn selected(requested: Seq<char>, records: Seq<SyscallRecord>) -> Seq<SyscallRecord> {
    records.filter(|s: SyscallRecord| arch_selected(requested, s.arch@))
}

/// Whether a record of architecture `arch` answers a query for `requested`.
pub fn is_selected(requested: &str, arch: &str) -> (r: bool)
    ensures
        r == arch_selected(requested@, arch@),
{
    same_text(requested, "all") || same_text(arch, requested)
}

/// The notice given when a query matches nothing.
pub fn no_result_message(search: &str, arch: &str) -> (r: String)
    ensures
        r@ == "No result found for "@ + search@ + " on arch "@ + arch@,
{
    let mut r = String::from_str("No result found for ");
    r.append(search);
    r.append(" on arch ");
    r.append(arch);
    r
}

/// A record as read from element `k` of the catalog's text: each field the
/// member's string, or empty where there is none; the number may also be a
/// JSON number, written in decimal.
pub open spec fn record_read(s: SyscallRecord, text: Seq<char>, k: int) -> bool {
    &&& s.arch@ == member_or_empty(text, k, "arch"@)
    &&& s.nr@ == number_member_text(text, k, "nr"@)
    &&& s.name@ == member_or_empty(text, k, "name"@)
    &&& s.refs@ == member_or_empty(text, k, "refs"@)
    &&& s._return@ == member_or_empty(text, k, "return"@)
    &&& s.arg0@ == member_or_empty(text, k, "arg0"@)
    &&& s.arg1@ == member_or_empty(text, k, "arg1"@)
    &&& s.arg2@ == member_or_empty(text, k, "arg2"@)
    &&& s.arg3@ == member_or_empty(text, k, "arg3"@)
    &&& s.arg4@ == member_or_empty(text, k, "arg4"@)
    &&& s.arg5@ == member_or_empty(text, k, "arg5"@)
}

/// The records are those of the catalog's text, one for each element, in order.
pub open spec fn catalog_read(records: Seq<SyscallRecord>, text: Seq<char>) -> bool {
    &&& json_array_len(text) == Some(records.len())
    &&& forall|k: int| 0 <= k < records.len() ==> record_read(#[trigger] records[k], text, k)
}

/// Reads the catalog endpoint's response: one record for each element of the
/// JSON array, in order, each field the member's string or empty where it is
/// absent; the number may also be a JSON number. A text that is not a JSON
/// array is malformed data.
pub fn catalog_records(body: &str) -> (r: Result<Vec<SyscallRecord>, RsysearcherError>)
    ensures
        match json_array_len(body@) {
            Some(n) => r matches Ok(records) && catalog_read(records@, body@),
            None => r matches Err(e) && e.kind == ErrorKind::DataSourceMalformed,
        },
{
    let mut keys: Vec<&str> = Vec::new();
    keys.push("arch");
    keys.push("nr");
    keys.push("name");
    keys.push("refs");
    keys.push("return");
    keys.push("arg0");
    keys.push("arg1");
    keys.push("arg2");
    keys.push("arg3");
    keys.push("arg4");
    keys.push("arg5");
    let items = match parse_members(body, &keys) {
        Ok(items) => items,
        Err(_) => {
            return Err(
                RsysearcherError {
                    kind: ErrorKind::DataSourceMalformed,
                    detail: String::from_str("the syscall catalog is not a JSON array"),
                },
            );
        },
    };
    let ghost n = items@.len();
    let mut records: Vec<SyscallRecord> = Vec::new();
    let mut i: usize = 0;
    while i < items.len()
        invariant
            i <= items@.len(),
            json_array_len(body@) == Some(n),
            n == items@.len(),
            keys@ == seq!["arch", "nr", "name", "refs", "return", "arg0", "arg1", "arg2", "arg3", "arg4", "arg5"],
            forall|k: int|
                0 <= k < n ==> (#[trigger] items@[k])@.len() == keys@.len() && forall|j: int|
                    0 <= j < keys@.len() ==> text_of((#[trigger] items@[k]@[j]).0) == json_member_text(
                        body@,
                        k,
                        keys@[j]@,
                    ) && items@[k]@[j].1 == json_member_u64(body@, k, keys@[j]@),
            records@.len() == i,
            forall|k: int| 0 <= k < i ==> record_read(#[trigger] records@[k], body@, k),
        decreases items.len() - i,
    {
        let item = &items[i];
        assert(item@.len() == 11);
        assert forall|j: int| 0 <= j < 11 implies text_of((#[trigger] item@[j]).0) == json_member_text(
            body@,
            i as int,
            keys@[j]@,
        ) && item@[j].1 == json_member_u64(body@, i as int, keys@[j]@) by {}
        let s = SyscallRecord {
            arch: text_or_empty(&item[0].0),
            nr: number_text(&item[1].1, &item[1].0),
            name: text_or_empty(&item[2].0),
            refs: text_or_empty(&item[3].0),
            _return: text_or_empty(&item[4].0),
            arg0: text_or_empty(&item[5].0),
            arg1: text_or_empty(&item[6].0),
            arg2: text_or_empty(&item[7].0),
            arg3: text_or_empty(&item[8].0),
            arg4: text_or_empty(&item[9].0),
            arg5: text_or_empty(&item[10].0),
        };
        assert(record_read(s, body@, i as int));
        records.push(s);
        i = i + 1;
    }
    Ok(records)
}

/// Each record that a query selects is one of the records queried.
proof fn lemma_selected_member(requested: Seq<char>, records: Seq<SyscallRecord>, j: int)
    requires
        0 <= j < selected(requested, records).len(),
    ensures
        exists|k: int| 0 <= k < records.len() && records[k] == selected(requested, records)[j],
    decreases records.len(),
{
    reveal(Seq::filter);
    let init = records.drop_last();
    let sub = selected(requested, init);
    if j < sub.len() {
        lemma_selected_member(requested, init, j);
        let k = choose|k: int| 0 <= k < init.len() && init[k] == sub[j];
        assert(records[k] == init[k]);
    } else {
        assert(selected(requested, records)[j] == records[records.len() - 1]);
    }
}

impl SyscallForArch {
    /// The first convention of the table for `arch`; an error where there is none.
    pub fn get_calling_convention_for(arch: &str, table: &Vec<CallingConventionForArch>) -> (r: Result<
        CallingConventionForArch,
        RsysearcherError,
    >)
        ensures
            match convention_for(table@, arch@) {
                Some(c) => r matches Ok(found) && found == c,
                None => r matches Err(e) && e.kind == ErrorKind::ConventionNotFound
                    && e.detail@ == "Calling convention not found for arch "@ + arch@,
            },
    {
        let mut i: usize = 0;
        assert(table@.subrange(0, table@.len() as int) =~= table@);
        while i < table.len()
            invariant
                i <= table@.len(),
                convention_for(table@, arch@) == convention_for(table@.subrange(i as int, table@.len() as int), arch@),
            decreases table@.len() - i,
        {
            let ghost rest = table@.subrange(i as int, table@.len() as int);
            assert(rest[0] == table@[i as int]);
            assert(rest.drop_first() =~= table@.subrange(i + 1, table@.len() as int));
            if same_text(table[i].get_arch(), arch) {
                return Ok(table[i].duplicate());
            }
            i = i + 1;
        }
        let mut detail = String::from_str("Calling convention not found for arch ");
        detail.append(arch);
        Err(RsysearcherError { kind: ErrorKind::ConventionNotFound, detail })
    }

    /// Joins a record with the convention of its architecture.
    pub fn resolve(syscall: SyscallRecord, table: &Vec<CallingConventionForArch>, color: bool) -> (r: Result<
        SyscallForArch,
        RsysearcherError,
    >)
        ensures
            match resolved(syscall, table@, color) {
                Some(x) => r matches Ok(y) && y == x,
                None => r matches Err(e) && e.kind == ErrorKind::ConventionNotFound,
            },
    {
        match SyscallForArch::get_calling_convention_for(syscall.arch.as_str(), table) {
            Ok(calling_convention) => Ok(SyscallForArch { color, calling_convention, syscall }),
            Err(e) => Err(e),
        }
    }

    /// Joins each record that answers a query for `arch` with its convention, in
    /// order. A selected record whose architecture the table lacks fails the whole
    /// query: the two sources disagree, and no partial answer is given.
    pub fn resolve_matching(
        arch: &str,
        records: &Vec<SyscallRecord>,
        table: &Vec<CallingConventionForArch>,
        color: bool,
    ) -> (r: Result<Vec<SyscallForArch>, RsysearcherError>)
        ensures
            r is Ok <==> forall|k: int|
                0 <= k < selected(arch@, records@).len() ==> #[trigger] resolved(
                    selected(arch@, records@)[k],
                    table@,
                    color,
                ) is Some,
            r matches Ok(v) ==> v@.len() == selected(arch@, records@).len() && forall|k: int|
                0 <= k < v@.len() ==> resolved(selected(arch@, records@)[k], table@, color) == Some(
                    #[trigger] v@[k],
                ),
            r matches Err(e) ==> e.kind == ErrorKind::ConventionNotFound,
    {
        let mut out: Vec<SyscallForArch> = Vec::new();
        let mut i: usize = 0;
        while i < records.len()
            invariant
                i <= records@.len(),
                out@.len() == selected(arch@, records@.take(i as int)).len(),
                forall|k: int|
                    0 <= k < out@.len() ==> resolved(selected(arch@, records@.take(i as int))[k], table@, color)
                        == Some(#[trigger] out@[k]),
            decreases records@.len() - i,
        {
            let ghost before = records@.take(i as int);
            let ghost after = records@.take(i + 1);
            proof {
                reveal(Seq::filter);
                assert(after.drop_last() =~= before);
                assert(after.last() == records@[i as int]);
            }
            let record = &records[i];
            if is_selected(arch, record.arch.as_str()) {
                match SyscallForArch::resolve(record.duplicate(), table, color) {
                    Ok(x) => {
                        out.push(x);
                    },
                    Err(e) => {
                        proof {
                            let whole = records@;
                            assert(whole =~= after + whole.skip(i + 1));
                            Seq::filter_distributes_over_add(after, whole.skip(i + 1), |s: SyscallRecord| arch_selected(arch@, s.arch@));
                            let k = selected(arch@, after).len() - 1;
                            assert(selected(arch@, whole)[k] == records@[i as int]);
                        }
                        return Err(e);
                    },
                }
            }
            i = i + 1;
        }
        assert(records@.take(records@.len() as int) =~= records@);
        assert forall|k: int| 0 <= k < selected(arch@, records@).len() implies #[trigger] resolved(
            selected(arch@, records@)[k],
            table@,
            color,
        ) is Some by {
            assert(resolved(selected(arch@, records@)[k], table@, color) == Some(out@[k]));
        }
        Ok(out)
    }

    /// Answers a query: reads the catalog response, keeps the records of `arch`
    /// (all of them for `all`) and joins each with its convention. It succeeds
    /// exactly when the catalog is a JSON array and every selected record's
    /// architecture has a convention in the table.
    pub fn search_syscall(
        arch: &str,
        catalog: &str,
        color: bool,
        table: &Vec<CallingConventionForArch>,
    ) -> (r: Result<Vec<SyscallForArch>, RsysearcherError>)
        ensures
            match json_array_len(catalog@) {
                Some(n) => (r is Ok <==> forall|k: int|
                    0 <= k < n && arch_selected(arch@, #[trigger] member_or_empty(catalog@, k, "arch"@))
                        ==> convention_for(table@, member_or_empty(catalog@, k, "arch"@)) is Some) && (r matches Err(
                    e,
                ) ==> e.kind == ErrorKind::ConventionNotFound),
                None => r matches Err(e) && e.kind == ErrorKind::DataSourceMalformed,
            },
            r matches Ok(v) ==> exists|records: Seq<SyscallRecord>|
                #[trigger] catalog_read(records, catalog@) && v@.len() == selected(arch@, records).len()
                    && forall|k: int|
                    0 <= k < v@.len() ==> resolved(selected(arch@, records)[k], table@, color) == Some(
                        #[trigger] v@[k],
                    ),
            r matches Ok(v) ==> (json_array_len(catalog@) matches Some(n) && v@.len() <= n && (arch@ == "all"@
                ==> v@.len() == n)),
    {
        let records = match catalog_records(catalog) {
            Ok(records) => records,
            Err(e) => return Err(e),
        };
        let r = SyscallForArch::resolve_matching(arch, &records, table, color);
        proof {
            let sel = selected(arch@, records@);
            let n = records@.len() as int;
            lemma_selection(arch@, records@);
            records@.lemma_filter_len(|s: SyscallRecord| arch_selected(arch@, s.arch@));
            let all_found = forall|k: int|
                0 <= k < n && arch_selected(arch@, #[trigger] member_or_empty(catalog@, k, "arch"@))
                    ==> convention_for(table@, member_or_empty(catalog@, k, "arch"@)) is Some;
            let sel_found = forall|j: int| 0 <= j < sel.len() ==> #[trigger] resolved(sel[j], table@, color) is Some;
            assert(sel_found ==> all_found) by {
                if sel_found {
                    assert forall|k: int|
                        0 <= k < n && arch_selected(arch@, #[trigger] member_or_empty(catalog@, k, "arch"@))
                            implies convention_for(table@, member_or_empty(catalog@, k, "arch"@)) is Some by {
                        assert(record_read(records@[k], catalog@, k));
                        records@.lemma_filter_contains(|s: SyscallRecord| arch_selected(arch@, s.arch@), k);
                        let j = choose|j: int| 0 <= j < sel.len() && sel[j] == records@[k];
                        assert(resolved(sel[j], table@, color) is Some);
                    }
                }
            }
            assert(all_found ==> sel_found) by {
                if all_found {
                    assert forall|j: int| 0 <= j < sel.len() implies #[trigger] resolved(sel[j], table@, color) is Some by {
                        lemma_selected_member(arch@, records@, j);
                        let k = choose|k: int| 0 <= k < records@.len() && records@[k] == sel[j];
                        records@.lemma_filter_pred(|s: SyscallRecord| arch_selected(arch@, s.arch@), j);
                        assert(record_read(records@[k], catalog@, k));
                        assert(arch_selected(arch@, member_or_empty(catalog@, k, "arch"@)));
                    }
                }
            }
            assert(catalog_read(records@, catalog@));
        }
        r
    }

    /// Wraps a value in colour control sequences when colour is on.
    pub fn colorize_or_not(&self, slice: &str) -> (r: String)
        ensures
            r@ == piece((slice@, true), self.color),
    {
        if self.color {
            proof {
                reveal_strlit("\x1b[92m");
                reveal_strlit("\x1b[0m");
            }
            let mut r = String::from_str("\x1b[92m");
            assert(r@ =~= green_on());
            r.append(slice);
            r.append("\x1b[0m");
            assert("\x1b[0m"@ =~= color_off());
            r
        } else {
            String::from_str(slice)
        }
    }

    fn emit(&self, out: &mut String, Ghost(done): Ghost<Seq<Span>>, text: &str, value: bool)
        requires
            old(out)@ == show(done, self.color),
        ensures
            final(out)@ == show(done.push((text@, value)), self.color),
    {
        proof {
            lemma_show_push(done, (text@, value), self.color);
        }
        if value {
            let c = self.colorize_or_not(text);
            out.append(c.as_str());
        } else {
            out.append(text);
        }
    }

    /// The prototype, `name(type0, type1, ...);`, with the unused slots left out.
    pub fn get_prototype(&self) -> (r: String)
        ensures
            r@ == show(prototype_spans(*self), self.color),
    {
        let mut out = String::new();
        let ghost mut done: Seq<Span> = Seq::empty();
        self.emit(&mut out, Ghost(done), self.syscall.name.as_str(), false);
        proof { done = done.push((self.syscall.name@, false)); }
        self.emit(&mut out, Ghost(done), "(", false);
        proof { done = done.push(("("@, false)); }
        let ghost head = done;
        let mut first = true;
        let mut i: usize = 0;
        while i < 6
            invariant
                i <= 6,
                out@ == show(done, self.color),
                done == head + proto_args(self.syscall, i as nat),
                first == (proto_args(self.syscall, i as nat).len() == 0),
            decreases 6 - i,
        {
            let t = self.syscall.arg_type(i);
            if t.as_str().unicode_len() > 0 {
                if !first {
                    self.emit(&mut out, Ghost(done), ", ", false);
                    proof { done = done.push((", "@, false)); }
                }
                self.emit(&mut out, Ghost(done), t.as_str(), true);
                proof {
                    done = done.push((t@, true));
                    assert(done =~= head + proto_args(self.syscall, (i + 1) as nat));
                }
                first = false;
            }
            i = i + 1;
        }
        self.emit(&mut out, Ghost(done), ");", false);
        proof {
            done = done.push((");"@, false));
            assert(done =~= prototype_spans(*self));
        }
        out
    }

    /// The register of argument slot `slot` (0 to 5) in this architecture's convention.
    pub fn convert_arg_to_register(&self, slot: usize) -> (r: Result<&String, RsysearcherError>)
        ensures
            slot < 6 ==> (r matches Ok(reg) && reg@ == self.calling_convention.register_slot(slot as int)),
            slot >= 6 ==> (r matches Err(e) && e.kind == ErrorKind::ArgumentSlotNotFound),
    {
        let c = &self.calling_convention;
        if slot == 0 {
            Ok(&c.arg0)
        } else if slot == 1 {
            Ok(&c.arg1)
        } else if slot == 2 {
            Ok(&c.arg2)
        } else if slot == 3 {
            Ok(&c.arg3)
        } else if slot == 4 {
            Ok(&c.arg4)
        } else if slot == 5 {
            Ok(&c.arg5)
        } else {
            let mut detail = String::from_str("Arg slot ");
            let n = radix_string(slot as u64, 10);
            detail.append(n.as_str());
            detail.append(" not found");
            Err(RsysearcherError { kind: ErrorKind::ArgumentSlotNotFound, detail })
        }
    }

    /// The text describing this syscall: header, number register, one line per
    /// used argument slot, prototype and return register. Fails where the
    /// syscall number does not read as an unsigned 16-bit value.
    pub fn render(&self) -> (r: Result<String, RsysearcherError>)
        ensures
            match rendered(*self, self.color) {
                Some(t) => r matches Ok(s) && s@ == t,
                None => r matches Err(e) && e.kind == ErrorKind::NumberFormat,
            },
    {
        let number = match parse_u16(self.syscall.nr.as_str()) {
            Some(n) => n,
            None => {
                let mut detail = String::from_str("cannot read syscall number ");
                detail.append(self.syscall.nr.as_str());
                return Err(RsysearcherError { kind: ErrorKind::NumberFormat, detail });
            },
        };
        let hex = radix_string(number as u64, 16);
        let mut out = String::new();
        let ghost mut done: Seq<Span> = Seq::empty();
        self.emit(&mut out, Ghost(done), "\nArchitecture: ", false);
        proof { done = done.push(("\nArchitecture: "@, false)); }
        self.emit(&mut out, Ghost(done), self.syscall.arch.as_str(), true);
        proof { done = done.push((self.syscall.arch@, true)); }
        self.emit(&mut out, Ghost(done), "\nName: ", false);
        proof { done = done.push(("\nName: "@, false)); }
        self.emit(&mut out, Ghost(done), self.syscall.name.as_str(), true);
        proof { done = done.push((self.syscall.name@, true)); }
        self.emit(&mut out, Ghost(done), "\nSyscall Number: ", false);
        proof { done = done.push(("\nSyscall Number: "@, false)); }
        self.emit(&mut out, Ghost(done), self.syscall.nr.as_str(), true);
        proof { done = done.push((self.syscall.nr@, true)); }
        self.emit(&mut out, Ghost(done), " ( 0x", false);
        proof { done = done.push((" ( 0x"@, false)); }
        self.emit(&mut out, Ghost(done), hex.as_str(), false);
        proof { done = done.push((hex@, false)); }
        self.emit(&mut out, Ghost(done), " )\n\n", false);
        proof { done = done.push((" )\n\n"@, false)); }
        self.emit(&mut out, Ghost(done), self.calling_convention.nr.as_str(), true);
        proof { done = done.push((self.calling_convention.nr@, true)); }
        self.emit(&mut out, Ghost(done), " <- ", false);
        proof { done = done.push((" <- "@, false)); }
        self.emit(&mut out, Ghost(done), self.syscall.nr.as_str(), true);
        proof { done = done.push((self.syscall.nr@, true)); }
        self.emit(&mut out, Ghost(done), "\n", false);
        proof {
            done = done.push(("\n"@, false));
            assert(done =~= header_spans(*self, number as nat));
        }
        let ghost head = done;
        let mut i: usize = 0;
        while i < 6
            invariant
                i <= 6,
                out@ == show(done, self.color),
                done == head + arg_spans(*self, i as nat),
            decreases 6 - i,
        {
            let t = self.syscall.arg_type(i);
            if t.as_str().unicode_len() > 0 {
                let reg = match self.convert_arg_to_register(i) {
                    Ok(reg) => reg,
                    Err(e) => return Err(e),
                };
                self.emit(&mut out, Ghost(done), reg.as_str(), true);
                proof { done = done.push((reg@, true)); }
                self.emit(&mut out, Ghost(done), " <- ", false);
                proof { done = done.push((" <- "@, false)); }
                self.emit(&mut out, Ghost(done), t.as_str(), true);
                proof { done = done.push((t@, true)); }
                self.emit(&mut out, Ghost(done), "\n", false);
                proof {
                    done = done.push(("\n"@, false));
                    assert(done =~= head + arg_spans(*self, (i + 1) as nat));
                }
            }
            i = i + 1;
        }
        self.emit(&mut out, Ghost(done), "\nPrototype: ", false);
        proof { done = done.push(("\nPrototype: "@, false)); }
        let prototype = self.get_prototype();
        out.append(prototype.as_str());
        proof {
            lemma_show_append(done, prototype_spans(*self), self.color);
            done = done + prototype_spans(*self);
        }
        self.emit(&mut out, Ghost(done), "\nReturn is on: ", false);
        proof { done = done.push(("\nReturn is on: "@, false)); }
        self.emit(&mut out, Ghost(done), self.calling_convention._return.as_str(), true);
        proof { done = done.push((self.calling_convention._return@, true)); }
        self.emit(&mut out, Ghost(done), "\n", false);
        proof {
            done = done.push(("\n"@, false));
            assert(done =~= render_spans(*self, number as nat));
        }
        Ok(out)
    }
}

} // verus!
