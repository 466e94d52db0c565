use vstd::prelude::*;
use vstd::string::StringExecFns;

use crate::error::{ErrorKind, RsysearcherError};
use crate::json::{json_array_len, json_member_text, member_or_empty, parse_members, text_of, text_or_empty};

verus! {

/// One architecture's syscall calling convention: the register that carries the
/// syscall number, the one that carries the return value, and the ones that
/// carry argument slots 0 to 5. An empty register means that the ABI uses none
/// for that role.
#[derive(Debug)]
pub struct CallingConventionForArch {
    pub arch: String,
    pub nr: String,
    pub _return: String,
    pub arg0: String,
    pub arg1: String,
    pub arg2: String,
    pub arg3: String,
    pub arg4: String,
    pub arg5: String,
}

/// The first convention of the table for `arch`, matched exactly.
pub open spec fn convention_for(table: Seq<CallingConventionForArch>, arch: Seq<char>) -> Option<
    CallingConventionForArch,
>
    decreases table.len(),
{
    if table.len() == 0 {
        None
    } else if table[0].arch@ == arch {
        Some(table[0])
    } else {
        convention_for(table.drop_first(), arch)
    }
}

/// No two conventions of the table share an architecture.
pub open spec fn unique_archs(table: Seq<CallingConventionForArch>) -> bool {
    forall|i: int, j: int|
        0 <= i < table.len() && 0 <= j < table.len() && #[trigger] table[i].arch@ == #[trigger] table[j].arch@
            ==> i == j
}

/// Where the table holds a convention for `arch`, it holds the one found.
pub proof fn lemma_convention_for_member(table: Seq<CallingConventionForArch>, arch: Seq<char>)
    ensures
        convention_for(table, arch) is None <==> forall|i: int| 0 <= i < table.len() ==> #[trigger] table[i].arch@ != arch,
        convention_for(table, arch) matches Some(c) ==> c.arch@ == arch && table.contains(c),
    decreases table.len(),
{
    if table.len() > 0 {
        lemma_convention_for_member(table.drop_first(), arch);
        if table[0].arch@ != arch {
            assert forall|i: int| 0 < i < table.len() implies #[trigger] table[i].arch@ == table.drop_first()[i - 1].arch@ by {}
            if let Some(c) = convention_for(table, arch) {
                let k = choose|k: int| 0 <= k < table.drop_first().len() && table.drop_first()[k] == c;
                assert(table[k + 1] == c);
            }
        }
    }
}

/// A record whose architecture the table lacks finds no convention.
pub proof fn lemma_absent_arch_finds_none(table: Seq<CallingConventionForArch>, arch: Seq<char>)
    requires
        forall|i: int| 0 <= i < table.len() ==> #[trigger] table[i].arch@ != arch,
    ensures
        convention_for(table, arch) is None,
{
    lemma_convention_for_member(table, arch);
}

/// Looking a convention up by its own architecture gives that convention back,
/// in a table with one convention per architecture.
pub proof fn lemma_lookup_by_own_arch(table: Seq<CallingConventionForArch>, i: int)
    requires
        unique_archs(table),
        0 <= i < table.len(),
    ensures
        convention_for(table, table[i].arch@) == Some(table[i]),
    decreases i,
{
    if i > 0 {
        let rest = table.drop_first();
        assert(table[0].arch@ != table[i].arch@);
        assert(rest[i - 1] == table[i]);
        assert(unique_archs(rest)) by {
            assert forall|a: int, b: int|
                0 <= a < rest.len() && 0 <= b < rest.len() && #[trigger] rest[a].arch@ == #[trigger] rest[b].arch@
                    implies a == b by {
                assert(table[a + 1] == rest[a] && table[b + 1] == rest[b]);
            }
        }
        lemma_lookup_by_own_arch(rest, i - 1);
    }
}

/// A convention as read from element `k` of the convention table's text: each
/// field the member's string, or empty where there is none.
pub open spec fn convention_read(c: CallingConventionForArch, text: Seq<char>, k: int) -> bool {
    &&& c.arch@ == member_or_empty(text, k, "arch"@)
    &&& c.nr@ == member_or_empty(text, k, "nr"@)
    &&& c._return@ == member_or_empty(text, k, "return"@)
    &&& c.arg0@ == member_or_empty(text, k, "arg0"@)
    &&& c.arg1@ == member_or_empty(text, k, "arg1"@)
    &&& c.arg2@ == member_or_empty(text, k, "arg2"@)
    &&& c.arg3@ == member_or_empty(text, k, "arg3"@)
    &&& c.arg4@ == member_or_empty(text, k, "arg4"@)
    &&& c.arg5@ == member_or_empty(text, k, "arg5"@)
}

impl CallingConventionForArch {
    /// The register for argument slot `i` (0 to 5).
    pub open spec fn register_slot(self, i: int) -> Seq<char> {
        if i == 0 {
            self.arg0@
        } else if i == 1 {
            self.arg1@
        } else if i == 2 {
            self.arg2@
        } else if i == 3 {
            self.arg3@
        } else if i == 4 {
            self.arg4@
        } else {
            self.arg5@
        }
    }

    pub fn get_arch(&self) -> (r: &str)
        ensures
            r@ == self.arch@,
    {
        self.arch.as_str()
    }

    /// A copy of this convention.
    pub fn duplicate(&self) -> (r: Self)
        ensures
            r == *self,
    {
        CallingConventionForArch {
            arch: self.arch.clone(),
            nr: self.nr.clone(),
            _return: self._return.clone(),
            arg0: self.arg0.clone(),
            arg1: self.arg1.clone(),
            arg2: self.arg2.clone(),
            arg3: self.arg3.clone(),
            arg4: self.arg4.clone(),
            arg5: self.arg5.clone(),
        }
    }

    /// Reads the convention table from the convention endpoint's response: one
    /// convention for each element of the JSON array, in order, each field the
    /// member's string or empty where the member is absent. A text that is not a
    /// JSON array is malformed data.
    pub fn get_calling_conventions_for_all_archs(body: &str) -> (r: Result<
        Vec<CallingConventionForArch>,
        RsysearcherError,
    >)
        ensures
            match json_array_len(body@) {
                Some(n) => r matches Ok(table) && table@.len() == n && forall|k: int|
                    0 <= k < n ==> convention_read(#[trigger] table@[k], body@, k),
                None => r matches Err(e) && e.kind == ErrorKind::DataSourceMalformed,
            },
    {
        let mut keys: Vec<&str> = Vec::new();
        keys.push("arch");
        keys.push("nr");
        keys.push("return");
        keys.push("arg0");
        keys.push("arg1");
        keys.push("arg2");
        keys.push("arg3");
        keys.push("arg4");
        keys.push("arg5");
        let items = match parse_members(body, &keys) {
            Ok(items) => items,
            Err(_) => {
                return Err(
                    RsysearcherError {
                        kind: ErrorKind::DataSourceMalformed,
                        detail: String::from_str("the convention table is not a JSON array"),
                    },
                );
            },
        };
        let ghost n = items@.len();
        let mut table: Vec<CallingConventionForArch> = Vec::new();
        let mut i: usize = 0;
        while i < items.len()
            invariant
                i <= items@.len(),
                json_array_len(body@) == Some(n),
                n == items@.len(),
                keys@ == seq!["arch", "nr", "return", "arg0", "arg1", "arg2", "arg3", "arg4", "arg5"],
                forall|k: int|
                    0 <= k < n ==> (#[trigger] items@[k])@.len() == keys@.len() && forall|j: int|
                        0 <= j < keys@.len() ==> text_of((#[trigger] items@[k]@[j]).0) == json_member_text(
                            body@,
                            k,
                            keys@[j]@,
                        ),
                table@.len() == i,
                forall|k: int| 0 <= k < i ==> convention_read(#[trigger] table@[k], body@, k),
            decreases items.len() - i,
        {
            let item = &items[i];
            assert(item@.len() == 9);
            assert forall|j: int| 0 <= j < 9 implies text_of((#[trigger] item@[j]).0) == json_member_text(
                body@,
                i as int,
                keys@[j]@,
            ) by {}
            let c = CallingConventionForArch {
                arch: text_or_empty(&item[0].0),
                nr: text_or_empty(&item[1].0),
                _return: text_or_empty(&item[2].0),
                arg0: text_or_empty(&item[3].0),
                arg1: text_or_empty(&item[4].0),
                arg2: text_or_empty(&item[5].0),
                arg3: text_or_empty(&item[6].0),
                arg4: text_or_empty(&item[7].0),
                arg5: text_or_empty(&item[8].0),
            };
            assert(convention_read(c, body@, i as int));
            table.push(c);
            i = i + 1;
        }
        Ok(table)
    }
}

} // verus!
