//! The module table: names of loaded modules and their base addresses.

use vstd::prelude::*;

verus! {

/// One loaded module: its name and the address at which it is loaded.
#[derive(Clone, Debug, PartialEq, Eq)]
pub struct ModuleRecord {
    pub name: String,
    pub base: u64,
}

/// What a module record stands for in contracts.
pub struct ModuleEntry {
    pub name: Seq<char>,
    pub base: u64,
}

impl View for ModuleRecord {
    type V = ModuleEntry;

    open spec fn view(&self) -> ModuleEntry {
        ModuleEntry { name: self.name@, base: self.base }
    }
}

/// The entries that a table of records stands for, in the table's order.
pub open spec fn table_view(modules: Seq<ModuleRecord>) -> Seq<ModuleEntry> {
    Seq::new(modules.len(), |i: int| modules[i]@)
}

/// The code point of `c`, with the upper-case ASCII letters mapped to their lower case.
pub open spec fn ascii_fold(c: char) -> u32 {
    if 'A' <= c <= 'Z' {
        (c as u32 + 32) as u32
    } else {
        c as u32
    }
}

/// Two texts that differ at most in the case of their ASCII letters.
pub open spec fn same_name(a: Seq<char>, b: Seq<char>) -> bool {
    &&& a.len() == b.len()
    &&& forall|i: int| 0 <= i < a.len() ==> ascii_fold(#[trigger] a[i]) == ascii_fold(b[i])
}

/// The base of the first entry whose name is `text` up to ASCII case; `None` where the table
/// has no such entry.
pub open spec fn lookup(text: Seq<char>, modules: Seq<ModuleEntry>) -> Option<u64>
    decreases modules.len(),
{
    if modules.len() == 0 {
        None
    } else if same_name(text, modules[0].name) {
        Some(modules[0].base)
    } else {
        lookup(text, modules.drop_first())
    }
}

/// A lookup finds the entry at `k` when that entry carries the name and none before it does.
pub proof fn lemma_lookup_first(text: Seq<char>, modules: Seq<ModuleEntry>, k: int)
    requires
        0 <= k < modules.len(),
        same_name(text, modules[k].name),
        forall|j: int| 0 <= j < k ==> !same_name(text, (#[trigger] modules[j]).name),
    ensures
        lookup(text, modules) == Some(modules[k].base),
    decreases k,
{
    if k > 0 {
        let rest = modules.drop_first();
        assert(rest[k - 1] == modules[k]);
        assert forall|j: int| 0 <= j < k - 1 implies !same_name(
            text,
            (#[trigger] rest[j]).name,
        ) by {
            assert(rest[j] == modules[j + 1]);
        }
        lemma_lookup_first(text, rest, k - 1);
    }
}

/// A lookup finds nothing exactly when no entry carries the name.
pub proof fn lemma_lookup_none(text: Seq<char>, modules: Seq<ModuleEntry>)
    ensures
        lookup(text, modules) is None <==> forall|j: int|
            0 <= j < modules.len() ==> !same_name(text, (#[trigger] modules[j]).name),
    decreases modules.len(),
{
    if modules.len() > 0 {
        let rest = modules.drop_first();
        lemma_lookup_none(text, rest);
        if !same_name(text, modules[0].name) {
            if lookup(text, rest) is None {
                assert forall|j: int| 0 <= j < modules.len() implies !same_name(
                    text,
                    (#[trigger] modules[j]).name,
                ) by {
                    if j > 0 {
                        assert(rest[j - 1] == modules[j]);
                    }
                }
            } else {
                let j = choose|j: int|
                    0 <= j < rest.len() && same_name(text, (#[trigger] rest[j]).name);
                assert(modules[j + 1] == rest[j]);
            }
        }
    }
}

/// The code point of `c` with ASCII letters in lower case.
pub fn fold_char(c: char) -> (n: u32)
    ensures
        n == ascii_fold(c),
{
    let n: u32 = c as u32;
    if 0x41 <= n && n <= 0x5a {
        n + 32
    } else {
        n
    }
}

/// Whether `text` spells `name` up to ASCII case.
pub fn spells_name(text: &[char], name: &str) -> (b: bool)
    ensures
        b == same_name(text@, name@),
{
    let mut at: usize = 0;
    let mut agree: bool = true;
    for c in it: name.chars()
        invariant
            it.seq() == name@,
            at <= text@.len(),
            agree ==> at == it.index(),
            agree ==> forall|j: int|
                0 <= j < it.index() ==> ascii_fold(#[trigger] text@[j]) == ascii_fold(name@[j]),
            !agree ==> !same_name(text@, name@),
    {
        if agree {
            if at < text.len() && fold_char(text[at]) == fold_char(c) {
                at = at + 1;
            } else {
                agree = false;
                proof {
                    let j = it.index() as int;
                    if at < text@.len() {
                        assert(ascii_fold(text@[j]) != ascii_fold(name@[j]));
                    }
                }
            }
        }
    }
    agree && at == text.len()
}

/// The base of the first module whose name `text` spells, up to ASCII case.
pub fn find_base(text: &[char], modules: &Vec<ModuleRecord>) -> (r: Option<u64>)
    ensures
        r == lookup(text@, table_view(modules@)),
{
    let ghost table = table_view(modules@);
    let mut k: usize = 0;
    proof {
        assert(table.skip(0) =~= table);
    }
    while k < modules.len()
        invariant
            k <= modules@.len(),
            table == table_view(modules@),
            lookup(text@, table) == lookup(text@, table.skip(k as int)),
        decreases modules@.len() - k,
    {
        proof {
            assert(table.skip(k as int).drop_first() =~= table.skip(k + 1));
            assert(table.skip(k as int)[0] == modules@[k as int]@);
        }
        if spells_name(text, modules[k].name.as_str()) {
            return Some(modules[k].base);
        }
        k = k + 1;
    }
    proof {
        assert(table.skip(k as int).len() == 0);
    }
    None
}

} // verus!
