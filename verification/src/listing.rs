//! Directory listings: lines of text, indented by depth, read as a forest of files and
//! directories.

use vstd::prelude::*;
use vstd::slice::slice_subrange;
use vstd::string::StringExecFns;
use crate::classes::{run_end, skip_run, CharClass};
use crate::decimal::{parse_i64, read_i64};
use crate::text::{chars_of, string_of};

verus! {

/// A file or a directory of a listing.
#[derive(Debug, PartialEq, Eq)]
pub struct FileItem {
    /// `file` or `directory`.
    pub item_type: String,
    pub name: String,
    /// The size of a file, where the listing gives it as a number.
    pub size: Option<i64>,
    /// When a file was last opened, where the listing gives it as a number.
    pub last_opened: Option<i64>,
    /// What a directory holds; `None` for a file and for a directory that holds nothing.
    pub children: Option<Vec<FileItem>>,
}

/// What a file item stands for in contracts.
pub struct Item {
    pub item_type: Seq<char>,
    pub name: Seq<char>,
    pub size: Option<i64>,
    pub last_opened: Option<i64>,
    pub children: Option<Seq<Item>>,
}

/// What a list of file items stands for in contracts.
pub open spec fn forest_view(items: Seq<FileItem>) -> Seq<Item>
    decreases items,
{
    Seq::new(
        items.len(),
        |i: int|
            if 0 <= i < items.len() {
                item_view(items[i])
            } else {
                arbitrary()
            },
    )
}

/// What a file item stands for in contracts.
pub open spec fn item_view(item: FileItem) -> Item
    decreases item,
{
    Item {
        item_type: item.item_type@,
        name: item.name@,
        size: item.size,
        last_opened: item.last_opened,
        children: match item.children {
            Some(children) => Some(forest_view(children@)),
            None => None,
        },
    }
}

impl View for FileItem {
    type V = Item;

    open spec fn view(&self) -> Item {
        item_view(*self)
    }
}

impl Clone for FileItem {
    fn clone(&self) -> (r: FileItem)
        ensures
            item_view(r) == item_view(*self),
        decreases self,
    {
        let children = match &self.children {
            Some(held) => {
                let mut copies: Vec<FileItem> = Vec::new();
                let mut i: usize = 0;
                while i < held.len()
                    invariant
                        i <= held@.len(),
                        self.children == Some(*held),
                        forest_view(copies@) == forest_view(held@.take(i as int)),
                    decreases held@.len() - i,
                {
                    let ghost before = copies@;
                    proof {
                        vstd::std_specs::vec::axiom_vec_index_decreases(
                            self.children->0,
                            i as int,
                        );
                        assert(decreases_to!(self.children => self.children->0));
                    }
                    let copy = held[i].clone();
                    copies.push(copy);
                    proof {
                        assert(forest_view(copies@) =~= forest_view(before).push(item_view(copy)));
                        assert(forest_view(held@.take(i + 1)) =~= forest_view(
                            held@.take(i as int),
                        ).push(item_view(held@[i as int])));
                    }
                    i = i + 1;
                }
                proof {
                    assert(held@.take(held@.len() as int) =~= held@);
                }
                Some(copies)
            },
            None => None,
        };
        FileItem {
            item_type: self.item_type.clone(),
            name: self.name.clone(),
            size: self.size,
            last_opened: self.last_opened,
            children,
        }
    }
}

/// One line of a listing that describes an item: how deep it is indented, whether it is a
/// directory, and what it says of the item.
pub struct Entry {
    pub indent: nat,
    pub directory: bool,
    pub name: Seq<char>,
    pub size: Option<i64>,
    pub last_opened: Option<i64>,
}

/// The first place at or after `i` where `c` stands in `s`; the length of `s` if there is
/// none.
pub open spec fn find_char(s: Seq<char>, c: char, i: int) -> int
    decreases s.len() - i,
{
    if 0 <= i < s.len() && s[i] != c {
        find_char(s, c, i + 1)
    } else {
        i
    }
}

/// The first place at or after `i` where no blank stands in `s`; the length of `s` if there
/// is none.
pub open spec fn blank_end(s: Seq<char>, i: int) -> int
    decreases s.len() - i,
{
    if 0 <= i < s.len() && s[i] == ' ' {
        blank_end(s, i + 1)
    } else {
        i
    }
}

/// The depth by which a line is indented: one level for every two blanks at its start.
pub open spec fn indent_of(line: Seq<char>) -> nat {
    (blank_end(line, 0) / 2) as nat
}

/// The line that starts at `i`: the characters up to the next line feed or the end of the
/// text, without a carriage return that stands before the line feed.
pub open spec fn line_at(s: Seq<char>, i: int) -> Seq<char> {
    let end = find_char(s, '\n', i);
    if end < s.len() && i < end && s[end - 1] == '\r' {
        s.subrange(i, end - 1)
    } else {
        s.subrange(i, end)
    }
}

/// The entry that a line describes, if it describes one. Behind white space the line holds a
/// kind, a colon and the rest. Of kind `dir` the rest is a directory's name. Of kind `file`
/// the rest is a file's name, its size and the time it was last opened, with a comma between
/// them; a size or a time that is no number is left out. Any other line describes nothing.
/// Two blanks at the start of the line indent the entry by one level.
pub open spec fn entry_of(line: Seq<char>) -> Option<Entry> {
    let content = line.skip(run_end(line, CharClass::Space, 0));
    let colon = find_char(content, ':', 0);
    let kind = content.take(colon);
    let rest = content.skip(colon + 1);
    let first = find_char(rest, ',', 0);
    let second = find_char(rest, ',', first + 1);
    if colon >= content.len() {
        None
    } else if kind == seq!['d', 'i', 'r'] {
        Some(
            Entry {
                indent: indent_of(line),
                directory: true,
                name: rest,
                size: None,
                last_opened: None,
            },
        )
    } else if kind == seq!['f', 'i', 'l', 'e'] && second < rest.len() && find_char(
        rest,
        ',',
        second + 1,
    ) >= rest.len() {
        Some(
            Entry {
                indent: indent_of(line),
                directory: false,
                name: rest.take(first),
                size: parse_i64(rest.subrange(first + 1, second)),
                last_opened: parse_i64(rest.skip(second + 1)),
            },
        )
    } else {
        None
    }
}

/// The entries that the lines of `s` from `i` on describe, in order.
pub open spec fn entries_from(s: Seq<char>, i: int) -> Seq<Entry>
    decreases s.len() - i,
{
    if i < 0 || i >= s.len() {
        Seq::empty()
    } else {
        let end = find_char(s, '\n', i);
        let after = if i <= end < s.len() {
            entries_from(s, end + 1)
        } else {
            Seq::empty()
        };
        match entry_of(line_at(s, i)) {
            Some(entry) => seq![entry] + after,
            None => after,
        }
    }
}

/// The first place at or after `i` whose entry is indented by less than `level`; the number
/// of entries if there is none.
pub open spec fn block_end(entries: Seq<Entry>, i: int, level: nat) -> int
    decreases entries.len() - i,
{
    if 0 <= i < entries.len() && entries[i].indent >= level {
        block_end(entries, i + 1, level)
    } else {
        i
    }
}

/// The item of a file's entry.
pub open spec fn file_item(entry: Entry) -> Item {
    Item {
        item_type: "file"@,
        name: entry.name,
        size: entry.size,
        last_opened: entry.last_opened,
        children: None,
    }
}

/// The item of a directory's entry that holds `children`.
pub open spec fn directory_item(entry: Entry, children: Seq<Item>) -> Item {
    Item {
        item_type: "directory"@,
        name: entry.name,
        size: None,
        last_opened: None,
        children: if children.len() > 0 {
            Some(children)
        } else {
            None
        },
    }
}

/// The items that the entries from `from` up to `to` make at `level`, none of these entries
/// being indented by less. A file's entry makes a file. A directory's entry makes a directory
/// that holds what the entries after it make one level deeper, up to the first of them that
/// is not indented deeper than `level`.
pub open spec fn items_of(entries: Seq<Entry>, from: int, to: int, level: nat) -> Seq<Item>
    decreases to - from,
{
    if from < 0 || from >= to {
        Seq::empty()
    } else if entries[from].directory {
        let inner = block_end(entries, from + 1, level + 1);
        let end = if inner < to {
            inner
        } else {
            to
        };
        // A block ends after the directory's entry: the test is for termination only.
        if from < end {
            seq![directory_item(entries[from], items_of(entries, from + 1, end, level + 1))]
                + items_of(entries, end, to, level)
        } else {
            Seq::empty()
        }
    } else {
        seq![file_item(entries[from])] + items_of(entries, from + 1, to, level)
    }
}

/// The forest that a listing describes.
pub open spec fn listing(s: Seq<char>) -> Seq<Item> {
    items_of(entries_from(s, 0), 0, entries_from(s, 0).len() as int, 0)
}

/// A block ends at or after its start, among the entries, on an entry that is indented by
/// less than the level, and holds only entries indented by the level or more.
pub proof fn lemma_block_end(entries: Seq<Entry>, i: int, level: nat)
    requires
        0 <= i <= entries.len(),
    ensures
        i <= block_end(entries, i, level) <= entries.len(),
        block_end(entries, i, level) < entries.len() ==> entries[block_end(
            entries,
            i,
            level,
        )].indent < level,
        forall|k: int|
            i <= k < block_end(entries, i, level) ==> (#[trigger] entries[k]).indent >= level,
    decreases entries.len() - i,
{
    if i < entries.len() && entries[i].indent >= level {
        lemma_block_end(entries, i + 1, level);
    }
}

/// The place `j` ends the block from `i` when every entry between them is indented by the
/// level or more and the entry at `j`, if there is one, is not.
pub proof fn lemma_block_end_is(entries: Seq<Entry>, i: int, j: int, level: nat)
    requires
        0 <= i <= j <= entries.len(),
        forall|k: int| i <= k < j ==> (#[trigger] entries[k]).indent >= level,
        j < entries.len() ==> entries[j].indent < level,
    ensures
        block_end(entries, i, level) == j,
    decreases j - i,
{
    if i < j {
        lemma_block_end_is(entries, i + 1, j, level);
    }
}

/// An entry as it is found in a text: where its name stands in the text, and the rest of
/// what its line says.
#[derive(Clone, Copy, Debug)]
pub struct EntrySpan {
    pub indent: usize,
    pub directory: bool,
    pub name_start: usize,
    pub name_end: usize,
    pub size: Option<i64>,
    pub last_opened: Option<i64>,
}

/// The entry that a span of the text `s` stands for.
pub open spec fn span_entry(span: EntrySpan, s: Seq<char>) -> Entry {
    Entry {
        indent: span.indent as nat,
        directory: span.directory,
        name: s.subrange(span.name_start as int, span.name_end as int),
        size: span.size,
        last_opened: span.last_opened,
    }
}

/// The entries that spans of the text `s` stand for.
pub open spec fn spans_view(spans: Seq<EntrySpan>, s: Seq<char>) -> Seq<Entry> {
    Seq::new(spans.len(), |i: int| span_entry(spans[i], s))
}

/// The first place at or after `i` where `c` stands in `s`.
fn find_from(s: &[char], c: char, i: usize) -> (j: usize)
    requires
        i <= s@.len(),
    ensures
        j == find_char(s@, c, i as int),
        i <= j <= s@.len(),
{
    let mut j: usize = i;
    while j < s.len() && s[j] != c
        invariant
            i <= j <= s@.len(),
            find_char(s@, c, j as int) == find_char(s@, c, i as int),
        decreases s@.len() - j,
    {
        j = j + 1;
    }
    j
}

/// The number of blanks at the start of `s`.
fn count_blanks(s: &[char]) -> (j: usize)
    ensures
        j == blank_end(s@, 0),
        j <= s@.len(),
{
    let mut j: usize = 0;
    while j < s.len() && s[j] == ' '
        invariant
            j <= s@.len(),
            blank_end(s@, j as int) == blank_end(s@, 0),
        decreases s@.len() - j,
    {
        j = j + 1;
    }
    j
}

/// The entry that the line made of the characters of `chars` from `start` up to `end`
/// describes.
fn read_entry(chars: &[char], start: usize, end: usize) -> (r: Option<EntrySpan>)
    requires
        start <= end <= chars@.len(),
    ensures
        match r {
            Some(span) => entry_of(chars@.subrange(start as int, end as int)) == Some(
                span_entry(span, chars@),
            ) && span.name_start <= span.name_end <= chars@.len(),
            None => entry_of(chars@.subrange(start as int, end as int)) is None,
        },
{
    let line = slice_subrange(chars, start, end);
    let indent = count_blanks(line) / 2;
    let skipped = skip_run(line, CharClass::Space, 0);
    let content = slice_subrange(line, skipped, line.len());
    let colon = find_from(content, ':', 0);
    proof {
        assert(content@ =~= line@.skip(skipped as int));
    }
    if colon >= content.len() {
        return None;
    }
    let kind = slice_subrange(content, 0, colon);
    let rest = slice_subrange(content, colon + 1, content.len());
    let base = start + skipped + colon + 1;
    proof {
        assert(kind@ =~= content@.take(colon as int));
        assert(rest@ =~= content@.skip(colon + 1));
        assert(rest@ =~= chars@.subrange(base as int, end as int));
    }
    if kind.len() == 3 && kind[0] == 'd' && kind[1] == 'i' && kind[2] == 'r' {
        proof {
            assert(kind@ =~= seq!['d', 'i', 'r']);
        }
        return Some(
            EntrySpan {
                indent,
                directory: true,
                name_start: base,
                name_end: end,
                size: None,
                last_opened: None,
            },
        );
    }
    proof {
        if kind@ == seq!['d', 'i', 'r'] {
            assert(kind@[0] == 'd' && kind@[1] == 'i' && kind@[2] == 'r');
        }
    }
    if !(kind.len() == 4 && kind[0] == 'f' && kind[1] == 'i' && kind[2] == 'l' && kind[3] == 'e') {
        proof {
            if kind@ == seq!['f', 'i', 'l', 'e'] {
                assert(kind@[0] == 'f' && kind@[1] == 'i' && kind@[2] == 'l' && kind@[3] == 'e');
            }
        }
        return None;
    }
    proof {
        assert(kind@ =~= seq!['f', 'i', 'l', 'e']);
    }
    let first = find_from(rest, ',', 0);
    if first >= rest.len() {
        return None;
    }
    let second = find_from(rest, ',', first + 1);
    if second >= rest.len() {
        return None;
    }
    let third = find_from(rest, ',', second + 1);
    if third < rest.len() {
        return None;
    }
    let size = read_i64(slice_subrange(rest, first + 1, second));
    let last_opened = read_i64(slice_subrange(rest, second + 1, rest.len()));
    proof {
        assert(rest@.subrange(second + 1, rest@.len() as int) =~= rest@.skip(second + 1));
        assert(rest@.take(first as int) =~= chars@.subrange(base as int, base + first));
    }
    Some(
        EntrySpan {
            indent,
            directory: false,
            name_start: base,
            name_end: base + first,
            size,
            last_opened,
        },
    )
}

/// The entries that the lines of `chars` describe, in order.
fn read_entries(chars: &[char]) -> (spans: Vec<EntrySpan>)
    ensures
        spans_view(spans@, chars@) == entries_from(chars@, 0),
        forall|k: int|
            0 <= k < spans@.len() ==> (#[trigger] spans@[k]).name_start <= spans@[k].name_end
                <= chars@.len(),
{
    let n = chars.len();
    let mut spans: Vec<EntrySpan> = Vec::new();
    let mut at: usize = 0;
    proof {
        assert(spans_view(spans@, chars@) + entries_from(chars@, 0) =~= entries_from(chars@, 0));
    }
    while at < n
        invariant
            n == chars@.len(),
            at <= n,
            spans_view(spans@, chars@) + entries_from(chars@, at as int) == entries_from(
                chars@,
                0,
            ),
            forall|k: int|
                0 <= k < spans@.len() ==> (#[trigger] spans@[k]).name_start <= spans@[k].name_end
                    <= chars@.len(),
        decreases n - at,
    {
        let feed = find_from(chars, '\n', at);
        let end = if feed < n && at < feed && chars[feed - 1] == '\r' {
            feed - 1
        } else {
            feed
        };
        let ghost before = spans_view(spans@, chars@);
        let ghost after = if feed < n {
            entries_from(chars@, feed + 1)
        } else {
            Seq::empty()
        };
        match read_entry(chars, at, end) {
            Some(span) => {
                spans.push(span);
                proof {
                    let entry = span_entry(span, chars@);
                    assert(spans_view(spans@, chars@) =~= before.push(entry));
                    assert(before.push(entry) + after =~= before + (seq![entry] + after));
                }
            },
            None => {},
        }
        at = if feed < n {
            feed + 1
        } else {
            n
        };
        proof {
            if feed >= n {
                assert(entries_from(chars@, at as int) =~= Seq::<Entry>::empty());
            }
        }
    }
    proof {
        assert(spans_view(spans@, chars@) + Seq::<Entry>::empty() =~= spans_view(
            spans@,
            chars@,
        ));
    }
    spans
}

/// A list of items with one more item at its end stands for the list's view with the item's
/// view at its end.
proof fn lemma_forest_push(items: Seq<FileItem>, item: FileItem)
    ensures
        forest_view(items.push(item)) == forest_view(items).push(item_view(item)),
{
    assert(forest_view(items.push(item)) =~= forest_view(items).push(item_view(item)));
}

/// The items that the entries from `from` on make at `level`, and the place of the first
/// entry that makes none of them.
fn build_level(chars: &[char], spans: &Vec<EntrySpan>, from: usize, level: usize) -> (r: (
    Vec<FileItem>,
    usize,
))
    requires
        level <= from <= spans@.len(),
        forall|k: int|
            0 <= k < spans@.len() ==> (#[trigger] spans@[k]).name_start <= spans@[k].name_end
                <= chars@.len(),
    ensures
        r.1 == block_end(spans_view(spans@, chars@), from as int, level as nat),
        from <= r.1 <= spans@.len(),
        forest_view(r.0@) == items_of(
            spans_view(spans@, chars@),
            from as int,
            r.1 as int,
            level as nat,
        ),
    decreases spans@.len() - from,
{
    let ghost entries = spans_view(spans@, chars@);
    let ghost end = block_end(entries, from as int, level as nat);
    proof {
        lemma_block_end(entries, from as int, level as nat);
    }
    let mut items: Vec<FileItem> = Vec::new();
    let mut i: usize = from;
    proof {
        assert(forest_view(items@) =~= Seq::<Item>::empty());
        assert(forest_view(items@) + items_of(entries, from as int, end, level as nat)
            =~= items_of(entries, from as int, end, level as nat));
    }
    while i < spans.len() && spans[i].indent >= level
        invariant
            level <= from <= i <= end <= spans@.len(),
            entries == spans_view(spans@, chars@),
            end == block_end(entries, from as int, level as nat),
            end == block_end(entries, i as int, level as nat),
            forall|k: int|
                0 <= k < spans@.len() ==> (#[trigger] spans@[k]).name_start <= spans@[k].name_end
                    <= chars@.len(),
            forest_view(items@) + items_of(entries, i as int, end, level as nat) == items_of(
                entries,
                from as int,
                end,
                level as nat,
            ),
        decreases spans@.len() - i,
    {
        let span = spans[i];
        let ghost entry = entries[i as int];
        let ghost done = forest_view(items@);
        let name = string_of(slice_subrange(chars, span.name_start, span.name_end));
        proof {
            assert(entry == span_entry(span, chars@));
            lemma_block_end(entries, i as int, level as nat);
        }
        if span.directory {
            let (children, next) = build_level(chars, spans, i + 1, level + 1);
            proof {
                lemma_block_end(entries, i + 1, (level + 1) as nat);
                lemma_block_end(entries, next as int, level as nat);
                assert forall|k: int| i <= k < next implies (#[trigger] entries[k]).indent
                    >= level by {}
                if next < end {
                    lemma_block_end_is(entries, next as int, end, level as nat);
                } else {
                    assert(end <= next) by {
                        if end < next {
                            assert(entries[end].indent >= level);
                        }
                    }
                }
                assert(next <= end);
                assert(block_end(entries, next as int, level as nat) == end) by {
                    lemma_block_end_is(entries, next as int, end, level as nat);
                }
            }
            let ghost kids = forest_view(children@);
            let item = FileItem {
                item_type: String::from_str("directory"),
                name,
                size: None,
                last_opened: None,
                children: if children.len() > 0 {
                    Some(children)
                } else {
                    None
                },
            };
            proof {
                assert(item_view(item) == directory_item(entry, kids));
                lemma_forest_push(items@, item);
                let after = items_of(entries, next as int, end, level as nat);
                assert(done.push(item_view(item)) + after =~= done + (seq![item_view(item)]
                    + after));
            }
            items.push(item);
            i = next;
        } else {
            let item = FileItem {
                item_type: String::from_str("file"),
                name,
                size: span.size,
                last_opened: span.last_opened,
                children: None,
            };
            proof {
                assert(item_view(item) == file_item(entry));
                lemma_forest_push(items@, item);
                let after = items_of(entries, i + 1, end, level as nat);
                assert(done.push(item_view(item)) + after =~= done + (seq![item_view(item)]
                    + after));
            }
            items.push(item);
            i = i + 1;
        }
    }
    proof {
        lemma_block_end(entries, i as int, level as nat);
        assert(i == end);
        assert(forest_view(items@) + Seq::<Item>::empty() =~= forest_view(items@));
    }
    (items, i)
}

/// Reads a directory listing. Each line that describes an item is `dir:` and a name, or
/// `file:` and a name, a size and a time with commas between them; white space before it is
/// passed over, and every two blanks at its start put the item one level deeper. An item
/// belongs to the directory that was last read at a lesser depth; one that is indented deeper
/// than the directories before it reach belongs to the deepest of them. Lines that describe
/// nothing are passed over.
pub fn parse_directory_structure(raw_data: &str) -> (r: Vec<FileItem>)
    ensures
        forest_view(r@) == listing(raw_data@),
{
    let chars = chars_of(raw_data);
    let spans = read_entries(chars.as_slice());
    let ghost entries = spans_view(spans@, chars@);
    let (items, next) = build_level(chars.as_slice(), &spans, 0, 0);
    proof {
        lemma_block_end_is(entries, 0, entries.len() as int, 0);
    }
    items
}

} // verus!
