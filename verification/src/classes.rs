//! Character classes of the expression grammar, and runs of characters in a class.

use vstd::prelude::*;

verus! {

/// The white-space characters of Unicode, `White_Space` in its tables.
pub open spec fn is_white_space(c: char) -> bool {
    let n = c as u32;
    ||| 0x09 <= n <= 0x0d
    ||| n == 0x20
    ||| n == 0x85
    ||| n == 0xa0
    ||| n == 0x1680
    ||| 0x2000 <= n <= 0x200a
    ||| n == 0x2028
    ||| n == 0x2029
    ||| n == 0x202f
    ||| n == 0x205f
    ||| n == 0x3000
}

/// The ASCII word characters: digits, letters and the underscore.
pub open spec fn is_ascii_word(c: char) -> bool {
    ||| '0' <= c <= '9'
    ||| 'A' <= c <= 'Z'
    ||| 'a' <= c <= 'z'
    ||| c == '_'
}

/// What `regex_syntax::is_word_character` answers for a character: whether it is a
/// Unicode word character (alphabetic, a mark, a decimal digit, connector punctuation or a
/// join control).
pub uninterp spec fn word_character(c: char) -> bool;

/// A word character of an operand. Within ASCII these are the digits, the letters and the
/// underscore; beyond ASCII the Unicode word characters, none of which is white space.
pub open spec fn is_word(c: char) -> bool {
    if c as u32 <= 0x7f {
        is_ascii_word(c)
    } else {
        !is_white_space(c) && word_character(c)
    }
}

/// The classes of characters that the operand grammar tells apart.
#[derive(Clone, Copy, Debug)]
pub enum CharClass {
    /// White space, which may stand between a sign and its operand.
    Space,
    /// Word characters, which make up the dot-separated parts of a name.
    Word,
    /// Word characters and the hyphen, which make up the head of an operand.
    Name,
}

/// Whether `c` belongs to `class`.
pub open spec fn in_class(class: CharClass, c: char) -> bool {
    match class {
        CharClass::Space => is_white_space(c),
        CharClass::Word => is_word(c),
        CharClass::Name => is_word(c) || c == '-',
    }
}

/// Where the longest run of `class` characters that starts at `i` ends.
pub open spec fn run_end(s: Seq<char>, class: CharClass, i: int) -> int
    decreases s.len() - i,
{
    if 0 <= i < s.len() && in_class(class, s[i]) {
        run_end(s, class, i + 1)
    } else {
        i
    }
}

/// A run ends at or after its start, inside the text, and on a character outside the class.
pub proof fn lemma_run_end(s: Seq<char>, class: CharClass, i: int)
    requires
        0 <= i <= s.len(),
    ensures
        i <= run_end(s, class, i) <= s.len(),
        run_end(s, class, i) < s.len() ==> !in_class(class, s[run_end(s, class, i)]),
        forall|k: int| i <= k < run_end(s, class, i) ==> in_class(class, #[trigger] s[k]),
    decreases s.len() - i,
{
    if i < s.len() && in_class(class, s[i]) {
        lemma_run_end(s, class, i + 1);
    }
}

/// A run that starts inside another run of the same class ends where that one ends.
pub proof fn lemma_run_end_within(s: Seq<char>, class: CharClass, i: int, k: int)
    requires
        0 <= i <= k <= run_end(s, class, i),
        i <= s.len(),
    ensures
        run_end(s, class, k) == run_end(s, class, i),
    decreases k - i,
{
    lemma_run_end(s, class, i);
    if i < k {
        lemma_run_end_within(s, class, i + 1, k);
    }
}

/// The position `j` ends the run from `i` when everything between them is in the class and
/// the character at `j`, if there is one, is not.
pub proof fn lemma_run_end_is(s: Seq<char>, class: CharClass, i: int, j: int)
    requires
        0 <= i <= j <= s.len(),
        forall|k: int| i <= k < j ==> in_class(class, #[trigger] s[k]),
        j < s.len() ==> !in_class(class, s[j]),
    ensures
        run_end(s, class, i) == j,
    decreases j - i,
{
    if i < j {
        lemma_run_end_is(s, class, i + 1, j);
    }
}

/// Whether `c` is white space.
pub fn is_space_char(c: char) -> (b: bool)
    ensures
        b == is_white_space(c),
{
    let n: u32 = c as u32;
    (0x09 <= n && n <= 0x0d) || n == 0x20 || n == 0x85 || n == 0xa0 || n == 0x1680 || (0x2000 <= n
        && n <= 0x200a) || n == 0x2028 || n == 0x2029 || n == 0x202f || n == 0x205f || n == 0x3000
}

/// Asks `regex_syntax::is_word_character` whether `c` is a Unicode word character, the class
/// that `\w` stands for in a pattern. The contract claims that within ASCII the answer is yes
/// exactly for `0-9`, `A-Z`, `a-z` and `_`, the only ASCII ranges of the function's table, and
/// that it is no for each of the 25 white-space characters, none of which is in that table.
/// The function panics only where the crate was built without its `unicode-perl` feature,
/// which is part of its default features.
#[verifier::external_body]
pub(crate) fn is_word_char(c: char) -> (b: bool)
    ensures
        b == word_character(c),
        b == is_word(c),
{
    regex_syntax::is_word_character(c)
}

/// Whether `c` belongs to `class`.
pub fn has_class(class: CharClass, c: char) -> (b: bool)
    ensures
        b == in_class(class, c),
{
    match class {
        CharClass::Space => is_space_char(c),
        CharClass::Word => is_word_char(c),
        CharClass::Name => c == '-' || is_word_char(c),
    }
}

/// Skips the run of `class` characters that starts at `i`.
pub(crate) fn skip_run(s: &[char], class: CharClass, i: usize) -> (j: usize)
    requires
        i <= s@.len(),
    ensures
        j == run_end(s@, class, i as int),
        i <= j <= s@.len(),
{
    let mut j: usize = i;
    while j < s.len() && has_class(class, s[j])
        invariant
            i <= j <= s@.len(),
            run_end(s@, class, j as int) == run_end(s@, class, i as int),
        decreases s@.len() - j,
    {
        j = j + 1;
    }
    j
}

} // verus!
