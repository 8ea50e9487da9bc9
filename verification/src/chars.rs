//! Character-level specifications and helpers shared by the line transforms:
//! leading-whitespace runs, blank lines, and literal prefix matching at a
//! given position.

use vstd::prelude::*;

verus! {

/// Whitespace as the line transforms understand it: the ASCII blank
/// characters that can open a line of text.
pub open spec fn is_space_char(c: char) -> bool {
    c == ' ' || c == '\t' || c == '\r' || c == '\n' || c == '\x0b' || c == '\x0c'
}

/// Length of the maximal run of whitespace characters that opens `s`.
pub open spec fn ws_prefix_len(s: Seq<char>) -> nat
    decreases s.len(),
{
    if s.len() == 0 || !is_space_char(s[0]) {
        0
    } else {
        1 + ws_prefix_len(s.skip(1))
    }
}

/// A line is blank when it holds nothing but whitespace.
pub open spec fn is_blank(s: Seq<char>) -> bool {
    ws_prefix_len(s) == s.len()
}

/// `p` occurs in `s` starting exactly at position `i`.
pub open spec fn starts_with_at(s: Seq<char>, p: Seq<char>, i: int) -> bool {
    0 <= i && i + p.len() <= s.len() && s.subrange(i, i + p.len()) == p
}

/// `ws_prefix_len` is the first position holding a non-whitespace character
/// (or the length of `s` when there is none), and everything before it is
/// whitespace.
pub proof fn lemma_ws_prefix_len(s: Seq<char>)
    ensures
        ws_prefix_len(s) <= s.len(),
        forall|j: int| 0 <= j < ws_prefix_len(s) ==> is_space_char(#[trigger] s[j]),
        ws_prefix_len(s) < s.len() ==> !is_space_char(s[ws_prefix_len(s) as int]),
    decreases s.len(),
{
    if s.len() == 0 || !is_space_char(s[0]) {
    } else {
        lemma_ws_prefix_len(s.skip(1));
        assert forall|j: int| 0 <= j < ws_prefix_len(s) implies is_space_char(#[trigger] s[j]) by {
            if j > 0 {
                assert(s.skip(1)[j - 1] == s[j]);
            }
        }
        if ws_prefix_len(s) < s.len() {
            assert(s.skip(1)[ws_prefix_len(s) - 1] == s[ws_prefix_len(s) as int]);
        }
    }
}

/// Any position bounded by whitespace on its left and either at the end of
/// `s` or at a non-whitespace character is exactly `ws_prefix_len(s)`.
pub proof fn lemma_ws_prefix_len_unique(s: Seq<char>, n: int)
    requires
        0 <= n <= s.len(),
        forall|j: int| 0 <= j < n ==> is_space_char(#[trigger] s[j]),
        n < s.len() ==> !is_space_char(s[n]),
    ensures
        n == ws_prefix_len(s),
{
    lemma_ws_prefix_len(s);
}

/// The character sequences of a sequence of owned lines.
pub open spec fn lines_view(ls: Seq<String>) -> Seq<Seq<char>> {
    ls.map_values(|l: String| l@)
}

/// Whether `c` counts as whitespace for the transforms.
pub fn is_space(c: char) -> (r: bool)
    ensures
        r == is_space_char(c),
{
    c == ' ' || c == '\t' || c == '\r' || c == '\n' || c == '\x0b' || c == '\x0c'
}

/// Length of the leading whitespace run of `s`.
pub fn ws_run(s: &str) -> (n: usize)
    ensures
        n == ws_prefix_len(s@),
{
    let len = s.unicode_len();
    let mut i: usize = 0;
    while i < len && is_space(s.get_char(i))
        invariant
            0 <= i <= len,
            len == s@.len(),
            forall|j: int| 0 <= j < i ==> is_space_char(#[trigger] s@[j]),
        decreases len - i,
    {
        i = i + 1;
    }
    proof {
        lemma_ws_prefix_len_unique(s@, i as int);
    }
    i
}

/// Whether `s` is blank, that is, all whitespace.
pub fn blank(s: &str) -> (r: bool)
    ensures
        r == is_blank(s@),
{
    let n = ws_run(s);
    n == s.unicode_len()
}

/// Whether `p` occurs in `s` starting exactly at position `i`.
pub fn starts_at(s: &str, p: &str, i: usize) -> (r: bool)
    ensures
        r == starts_with_at(s@, p@, i as int),
{
    let slen = s.unicode_len();
    let plen = p.unicode_len();
    if slen < i || slen - i < plen {
        return false;
    }
    let mut j: usize = 0;
    while j < plen
        invariant
            0 <= j <= plen,
            plen == p@.len(),
            slen == s@.len(),
            i + plen <= slen,
            forall|k: int| 0 <= k < j ==> s@[i + k] == #[trigger] p@[k],
        decreases plen - j,
    {
        if s.get_char(i + j) != p.get_char(j) {
            assert(s@.subrange(i as int, i + p@.len())[j as int] != p@[j as int]);
            return false;
        }
        j = j + 1;
    }
    assert(s@.subrange(i as int, i + p@.len()) =~= p@);
    true
}

} // verus!
