//! The line and block transforms: add a comment prefix to a line, strip it,
//! or toggle it, and apply one operator uniformly to a contiguous block.
//!
//! A line is "prefixed" when the comment prefix occurs immediately after the
//! line's leading whitespace. Stripping keeps the leading whitespace and the
//! remainder of the line.

use vstd::prelude::*;

use crate::chars::{
    blank, is_blank, is_space_char, lines_view, starts_at, starts_with_at, ws_prefix_len, ws_run,
    lemma_ws_prefix_len,
};

verus! {

/// How selected lines are rewritten: toggle between commented and
/// uncommented, force towards commented, or force towards uncommented.
#[derive(Clone, Copy, Debug, PartialEq, Eq, Structural)]
pub enum CommentingMode {
    Toggle,
    Comment,
    Uncomment,
}

/// The greatest position `k <= i` at which `p` occurs in `s`, if any.
pub open spec fn prefix_split_from(p: Seq<char>, s: Seq<char>, i: int) -> Option<int>
    decreases i + 1,
{
    if i < 0 {
        None
    } else if starts_with_at(s, p, i) {
        Some(i)
    } else {
        prefix_split_from(p, s, i - 1)
    }
}

/// Where the comment prefix sits in `s`: the greatest occurrence of `p` that
/// is preceded by whitespace only.
pub open spec fn comment_split(p: Seq<char>, s: Seq<char>) -> Option<int> {
    prefix_split_from(p, s, ws_prefix_len(s) as int)
}

/// A line is prefixed when the prefix occurs right after its leading
/// whitespace.
pub open spec fn is_prefixed(p: Seq<char>, s: Seq<char>) -> bool {
    comment_split(p, s) is Some
}

/// Unconditionally prepend the prefix.
pub open spec fn spec_force_comment(p: Seq<char>, l: Seq<char>) -> Seq<char> {
    p + l
}

/// Prepend the prefix unless the line already carries it.
pub open spec fn spec_comment(p: Seq<char>, l: Seq<char>) -> Seq<char> {
    if is_prefixed(p, l) {
        l
    } else {
        p + l
    }
}

/// Strip the prefix where it sits after the leading whitespace, keeping that
/// whitespace and the remainder; an unprefixed line is left unchanged.
pub open spec fn spec_uncomment(p: Seq<char>, l: Seq<char>) -> Seq<char> {
    match comment_split(p, l) {
        Some(i) => l.take(i) + l.skip(i + p.len()),
        None => l,
    }
}

/// Strip the prefix from a prefixed line, add it to an unprefixed one.
pub open spec fn spec_toggle(p: Seq<char>, l: Seq<char>) -> Seq<char> {
    if is_prefixed(p, l) {
        spec_uncomment(p, l)
    } else {
        p + l
    }
}

/// What `prefix_split_from` finds: the greatest occurrence of `p` at or
/// below `i`, or a proof that there is none.
pub proof fn lemma_prefix_split_from(p: Seq<char>, s: Seq<char>, i: int)
    ensures
        match prefix_split_from(p, s, i) {
            Some(k) => 0 <= k <= i && starts_with_at(s, p, k) && forall|j: int|
                k < j <= i ==> !starts_with_at(s, p, j),
            None => forall|j: int| 0 <= j <= i ==> !starts_with_at(s, p, j),
        },
    decreases i + 1,
{
    if i < 0 {
    } else if starts_with_at(s, p, i) {
    } else {
        lemma_prefix_split_from(p, s, i - 1);
    }
}

/// A line that begins with the prefix itself is prefixed, and its comment
/// split is position zero whenever the prefix is non-empty and does not
/// begin with whitespace.
pub proof fn lemma_prepended_is_prefixed(p: Seq<char>, l: Seq<char>)
    ensures
        is_prefixed(p, p + l),
        p.len() > 0 && !is_space_char(p[0]) ==> comment_split(p, p + l) == Some(0int),
{
    let s = p + l;
    assert(s.subrange(0, p.len() as int) =~= p);
    assert(starts_with_at(s, p, 0));
    lemma_prefix_split_from(p, s, ws_prefix_len(s) as int);
    if p.len() > 0 && !is_space_char(p[0]) {
        assert(ws_prefix_len(s) == 0);
    }
}

/// Stripping the prefix back off a freshly prefixed line restores the line,
/// for a prefix that does not begin with whitespace.
pub proof fn lemma_uncomment_of_prepended(p: Seq<char>, l: Seq<char>)
    requires
        p.len() > 0,
        !is_space_char(p[0]),
    ensures
        spec_uncomment(p, p + l) == l,
{
    lemma_prepended_is_prefixed(p, l);
    let s = p + l;
    assert(s.take(0) + s.skip(p.len() as int) =~= l);
}

/// Commenting is idempotent: a second application changes nothing, because
/// the first leaves the line prefixed.
pub proof fn lemma_comment_idempotent(p: Seq<char>, l: Seq<char>)
    ensures
        spec_comment(p, spec_comment(p, l)) == spec_comment(p, l),
{
    if !is_prefixed(p, l) {
        lemma_prepended_is_prefixed(p, l);
    }
}

/// Uncommenting is idempotent on lines that carry at most one copy of the
/// prefix: once the strip leaves an unprefixed line, stripping again changes
/// nothing. (A doubly commented line loses one prefix per pass instead.)
pub proof fn lemma_uncomment_idempotent(p: Seq<char>, l: Seq<char>)
    requires
        !is_prefixed(p, spec_uncomment(p, l)),
    ensures
        spec_uncomment(p, spec_uncomment(p, l)) == spec_uncomment(p, l),
{
}

/// Where the comment prefix sits in `line`, if anywhere: the exec
/// counterpart of `comment_split`.
pub fn comment_split_of(prefix: &str, line: &str) -> (r: Option<usize>)
    ensures
        match r {
            Some(i) => comment_split(prefix@, line@) == Some(i as int),
            None => comment_split(prefix@, line@) is None,
        },
{
    let w = ws_run(line);
    let mut i = w;
    loop
        invariant
            0 <= i <= w,
            w == ws_prefix_len(line@),
            comment_split(prefix@, line@) == prefix_split_from(prefix@, line@, i as int),
        decreases i,
    {
        if starts_at(line, prefix, i) {
            return Some(i);
        }
        if i == 0 {
            return None;
        }
        i = i - 1;
    }
}

/// Prepend the prefix unconditionally; block mode uses this to comment a
/// block without checking each line for an existing prefix.
pub fn force_comment_line(prefix: &str, line: &str) -> (r: String)
    ensures
        r@ == spec_force_comment(prefix@, line@),
{
    let mut r = String::from_str(prefix);
    r.append(line);
    r
}

/// Prepend the prefix unless the line already carries it.
pub fn comment_line(prefix: &str, line: &str) -> (r: String)
    ensures
        r@ == spec_comment(prefix@, line@),
{
    match comment_split_of(prefix, line) {
        Some(_) => String::from_str(line),
        None => force_comment_line(prefix, line),
    }
}

/// Strip the prefix where it sits after the leading whitespace, keeping the
/// whitespace and the remainder; leave an unprefixed line unchanged.
pub fn uncomment_line(prefix: &str, line: &str) -> (r: String)
    ensures
        r@ == spec_uncomment(prefix@, line@),
{
    match comment_split_of(prefix, line) {
        Some(i) => {
            proof {
                lemma_prefix_split_from(prefix@, line@, ws_prefix_len(line@) as int);
            }
            let len = line.unicode_len();
            let plen = prefix.unicode_len();
            let head = line.substring_char(0, i);
            let tail = line.substring_char(i + plen, len);
            let r = String::from_str(head).concat(tail);
            proof {
                assert(line@.take(i as int) + line@.skip(i + prefix@.len()) =~= r@);
            }
            r
        },
        None => String::from_str(line),
    }
}

/// Uncomment a prefixed line, comment an unprefixed one.
pub fn toggle_line(prefix: &str, line: &str) -> (r: String)
    ensures
        r@ == spec_toggle(prefix@, line@),
{
    match comment_split_of(prefix, line) {
        Some(_) => uncomment_line(prefix, line),
        None => force_comment_line(prefix, line),
    }
}

/// A block is commented as a whole exactly when some non-blank line of it is
/// not yet prefixed.
pub open spec fn spec_will_comment(p: Seq<char>, lv: Seq<Seq<char>>) -> bool {
    exists|i: int| 0 <= i < lv.len() && !is_blank(#[trigger] lv[i]) && !is_prefixed(p, lv[i])
}

/// Decide the toggle direction for a whole block: comment it if any
/// non-blank line is still unprefixed, uncomment it otherwise.
pub fn will_comment(prefix: &str, lines: &Vec<String>) -> (r: bool)
    ensures
        r == spec_will_comment(prefix@, lines_view(lines@)),
{
    let n = lines.len();
    let mut i: usize = 0;
    while i < n
        invariant
            0 <= i <= n,
            n == lines@.len(),
            forall|j: int| 0 <= j < i ==> is_blank(#[trigger] lines_view(lines@)[j])
                || is_prefixed(prefix@, lines_view(lines@)[j]),
        decreases n - i,
    {
        let line = &lines[i];
        if !blank(line.as_str()) {
            if comment_split_of(prefix, line.as_str()).is_none() {
                assert(!is_prefixed(prefix@, lines_view(lines@)[i as int]));
                return true;
            }
        }
        i = i + 1;
    }
    false
}

/// How one line of a block is rewritten, given the block-level toggle
/// decision `will`: blank lines pass through; otherwise the mode's operator
/// applies, with toggle resolved to force-comment or uncomment for the whole
/// block at once.
pub open spec fn spec_block_line(
    mode: CommentingMode,
    will: bool,
    p: Seq<char>,
    l: Seq<char>,
) -> Seq<char> {
    if is_blank(l) {
        l
    } else {
        match mode {
            CommentingMode::Comment => spec_comment(p, l),
            CommentingMode::Uncomment => spec_uncomment(p, l),
            CommentingMode::Toggle => if will {
                spec_force_comment(p, l)
            } else {
                spec_uncomment(p, l)
            },
        }
    }
}

/// The block transform: one operator, chosen once from the mode and the
/// block's own state, applied to every non-blank line.
pub open spec fn spec_comment_block(
    mode: CommentingMode,
    p: Seq<char>,
    lv: Seq<Seq<char>>,
) -> Seq<Seq<char>> {
    lv.map_values(|l: Seq<char>| spec_block_line(mode, spec_will_comment(p, lv), p, l))
}

/// The block transform in toggle mode.
pub open spec fn spec_toggle_block(p: Seq<char>, lv: Seq<Seq<char>>) -> Seq<Seq<char>> {
    spec_comment_block(CommentingMode::Toggle, p, lv)
}

/// Rewrite a contiguous block of lines with one operator: blank lines pass
/// through unchanged whatever the mode; toggle decides once for the whole
/// block, commenting it if any non-blank line is unprefixed and uncommenting
/// it otherwise.
pub fn comment_block(mode: &CommentingMode, prefix: &str, lines: &Vec<String>) -> (out: Vec<
    String,
>)
    ensures
        lines_view(out@) == spec_comment_block(*mode, prefix@, lines_view(lines@)),
        out@.len() == lines@.len(),
        forall|i: int| 0 <= i < lines@.len() && is_blank(#[trigger] lines@[i]@) ==> out@[i]@
            == lines@[i]@,
{
    let will = will_comment(prefix, lines);
    let ghost lv = lines_view(lines@);
    let n = lines.len();
    let mut out: Vec<String> = Vec::new();
    let mut i: usize = 0;
    while i < n
        invariant
            0 <= i <= n,
            n == lines@.len(),
            will == spec_will_comment(prefix@, lv),
            lv == lines_view(lines@),
            out@.len() == i,
            forall|j: int| 0 <= j < i ==> #[trigger] out@[j]@ == spec_block_line(
                *mode,
                will,
                prefix@,
                lv[j],
            ),
        decreases n - i,
    {
        let line = &lines[i];
        if blank(line.as_str()) {
            out.push(line.clone());
        } else {
            let rewritten = match mode {
                CommentingMode::Comment => comment_line(prefix, line.as_str()),
                CommentingMode::Uncomment => uncomment_line(prefix, line.as_str()),
                CommentingMode::Toggle => if will {
                    force_comment_line(prefix, line.as_str())
                } else {
                    uncomment_line(prefix, line.as_str())
                },
            };
            out.push(rewritten);
        }
        i = i + 1;
    }
    proof {
        assert(lines_view(out@) =~~= spec_comment_block(*mode, prefix@, lines_view(lines@)));
    }
    out
}

/// Toggle a whole block at once: comment every non-blank line if any of them
/// is unprefixed, uncomment all of them otherwise; blank lines pass through.
pub fn toggle_block(prefix: &str, lines: &Vec<String>) -> (out: Vec<String>)
    ensures
        lines_view(out@) == spec_toggle_block(prefix@, lines_view(lines@)),
        out@.len() == lines@.len(),
        forall|i: int| 0 <= i < lines@.len() && is_blank(#[trigger] lines@[i]@) ==> out@[i]@
            == lines@[i]@,
{
    comment_block(&CommentingMode::Toggle, prefix, lines)
}

/// A line is blank exactly when every character of it is whitespace.
pub proof fn lemma_blank_chars(s: Seq<char>)
    ensures
        is_blank(s) <==> forall|j: int| 0 <= j < s.len() ==> is_space_char(#[trigger] s[j]),
{
    lemma_ws_prefix_len(s);
    if forall|j: int| 0 <= j < s.len() ==> is_space_char(#[trigger] s[j]) {
        if ws_prefix_len(s) < s.len() {
            assert(is_space_char(s[ws_prefix_len(s) as int]));
        }
    }
}

/// Toggling a block twice restores it, for a block that is uniformly
/// uncommented (no non-blank line already carries the prefix) and a prefix
/// that does not begin with whitespace: the first pass comments every
/// non-blank line, the second finds them all prefixed and strips exactly
/// what the first added.
pub proof fn lemma_toggle_block_round_trip(p: Seq<char>, lv: Seq<Seq<char>>)
    requires
        p.len() > 0 ==> !is_space_char(p[0]),
        forall|i: int| 0 <= i < lv.len() && !is_blank(#[trigger] lv[i]) ==> !is_prefixed(p, lv[i]),
    ensures
        spec_toggle_block(p, spec_toggle_block(p, lv)) == lv,
{
    let mid = spec_toggle_block(p, lv);
    let will1 = spec_will_comment(p, lv);
    if will1 {
        let w = choose|i: int| 0 <= i < lv.len() && !is_blank(#[trigger] lv[i]) && !is_prefixed(
            p,
            lv[i],
        );
        if p.len() == 0 {
            lemma_prepended_is_prefixed(p, lv[w]);
            assert(p + lv[w] =~= lv[w]);
        }
        assert(p.len() > 0);
        assert forall|i: int| 0 <= i < lv.len() implies {
            &&& #[trigger] mid[i] == (if is_blank(lv[i]) { lv[i] } else { p + lv[i] })
            &&& is_blank(mid[i]) == is_blank(lv[i])
            &&& !is_blank(lv[i]) ==> is_prefixed(p, mid[i]) && spec_uncomment(p, mid[i]) == lv[i]
        } by {
            if !is_blank(lv[i]) {
                lemma_blank_chars(lv[i]);
                lemma_blank_chars(p + lv[i]);
                let c = choose|j: int| 0 <= j < lv[i].len() && !is_space_char(lv[i][j]);
                assert((p + lv[i])[p.len() + c] == lv[i][c]);
                assert(!is_blank(p + lv[i]));
                lemma_prepended_is_prefixed(p, lv[i]);
                lemma_uncomment_of_prepended(p, lv[i]);
            }
        }
        assert(!spec_will_comment(p, mid));
        assert(spec_toggle_block(p, mid) =~~= lv);
    } else {
        assert forall|i: int| 0 <= i < lv.len() implies #[trigger] mid[i] == lv[i] by {
            if !is_blank(lv[i]) {
                assert(!is_prefixed(p, lv[i]));
            }
        }
        assert(mid =~~= lv);
        assert(!spec_will_comment(p, mid));
        assert(spec_toggle_block(p, mid) =~~= lv);
    }
}

} // verus!
