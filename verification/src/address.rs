//! The address engine: ed/sed-style address components and expressions, the
//! match state carried across lines, and the per-line evaluation step.
//!
//! The mathematical model lives in `CompSpec`, `AddrSpec` and `PatSpec`: an
//! address component is a line number, a regex pattern text, or a relative
//! offset, and the per-line step function `pattern_step` says exactly how one
//! line is judged and how the carried `MatchState` changes. The executable
//! types mirror the model and are proved to follow it step for step.

use vstd::prelude::*;

use crate::regex_text::{re_is_match, re_pattern, regex_is_match};

verus! {

/// A single matchable unit: an absolute line number, a compiled regular
/// expression, or a relative offset counted from a range's start.
pub enum AddressComponent {
    Line(usize),
    RegexPattern(regex::Regex),
    Relative(usize),
}

/// Zero, one or two components: match every line, match one condition, or
/// match a start/end range.
pub enum Address {
    ZeroAddress,
    OneAddress(AddressComponent),
    AddressRange(AddressComponent, AddressComponent),
}

/// An address expression with its negation flag.
pub struct AddressPattern {
    pub pattern: Address,
    pub negated: bool,
}

/// The state a range expression carries from line to line: where it last
/// opened and where it last closed. The state is the only carrier of
/// open/closed status between line evaluations.
#[derive(Clone, Copy, Debug, PartialEq, Eq, Structural)]
pub struct MatchState {
    pub left_match: Option<usize>,
    pub right_match: Option<usize>,
}

/// Model of one address component: the line number, the regex pattern text,
/// or the offset count.
pub enum CompSpec {
    Num(usize),
    Pat(Seq<char>),
    Off(usize),
}

/// Model of an address expression.
pub enum AddrSpec {
    Empty,
    Single(CompSpec),
    Span(CompSpec, CompSpec),
}

/// Model of an address expression together with its negation flag.
pub struct PatSpec {
    pub addr: AddrSpec,
    pub negated: bool,
}

impl AddressComponent {
    /// The component's model; a compiled regex is modelled by its pattern
    /// text.
    pub open spec fn model(&self) -> CompSpec {
        match *self {
            AddressComponent::Line(n) => CompSpec::Num(n),
            AddressComponent::RegexPattern(re) => CompSpec::Pat(re_pattern(re)),
            AddressComponent::Relative(n) => CompSpec::Off(n),
        }
    }
}

impl Address {
    /// The expression's model.
    pub open spec fn model(&self) -> AddrSpec {
        match *self {
            Address::ZeroAddress => AddrSpec::Empty,
            Address::OneAddress(c) => AddrSpec::Single(c.model()),
            Address::AddressRange(a, b) => AddrSpec::Span(a.model(), b.model()),
        }
    }
}

impl AddrSpec {
    /// A relative offset is meaningless as a sole address or as the start of
    /// a range; parsing rejects both, and evaluation requires their absence.
    pub open spec fn wf(self) -> bool {
        match self {
            AddrSpec::Empty => true,
            AddrSpec::Single(c) => !(c is Off),
            AddrSpec::Span(a, _) => !(a is Off),
        }
    }
}

impl AddressPattern {
    /// The pattern's model.
    pub open spec fn model(&self) -> PatSpec {
        PatSpec { addr: self.pattern.model(), negated: self.negated }
    }
}

impl MatchState {
    /// The state before any line has been seen: no open range, no close.
    pub open spec fn spec_empty() -> MatchState {
        MatchState { left_match: None, right_match: None }
    }

    /// A fresh state: the range is closed and nothing has been recorded.
    pub fn empty() -> (r: MatchState)
        ensures
            r == MatchState::spec_empty(),
    {
        MatchState { left_match: None, right_match: None }
    }

    /// A copy of the state.
    pub fn unchanged(&self) -> (r: Self)
        ensures
            r == *self,
    {
        MatchState { left_match: self.left_match, right_match: self.right_match }
    }

    /// The state with a range opening recorded at `idx`.
    pub fn match_left(&self, idx: usize) -> (r: Self)
        ensures
            r == (MatchState { left_match: Some(idx), right_match: self.right_match }),
    {
        MatchState { left_match: Some(idx), right_match: self.right_match }
    }

    /// The state with a range close recorded at `idx`.
    pub fn match_right(&self, idx: usize) -> (r: Self)
        ensures
            r == (MatchState { left_match: self.left_match, right_match: Some(idx) }),
    {
        MatchState { left_match: self.left_match, right_match: Some(idx) }
    }

    /// Overwrite the state with `other`.
    pub fn update(&mut self, other: MatchState)
        ensures
            *final(self) == other,
    {
        self.left_match = other.left_match;
        self.right_match = other.right_match;
    }
}

/// Whether a single component matches one line: a line number matches its
/// own line, a regex matches where its pattern matches the text, and an
/// offset alone matches nothing.
pub open spec fn spec_comp_matches(c: CompSpec, ln: usize, line: Seq<char>) -> bool {
    match c {
        CompSpec::Num(n) => n == ln,
        CompSpec::Pat(p) => re_is_match(p, line),
        CompSpec::Off(_) => false,
    }
}

/// One evaluation step of a two-component range against line `ln` with text
/// `line`, carrying state `st`: returns whether the line is selected and the
/// state for the next line.
pub open spec fn span_step(
    a: CompSpec,
    b: CompSpec,
    ln: usize,
    line: Seq<char>,
    st: MatchState,
) -> (bool, MatchState) {
    match (a, b) {
        // M,N: pure line-number window, stateless.
        (CompSpec::Num(s), CompSpec::Num(e)) => (s <= ln <= e, st),
        // M,/re/: open from line M on; the first line strictly after M that
        // matches re closes the range and is itself selected. Start 0 lets
        // the close fall on line 1.
        (CompSpec::Num(s), CompSpec::Pat(e)) => if st.right_match is None && re_is_match(e, line)
            && ln > s {
            (true, MatchState { left_match: None, right_match: Some(ln) })
        } else if st.right_match is None && ln >= s {
            (true, st)
        } else {
            (false, st)
        },
        // M,+C: the window of C+1 lines starting at M, stateless.
        (CompSpec::Num(s), CompSpec::Off(c)) => (s <= ln <= s + c, st),
        // /re/,N: open where re matches; while opened, lines through N are
        // selected; a fresh match of re reopens even past N.
        (CompSpec::Pat(s), CompSpec::Num(e)) => (
            re_is_match(s, line) || (st.left_match is Some && ln <= e),
            if re_is_match(s, line) {
                MatchState { left_match: Some(ln), right_match: st.right_match }
            } else {
                st
            },
        ),
        // /re1/,/re2/: sticky open/closed state; re1 reopens and discards a
        // pending close, re2 closes; a line matching both counts as opened.
        (CompSpec::Pat(s), CompSpec::Pat(e)) => (
            re_is_match(s, line) || (st.left_match is Some && st.right_match is None),
            if re_is_match(s, line) {
                MatchState { left_match: Some(ln), right_match: None }
            } else if re_is_match(e, line) {
                MatchState { left_match: st.left_match, right_match: Some(ln) }
            } else {
                st
            },
        ),
        // /re/,+C: open where re matches, run C more lines; the line after
        // the window resets the state and may itself reopen a new range.
        (CompSpec::Pat(s), CompSpec::Off(c)) => match st.left_match {
            Some(last) => if ln > last + c {
                if re_is_match(s, line) {
                    (true, MatchState { left_match: Some(ln), right_match: None })
                } else {
                    (false, MatchState { left_match: None, right_match: None })
                }
            } else {
                (true, st)
            },
            None => if re_is_match(s, line) {
                (true, MatchState { left_match: Some(ln), right_match: None })
            } else {
                (false, st)
            },
        },
        // An offset in start position is rejected at parse time.
        _ => (false, st),
    }
}

/// One evaluation step of a whole address expression, before negation.
pub open spec fn addr_step(a: AddrSpec, ln: usize, line: Seq<char>, st: MatchState) -> (
    bool,
    MatchState,
) {
    match a {
        AddrSpec::Empty => (true, st),
        AddrSpec::Single(c) => (spec_comp_matches(c, ln, line), st),
        AddrSpec::Span(x, y) => span_step(x, y, ln, line, st),
    }
}

/// One evaluation step of an address pattern: negation flips the visible
/// selection but never the carried state.
pub open spec fn pattern_step(m: PatSpec, ln: usize, line: Seq<char>, st: MatchState) -> (
    bool,
    MatchState,
) {
    let (b, st2) = addr_step(m.addr, ln, line, st);
    (if m.negated {
        !b
    } else {
        b
    }, st2)
}

impl AddressComponent {
    /// Whether this component matches the given line.
    pub fn matches(&self, line_number: usize, line: &str) -> (r: bool)
        requires
            !(self.model() is Off),
        ensures
            r == spec_comp_matches(self.model(), line_number, line@),
    {
        match self {
            AddressComponent::Line(n) => *n == line_number,
            AddressComponent::RegexPattern(re) => regex_is_match(re, line),
            AddressComponent::Relative(_) => false,
        }
    }
}

impl AddressPattern {
    /// A single-component pattern, not negated.
    pub fn new_single(addr: AddressComponent) -> (r: AddressPattern)
        ensures
            r.pattern == Address::OneAddress(addr),
            !r.negated,
    {
        AddressPattern { pattern: Address::OneAddress(addr), negated: false }
    }

    /// A range pattern, not negated.
    pub fn new_range(start: AddressComponent, end: AddressComponent) -> (r: AddressPattern)
        ensures
            r.pattern == Address::AddressRange(start, end),
            !r.negated,
    {
        AddressPattern { pattern: Address::AddressRange(start, end), negated: false }
    }

    /// The same pattern with its negation flag flipped.
    pub fn invert(self) -> (r: AddressPattern)
        ensures
            r.pattern == self.pattern,
            r.negated == !self.negated,
    {
        AddressPattern { pattern: self.pattern, negated: !self.negated }
    }

    /// Whether the pattern is a two-component range.
    pub fn is_range(&self) -> (r: bool)
        ensures
            r == (self.model().addr is Span),
    {
        match &self.pattern {
            Address::AddressRange(_, _) => true,
            _ => false,
        }
    }

    /// Evaluate the pattern against one line, threading the match state:
    /// exactly the model's `pattern_step`.
    pub fn matches(&self, line_number: usize, line: &str, state: &MatchState) -> (r: (
        bool,
        MatchState,
    ))
        requires
            self.model().addr.wf(),
        ensures
            r == pattern_step(self.model(), line_number, line@, *state),
    {
        let (is_match, new_state) = match &self.pattern {
            Address::ZeroAddress => (true, state.unchanged()),
            Address::OneAddress(addr) => (addr.matches(line_number, line), state.unchanged()),
            Address::AddressRange(_, _) => self.match_range(line_number, line, state),
        };
        if self.negated {
            (!is_match, new_state)
        } else {
            (is_match, new_state)
        }
    }

    /// Evaluate a range pattern against one line, before negation: exactly
    /// the model's `span_step`.
    pub fn match_range(&self, line_number: usize, line: &str, state: &MatchState) -> (r: (
        bool,
        MatchState,
    ))
        requires
            self.model().addr is Span,
            self.model().addr.wf(),
        ensures
            ({
                let span = self.model().addr;
                r == span_step(span->Span_0, span->Span_1, line_number, line@, *state)
            }),
    {
        match &self.pattern {
            Address::AddressRange(a, b) => match (a, b) {
                (AddressComponent::Line(s), AddressComponent::Line(e)) => (
                    *s <= line_number && line_number <= *e,
                    state.unchanged(),
                ),
                (AddressComponent::Line(s), AddressComponent::RegexPattern(e)) => {
                    if state.right_match.is_none() && regex_is_match(e, line) && line_number
                        > *s {
                        (true, MatchState { left_match: None, right_match: Some(line_number) })
                    } else if state.right_match.is_none() && line_number >= *s {
                        (true, state.unchanged())
                    } else {
                        (false, state.unchanged())
                    }
                },
                (AddressComponent::Line(s), AddressComponent::Relative(c)) => (
                    *s <= line_number && line_number - *s <= *c,
                    state.unchanged(),
                ),
                (AddressComponent::RegexPattern(s), AddressComponent::Line(e)) => {
                    let m = regex_is_match(s, line);
                    let new_state = if m {
                        state.match_left(line_number)
                    } else {
                        state.unchanged()
                    };
                    (m || (state.left_match.is_some() && line_number <= *e), new_state)
                },
                (AddressComponent::RegexPattern(sp), AddressComponent::RegexPattern(ep)) => {
                    let sm = regex_is_match(sp, line);
                    let em = regex_is_match(ep, line);
                    let matched = sm || (state.left_match.is_some()
                        && state.right_match.is_none());
                    let new_state = if sm {
                        MatchState { left_match: Some(line_number), right_match: None }
                    } else if em {
                        state.match_right(line_number)
                    } else {
                        state.unchanged()
                    };
                    (matched, new_state)
                },
                (AddressComponent::RegexPattern(sp), AddressComponent::Relative(c)) => {
                    match state.left_match {
                        Some(last) => {
                            if last < line_number && line_number - last > *c {
                                if regex_is_match(sp, line) {
                                    (
                                        true,
                                        MatchState {
                                            left_match: Some(line_number),
                                            right_match: None,
                                        },
                                    )
                                } else {
                                    (false, MatchState { left_match: None, right_match: None })
                                }
                            } else {
                                (true, state.unchanged())
                            }
                        },
                        None => {
                            if regex_is_match(sp, line) {
                                (
                                    true,
                                    MatchState { left_match: Some(line_number), right_match: None },
                                )
                            } else {
                                (false, state.unchanged())
                            }
                        },
                    }
                },
                _ => (false, state.unchanged()),
            },
            _ => (false, state.unchanged()),
        }
    }
}

/// A numeric range `M,N` selects line `k` exactly when `M <= k <= N`, and
/// never changes the carried state.
pub proof fn lemma_num_range_selection(m: usize, n: usize, k: usize, line: Seq<char>, st: MatchState)
    requires
        m <= n,
    ensures
        span_step(CompSpec::Num(m), CompSpec::Num(n), k, line, st).0 <==> m <= k <= n,
        span_step(CompSpec::Num(m), CompSpec::Num(n), k, line, st).1 == st,
{
}

/// A counted range `M,+C` selects line `k` exactly when `M <= k <= M + C`,
/// and never changes the carried state.
pub proof fn lemma_counted_range_selection(
    m: usize,
    c: usize,
    k: usize,
    line: Seq<char>,
    st: MatchState,
)
    ensures
        span_step(CompSpec::Num(m), CompSpec::Off(c), k, line, st).0 <==> m <= k <= m + c,
        span_step(CompSpec::Num(m), CompSpec::Off(c), k, line, st).1 == st,
{
}

/// Negation is a per-line complement: `A!` selects exactly the lines `A`
/// does not, and the carried match state after each line is identical under
/// `A` and `A!`.
pub proof fn lemma_negation_complement(m: PatSpec, ln: usize, line: Seq<char>, st: MatchState)
    ensures
        pattern_step(PatSpec { addr: m.addr, negated: !m.negated }, ln, line, st).0
            == !pattern_step(m, ln, line, st).0,
        pattern_step(PatSpec { addr: m.addr, negated: !m.negated }, ln, line, st).1
            == pattern_step(m, ln, line, st).1,
{
}

/// Restart: whatever state a double-regex range is in, a line matching the
/// start pattern is selected and leaves behind a freshly opened range with
/// no pending close — a later `re1` match after a close begins a new,
/// independent range.
pub proof fn lemma_double_regex_restart(
    sp: Seq<char>,
    ep: Seq<char>,
    ln: usize,
    line: Seq<char>,
    st: MatchState,
)
    requires
        re_is_match(sp, line),
    ensures
        span_step(CompSpec::Pat(sp), CompSpec::Pat(ep), ln, line, st) == (
            true,
            MatchState { left_match: Some(ln), right_match: None::<usize> },
        ),
{
}

/// While a double-regex range is open, a line matching neither pattern is
/// selected and keeps the range open, and a line matching only the end
/// pattern is selected and closes it.
pub proof fn lemma_double_regex_open(
    sp: Seq<char>,
    ep: Seq<char>,
    ln: usize,
    line: Seq<char>,
    st: MatchState,
)
    requires
        st.left_match is Some,
        st.right_match is None,
        !re_is_match(sp, line),
    ensures
        span_step(CompSpec::Pat(sp), CompSpec::Pat(ep), ln, line, st).0,
        !re_is_match(ep, line) ==> span_step(CompSpec::Pat(sp), CompSpec::Pat(ep), ln, line, st).1
            == st,
        re_is_match(ep, line) ==> span_step(CompSpec::Pat(sp), CompSpec::Pat(ep), ln, line, st).1
            == (MatchState { left_match: st.left_match, right_match: Some(ln) }),
{
}

/// GNU `0,/re/` against `1,/re/`, when line 1 matches `re`: `0,/re/` selects
/// line 1 and closes at once, and once closed selects nothing further, so it
/// selects exactly line 1. `1,/re/` also selects line 1 but cannot close on
/// it; while its state stays fresh, every line is selected, and the state
/// first records a close on a line after line 1 that matches `re` — if no
/// such line comes, the range stays open through end of input.
pub proof fn lemma_zero_vs_one_regex_range(
    re: Seq<char>,
    l1: Seq<char>,
    ln: usize,
    l: Seq<char>,
    closed: MatchState,
)
    requires
        re_is_match(re, l1),
        closed.right_match is Some,
        ln >= 1,
    ensures
        span_step(CompSpec::Num(0), CompSpec::Pat(re), 1, l1, MatchState::spec_empty()) == (
            true,
            MatchState { left_match: None::<usize>, right_match: Some(1usize) },
        ),
        !span_step(CompSpec::Num(0), CompSpec::Pat(re), ln, l, closed).0,
        span_step(CompSpec::Num(1), CompSpec::Pat(re), 1, l1, MatchState::spec_empty()) == (
            true,
            MatchState::spec_empty(),
        ),
        ({
            let r = span_step(CompSpec::Num(1), CompSpec::Pat(re), ln, l, MatchState::spec_empty());
            r.0 && (r.1.right_match is Some <==> re_is_match(re, l) && ln > 1)
        }),
{
}

} // verus!
