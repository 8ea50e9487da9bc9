//! The line selector: drive an address pattern over a stream of lines,
//! threading the match state forward, and apply the transforms — per line,
//! or per contiguous run of same-flag lines in block mode.

use vstd::prelude::*;

use crate::address::{pattern_step, AddressPattern, MatchState, PatSpec};
use crate::chars::{is_blank, lines_view};
use crate::transform::{
    comment_block, comment_line, spec_block_line, spec_comment, spec_comment_block, spec_toggle,
    spec_uncomment, spec_will_comment, toggle_line, uncomment_line, CommentingMode,
};

verus! {

/// The state the scan carries into line index `i` (0-based; line numbers are
/// 1-based), starting from `st0`.
pub open spec fn scan_state(m: PatSpec, lv: Seq<Seq<char>>, st0: MatchState, i: int) -> MatchState
    decreases i,
{
    if i <= 0 {
        st0
    } else {
        pattern_step(m, i as usize, lv[i - 1], scan_state(m, lv, st0, i - 1)).1
    }
}

/// Whether the scan selects the line at index `i` (0-based).
pub open spec fn line_selected(m: PatSpec, lv: Seq<Seq<char>>, st0: MatchState, i: int) -> bool {
    pattern_step(m, (i + 1) as usize, lv[i], scan_state(m, lv, st0, i)).0
}

/// The selection flag of every line of the stream, in order.
pub open spec fn scan_flags(m: PatSpec, lv: Seq<Seq<char>>, st0: MatchState) -> Seq<bool> {
    Seq::new(lv.len(), |i: int| line_selected(m, lv, st0, i))
}

/// The per-line operator of each mode.
pub open spec fn spec_line_op(mode: CommentingMode, p: Seq<char>, l: Seq<char>) -> Seq<char> {
    match mode {
        CommentingMode::Comment => spec_comment(p, l),
        CommentingMode::Uncomment => spec_uncomment(p, l),
        CommentingMode::Toggle => spec_toggle(p, l),
    }
}

/// Transform the stream line by line: each selected line gets the mode's
/// per-line operator, every other line passes through verbatim. The match
/// state is threaded across lines from the fresh state.
pub fn comment_lines(
    lines: &Vec<String>,
    pattern: &AddressPattern,
    prefix: &str,
    mode: &CommentingMode,
) -> (out: Vec<String>)
    requires
        pattern.model().addr.wf(),
    ensures
        out@.len() == lines@.len(),
        forall|i: int| 0 <= i < lines@.len() ==> #[trigger] out@[i]@ == (if line_selected(
            pattern.model(),
            lines_view(lines@),
            MatchState::spec_empty(),
            i,
        ) {
            spec_line_op(*mode, prefix@, lines@[i]@)
        } else {
            lines@[i]@
        }),
{
    let ghost m = pattern.model();
    let ghost lv = lines_view(lines@);
    let ghost st0 = MatchState::spec_empty();
    let n = lines.len();
    let mut out: Vec<String> = Vec::new();
    let mut state = MatchState::empty();
    let mut i: usize = 0;
    while i < n
        invariant
            0 <= i <= n,
            n == lines@.len(),
            lv == lines_view(lines@),
            m == pattern.model(),
            m.addr.wf(),
            state == scan_state(m, lv, st0, i as int),
            out@.len() == i,
            forall|j: int| 0 <= j < i ==> #[trigger] out@[j]@ == (if line_selected(m, lv, st0, j) {
                spec_line_op(*mode, prefix@, lines@[j]@)
            } else {
                lines@[j]@
            }),
        decreases n - i,
    {
        let line = &lines[i];
        let (selected, new_state) = pattern.matches(i + 1, line.as_str(), &state);
        if selected {
            let rewritten = match mode {
                CommentingMode::Comment => comment_line(prefix, line.as_str()),
                CommentingMode::Uncomment => uncomment_line(prefix, line.as_str()),
                CommentingMode::Toggle => toggle_line(prefix, line.as_str()),
            };
            out.push(rewritten);
        } else {
            out.push(line.clone());
        }
        state = new_state;
        i = i + 1;
    }
    out
}

/// Negation is a per-line complement over a whole scan: under `A!` the
/// carried state before every line is identical to the state under `A`, and
/// every line's selection flag is the complement of its flag under `A`.
pub proof fn lemma_negation_scan(
    m: PatSpec,
    lv: Seq<Seq<char>>,
    st0: MatchState,
    i: int,
)
    requires
        0 <= i <= lv.len(),
    ensures
        scan_state(PatSpec { addr: m.addr, negated: !m.negated }, lv, st0, i) == scan_state(
            m,
            lv,
            st0,
            i,
        ),
        i < lv.len() ==> line_selected(PatSpec { addr: m.addr, negated: !m.negated }, lv, st0, i)
            == !line_selected(m, lv, st0, i),
    decreases i,
{
    if i > 0 {
        lemma_negation_scan(m, lv, st0, i - 1);
    }
}

/// Length of the maximal prefix of `flags` whose entries all equal the
/// first.
pub open spec fn first_run_len(flags: Seq<bool>) -> int
    decreases flags.len(),
{
    if flags.len() == 0 {
        0
    } else if flags.len() == 1 || flags[1] != flags[0] {
        1
    } else {
        1 + first_run_len(flags.skip(1))
    }
}

/// `first_run_len` is between 1 and the length, covers only entries equal to
/// the first, and stops right before a differing entry.
pub proof fn lemma_first_run_len(flags: Seq<bool>)
    requires
        flags.len() > 0,
    ensures
        1 <= first_run_len(flags) <= flags.len(),
        forall|j: int| 0 <= j < first_run_len(flags) ==> #[trigger] flags[j] == flags[0],
        first_run_len(flags) < flags.len() ==> flags[first_run_len(flags)] != flags[0],
    decreases flags.len(),
{
    if flags.len() == 1 || flags[1] != flags[0] {
    } else {
        lemma_first_run_len(flags.skip(1));
        assert forall|j: int| 0 <= j < first_run_len(flags) implies #[trigger] flags[j] == flags[0] by {
            if j > 0 {
                assert(flags.skip(1)[j - 1] == flags[j]);
            }
        }
        if first_run_len(flags) < flags.len() {
            assert(flags.skip(1)[first_run_len(flags) - 1] == flags[first_run_len(flags)]);
        }
    }
}

/// Any position with the first-run properties is `first_run_len`.
pub proof fn lemma_first_run_len_unique(flags: Seq<bool>, k: int)
    requires
        flags.len() > 0,
        1 <= k <= flags.len(),
        forall|j: int| 0 <= j < k ==> #[trigger] flags[j] == flags[0],
        k < flags.len() ==> flags[k] != flags[0],
    ensures
        k == first_run_len(flags),
{
    lemma_first_run_len(flags);
}

/// Group a flagged stream into maximal contiguous runs of equal flags, each
/// run paired with its flag, in order.
pub open spec fn group_runs(flags: Seq<bool>, lv: Seq<Seq<char>>) -> Seq<(bool, Seq<Seq<char>>)>
    decreases flags.len(),
    via group_runs_decreases
{
    if flags.len() == 0 || flags.len() != lv.len() {
        seq![]
    } else {
        let k = first_run_len(flags);
        seq![(flags[0], lv.take(k))] + group_runs(flags.skip(k), lv.skip(k))
    }
}

#[via_fn]
proof fn group_runs_decreases(flags: Seq<bool>, lv: Seq<Seq<char>>) {
    if flags.len() != 0 && flags.len() == lv.len() {
        lemma_first_run_len(flags);
    }
}

/// The character sequences of a grouped stream.
pub open spec fn groups_view(gs: Seq<(bool, Vec<String>)>) -> Seq<(bool, Seq<Seq<char>>)> {
    gs.map_values(|g: (bool, Vec<String>)| (g.0, lines_view(g.1@)))
}

/// Scan the stream with the pattern from `initial_state` and group it into
/// maximal contiguous runs of lines sharing one selection flag: exactly the
/// model's `group_runs` of the scan's flags.
pub fn get_matches(
    pattern: &AddressPattern,
    lines: &Vec<String>,
    initial_state: MatchState,
) -> (out: Vec<(bool, Vec<String>)>)
    requires
        pattern.model().addr.wf(),
    ensures
        groups_view(out@) == group_runs(
            scan_flags(pattern.model(), lines_view(lines@), initial_state),
            lines_view(lines@),
        ),
{
    let ghost m = pattern.model();
    let ghost lv = lines_view(lines@);
    let n = lines.len();

    let mut flags: Vec<bool> = Vec::new();
    let mut state = initial_state;
    let mut i: usize = 0;
    while i < n
        invariant
            0 <= i <= n,
            n == lines@.len(),
            lv == lines_view(lines@),
            m == pattern.model(),
            m.addr.wf(),
            state == scan_state(m, lv, initial_state, i as int),
            flags@.len() == i,
            forall|j: int| 0 <= j < i ==> #[trigger] flags@[j] == line_selected(
                m,
                lv,
                initial_state,
                j,
            ),
        decreases n - i,
    {
        let (selected, new_state) = pattern.matches(i + 1, lines[i].as_str(), &state);
        flags.push(selected);
        state = new_state;
        i = i + 1;
    }
    proof {
        assert(flags@ =~= scan_flags(m, lv, initial_state));
    }
    let ghost fl = flags@;

    let mut out: Vec<(bool, Vec<String>)> = Vec::new();
    proof {
        assert(fl.skip(0) =~= fl);
        assert(lv.skip(0) =~= lv);
        assert(groups_view(out@) + group_runs(fl, lv) =~= group_runs(fl, lv));
    }
    let mut start: usize = 0;
    while start < n
        invariant
            0 <= start <= n,
            n == lines@.len(),
            n == fl.len(),
            flags@ == fl,
            lv == lines_view(lines@),
            groups_view(out@) + group_runs(fl.skip(start as int), lv.skip(start as int))
                == group_runs(fl, lv),
        decreases n - start,
    {
        let f = flags[start];
        let mut j = start + 1;
        while j < n && flags[j] == f
            invariant
                start < j <= n,
                n == fl.len(),
                flags@ == fl,
                f == fl[start as int],
                forall|t: int| start <= t < j ==> #[trigger] fl[t] == f,
            decreases n - j,
        {
            j = j + 1;
        }
        let mut chunk: Vec<String> = Vec::new();
        let mut t = start;
        while t < j
            invariant
                start <= t <= j <= n,
                n == lines@.len(),
                chunk@.len() == t - start,
                forall|u: int| 0 <= u < t - start ==> #[trigger] chunk@[u] == lines@[start + u],
            decreases j - t,
        {
            chunk.push(lines[t].clone());
            t = t + 1;
        }
        proof {
            let s = start as int;
            let jj = j as int;
            let tailf = fl.skip(s);
            let taill = lv.skip(s);
            assert forall|u: int| 0 <= u < jj - s implies #[trigger] tailf[u] == tailf[0] by {
                assert(tailf[u] == fl[s + u]);
            }
            if jj - s < tailf.len() {
                assert(tailf[jj - s] == fl[jj]);
            }
            lemma_first_run_len_unique(tailf, jj - s);
            assert(taill.take(jj - s) =~= lv.subrange(s, jj));
            assert(tailf.skip(jj - s) =~= fl.skip(jj));
            assert(taill.skip(jj - s) =~= lv.skip(jj));
            assert(lines_view(chunk@) =~= lv.subrange(s, jj));
            assert(group_runs(fl.skip(s), lv.skip(s)) == seq![(f, lv.subrange(s, jj))]
                + group_runs(fl.skip(jj), lv.skip(jj)));
            assert(groups_view(out@.push((f, chunk))) =~= groups_view(out@).push(
                (f, lines_view(chunk@)),
            ));
            assert(groups_view(out@).push((f, lines_view(chunk@))) + group_runs(
                fl.skip(jj),
                lv.skip(jj),
            ) =~= groups_view(out@) + (seq![(f, lv.subrange(s, jj))] + group_runs(
                fl.skip(jj),
                lv.skip(jj),
            )));
        }
        out.push((f, chunk));
        start = j;
    }
    proof {
        assert(fl.skip(n as int).len() == 0);
        assert(group_runs(fl.skip(n as int), lv.skip(n as int)) =~= Seq::<(
            bool,
            Seq<Seq<char>>,
        )>::empty());
        assert(groups_view(out@) + group_runs(fl.skip(n as int), lv.skip(n as int)) =~= groups_view(
            out@,
        ));
    }
    out
}

/// The output of block mode: each selected run goes through the block
/// transform, each unselected run passes through, in order.
pub open spec fn blocks_output(
    gs: Seq<(bool, Seq<Seq<char>>)>,
    mode: CommentingMode,
    p: Seq<char>,
) -> Seq<Seq<char>>
    decreases gs.len(),
{
    if gs.len() == 0 {
        seq![]
    } else {
        (if gs[0].0 {
            spec_comment_block(mode, p, gs[0].1)
        } else {
            gs[0].1
        }) + blocks_output(gs.skip(1), mode, p)
    }
}

/// `blocks_output` distributes over appending one group.
pub proof fn lemma_blocks_output_push(
    gs: Seq<(bool, Seq<Seq<char>>)>,
    g: (bool, Seq<Seq<char>>),
    mode: CommentingMode,
    p: Seq<char>,
)
    ensures
        blocks_output(gs.push(g), mode, p) == blocks_output(gs, mode, p) + (if g.0 {
            spec_comment_block(mode, p, g.1)
        } else {
            g.1
        }),
    decreases gs.len(),
{
    if gs.len() == 0 {
        assert(gs.push(g)[0] == g);
        assert(gs.push(g).skip(1) =~= Seq::<(bool, Seq<Seq<char>>)>::empty());
        assert(blocks_output(Seq::<(bool, Seq<Seq<char>>)>::empty(), mode, p) == Seq::<
            Seq<char>,
        >::empty());
        assert(blocks_output(gs.push(g), mode, p) =~= blocks_output(gs, mode, p) + (if g.0 {
            spec_comment_block(mode, p, g.1)
        } else {
            g.1
        }));
    } else {
        let x0 = if gs[0].0 {
            spec_comment_block(mode, p, gs[0].1)
        } else {
            gs[0].1
        };
        let y = if g.0 {
            spec_comment_block(mode, p, g.1)
        } else {
            g.1
        };
        assert(gs.push(g)[0] == gs[0]);
        assert(gs.push(g).skip(1) =~= gs.skip(1).push(g));
        lemma_blocks_output_push(gs.skip(1), g, mode, p);
        assert(blocks_output(gs.push(g), mode, p) == x0 + (blocks_output(gs.skip(1), mode, p)
            + y));
        assert(x0 + (blocks_output(gs.skip(1), mode, p) + y) =~= (x0 + blocks_output(
            gs.skip(1),
            mode,
            p,
        )) + y);
        assert(blocks_output(gs, mode, p) == x0 + blocks_output(gs.skip(1), mode, p));
    }
}

/// The whole pass over the stream: in block mode (a range address) each
/// maximal selected run is transformed as one block; otherwise each selected
/// line is transformed on its own. The scan always starts from the fresh
/// state.
pub open spec fn spec_process(
    m: PatSpec,
    mode: CommentingMode,
    p: Seq<char>,
    lv: Seq<Seq<char>>,
) -> Seq<Seq<char>> {
    if m.addr is Span {
        blocks_output(group_runs(scan_flags(m, lv, MatchState::spec_empty()), lv), mode, p)
    } else {
        Seq::new(
            lv.len(),
            |i: int|
                if line_selected(m, lv, MatchState::spec_empty(), i) {
                    spec_line_op(mode, p, lv[i])
                } else {
                    lv[i]
                },
        )
    }
}

/// Every block of the grouped output keeps its length, so the block pass has
/// one output line per input line; an unselected line passes through
/// verbatim; and a blank line is never changed, selected or not.
pub proof fn lemma_blocks_output_lines(
    flags: Seq<bool>,
    lv: Seq<Seq<char>>,
    mode: CommentingMode,
    p: Seq<char>,
)
    requires
        flags.len() == lv.len(),
    ensures
        blocks_output(group_runs(flags, lv), mode, p).len() == lv.len(),
        forall|i: int| 0 <= i < lv.len() && (!flags[i] || is_blank(lv[i]))
            ==> #[trigger] blocks_output(group_runs(flags, lv), mode, p)[i] == lv[i],
    decreases flags.len(),
{
    if flags.len() == 0 {
    } else {
        lemma_first_run_len(flags);
        let k = first_run_len(flags);
        let g0 = (flags[0], lv.take(k));
        let gs = group_runs(flags, lv);
        assert(gs == seq![g0] + group_runs(flags.skip(k), lv.skip(k)));
        assert(gs[0] == g0);
        assert(gs.skip(1) =~= group_runs(flags.skip(k), lv.skip(k)));
        let b0 = if flags[0] {
            spec_comment_block(mode, p, lv.take(k))
        } else {
            lv.take(k)
        };
        assert(blocks_output(gs, mode, p) == b0 + blocks_output(gs.skip(1), mode, p));
        assert(b0.len() == k);
        lemma_blocks_output_lines(flags.skip(k), lv.skip(k), mode, p);
        let out = blocks_output(gs, mode, p);
        let rest = blocks_output(group_runs(flags.skip(k), lv.skip(k)), mode, p);
        assert forall|i: int|
            0 <= i < lv.len() && (!flags[i] || is_blank(lv[i])) implies #[trigger] out[i]
            == lv[i] by {
            if i < k {
                assert(out[i] == b0[i]);
                assert(flags[i] == flags[0]);
                assert(lv.take(k)[i] == lv[i]);
                if flags[0] {
                    assert(is_blank(lv[i]));
                    assert(b0[i] == spec_block_line(
                        mode,
                        spec_will_comment(p, lv.take(k)),
                        p,
                        lv.take(k)[i],
                    ));
                } else {
                    assert(b0[i] == lv.take(k)[i]);
                }
            } else {
                assert(out[i] == rest[i - k]);
                assert(flags.skip(k)[i - k] == flags[i]);
                assert(lv.skip(k)[i - k] == lv[i]);
            }
        }
    }
}

/// The whole pass writes one output line per input line; a line the scan
/// does not select passes through verbatim; and in block mode a blank line
/// is never changed, whatever the mode and whether it is selected.
pub proof fn lemma_process_verbatim(
    m: PatSpec,
    mode: CommentingMode,
    p: Seq<char>,
    lv: Seq<Seq<char>>,
)
    ensures
        spec_process(m, mode, p, lv).len() == lv.len(),
        forall|i: int| 0 <= i < lv.len() && !line_selected(m, lv, MatchState::spec_empty(), i)
            ==> #[trigger] spec_process(m, mode, p, lv)[i] == lv[i],
        m.addr is Span ==> forall|i: int| 0 <= i < lv.len() && is_blank(#[trigger] lv[i])
            ==> spec_process(m, mode, p, lv)[i] == lv[i],
{
    if m.addr is Span {
        let flags = scan_flags(m, lv, MatchState::spec_empty());
        lemma_blocks_output_lines(flags, lv, mode, p);
    }
}

/// Append clones of every line of `chunk` to `out`.
fn extend_lines(out: &mut Vec<String>, chunk: &Vec<String>)
    ensures
        final(out)@ == old(out)@ + chunk@,
{
    let n = chunk.len();
    let mut i: usize = 0;
    while i < n
        invariant
            0 <= i <= n,
            n == chunk@.len(),
            out@ == old(out)@ + chunk@.take(i as int),
        decreases n - i,
    {
        out.push(chunk[i].clone());
        proof {
            assert(old(out)@ + chunk@.take(i as int) + seq![chunk@[i as int]] =~= old(out)@
                + chunk@.take(i + 1));
        }
        i = i + 1;
    }
    proof {
        assert(chunk@.take(n as int) =~= chunk@);
    }
}

/// Apply the pattern and the mode to the whole stream: with a range address
/// the selected runs are transformed as blocks, otherwise line by line.
/// Unselected lines pass through verbatim either way.
pub fn process_lines(
    pattern: &AddressPattern,
    mode: &CommentingMode,
    prefix: &str,
    lines: &Vec<String>,
) -> (out: Vec<String>)
    requires
        pattern.model().addr.wf(),
    ensures
        lines_view(out@) == spec_process(pattern.model(), *mode, prefix@, lines_view(lines@)),
{
    let ghost m = pattern.model();
    let ghost lv = lines_view(lines@);
    if pattern.is_range() {
        let groups = get_matches(pattern, lines, MatchState::empty());
        let ghost gv = groups_view(groups@);
        let gn = groups.len();
        let mut out: Vec<String> = Vec::new();
        let mut i: usize = 0;
        while i < gn
            invariant
                0 <= i <= gn,
                gn == groups@.len(),
                gv == groups_view(groups@),
                lines_view(out@) == blocks_output(gv.take(i as int), *mode, prefix@),
            decreases gn - i,
        {
            let ghost before = out@;
            let (selected, chunk) = &groups[i];
            if *selected {
                let transformed = comment_block(mode, prefix, chunk);
                extend_lines(&mut out, &transformed);
            } else {
                extend_lines(&mut out, chunk);
            }
            proof {
                assert(gv[i as int] == (groups@[i as int].0, lines_view(groups@[i as int].1@)));
                lemma_blocks_output_push(gv.take(i as int), gv[i as int], *mode, prefix@);
                assert(gv.take(i as int).push(gv[i as int]) =~= gv.take(i + 1));
                assert(lines_view(out@) =~= lines_view(before) + lines_view(
                    out@.skip(before.len() as int),
                ));
                assert(lines_view(out@) =~= blocks_output(gv.take(i + 1), *mode, prefix@));
            }
            i = i + 1;
        }
        proof {
            assert(gv.take(gn as int) =~= gv);
        }
        out
    } else {
        let out = comment_lines(lines, pattern, prefix, mode);
        proof {
            assert(lines_view(out@) =~= spec_process(m, *mode, prefix@, lv));
        }
        out
    }
}

} // verus!
