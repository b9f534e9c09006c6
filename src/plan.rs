//! Splitting a time span into windows that each fit one request.
use vstd::prelude::*;
use crate::error::ConfigError;

verus! {

/// One fetch window: the records that open from `start` up to `end`, in milliseconds.
#[derive(Clone, Copy, PartialEq, Eq, Structural, Debug)]
pub struct Window {
    pub start: i64,
    pub end: i64,
}

/// The windows between consecutive boundaries.
pub open spec fn windows_between(boundaries: Seq<i64>) -> Seq<Window> {
    Seq::new(
        if boundaries.len() == 0 { 0 } else { (boundaries.len() - 1) as nat },
        |i: int| (Window { start: boundaries[i], end: boundaries[i + 1] }),
    )
}

/// The fetch windows of a list of boundaries: one for each pair of neighbours.
pub fn windows_of(boundaries: &Vec<i64>) -> (r: Vec<Window>)
    ensures
        r@ == windows_between(boundaries@),
{
    let mut out: Vec<Window> = Vec::new();
    let mut i: usize = 1;
    while i < boundaries.len()
        invariant
            1 <= i,
            i <= boundaries@.len() || i == 1,
            out@ == windows_between(boundaries@).subrange(0, i - 1),
            windows_between(boundaries@).len() == if boundaries@.len() == 0 { 0 } else { boundaries@.len() - 1 },
        decreases boundaries@.len() - i,
    {
        let w = Window { start: boundaries[i - 1], end: boundaries[i] };
        proof {
            assert(windows_between(boundaries@).subrange(0, i as int) =~= out@.push(w));
        }
        out.push(w);
        i = i + 1;
    }
    proof {
        if boundaries@.len() > 0 {
            assert(i == boundaries@.len());
            assert(windows_between(boundaries@).subrange(0, i - 1) =~= windows_between(boundaries@));
        } else {
            assert(windows_between(boundaries@).len() == 0);
            assert(out@.len() == 0);
        }
        assert(out@ =~= windows_between(boundaries@));
    }
    out
}

/// How many boundaries of the form `start + k * step` lie strictly before `end`.
pub open spec fn stride_count(start: int, end: int, step: int) -> int {
    if start < end {
        (end - start - 1) / step + 1
    } else {
        0
    }
}

/// The boundaries of a plan: `start`, `start + step`, `start + 2 * step`, ... while
/// strictly before `end`, then `end` itself. A span with `start == end` has the one
/// boundary `end` and so no window.
pub open spec fn planned_boundaries(start: i64, end: i64, step: int) -> Seq<i64> {
    Seq::new(stride_count(start as int, end as int, step) as nat, |k: int| (start + k * step) as i64).push(end)
}

/// `q` is the quotient of `x` by `step` when `q * step <= x < (q + 1) * step`.
proof fn lemma_quotient(x: int, step: int, q: int)
    requires
        step >= 1,
        q >= 0,
        q * step <= x < (q + 1) * step,
    ensures
        x / step == q,
{
    vstd::arithmetic::div_mod::lemma_fundamental_div_mod(x, step);
    let d = x / step;
    if d < q {
        assert(step * d + step <= q * step) by (nonlinear_arith)
            requires
                d < q,
                step >= 1,
        ;
    } else if d > q {
        assert((q + 1) * step <= step * d) by (nonlinear_arith)
            requires
                d > q,
                step >= 1,
        ;
    }
}

/// The number of strides fits between `start` and `end`: the last one lies before
/// `end`, and one step more reaches it.
proof fn lemma_stride_count(start: int, end: int, step: int)
    requires
        start < end,
        step >= 1,
    ensures
        stride_count(start, end, step) >= 1,
        start + (stride_count(start, end, step) - 1) * step < end,
        end <= start + stride_count(start, end, step) * step,
{
    let x = end - start - 1;
    let q = x / step;
    vstd::arithmetic::div_mod::lemma_fundamental_div_mod(x, step);
    assert(q >= 0) by {
        vstd::arithmetic::div_mod::lemma_div_pos_is_pos(x, step);
    }
    assert(q * step == step * q) by (nonlinear_arith);
    assert((q + 1) * step == q * step + step) by (nonlinear_arith);
}

/// Boundaries from `start` to `end`, `step` apart, as `planned_boundaries` gives them.
pub(crate) fn boundaries(start: i64, end: i64, step: i64) -> (r: Vec<i64>)
    requires
        start <= end,
        step >= 1,
    ensures
        r@ == planned_boundaries(start, end, step as int),
{
    let mut out: Vec<i64> = Vec::new();
    if start < end {
        let mut cur: i64 = start;
        let ghost mut k: int = 0;
        proof {
            lemma_stride_count(start as int, end as int, step as int);
        }
        loop
            invariant_except_break
                out@ == Seq::new(k as nat, |j: int| (start + j * step) as i64),
            invariant
                start < end,
                step >= 1,
                0 <= k,
                cur == start + k * step,
                cur < end,
                stride_count(start as int, end as int, step as int) >= 1,
            ensures
                out@ == Seq::new(
                    stride_count(start as int, end as int, step as int) as nat,
                    |j: int| (start + j * step) as i64,
                ),
            decreases end - cur,
        {
            let ghost before = out@;
            out.push(cur);
            proof {
                assert(out@ =~= Seq::new((k + 1) as nat, |j: int| (start + j * step) as i64));
            }
            if (end as i128) - (cur as i128) <= step as i128 {
                proof {
                    assert((k + 1) * step == k * step + step) by (nonlinear_arith);
                    lemma_quotient(end - start - 1, step as int, k);
                }
                break;
            }
            proof {
                assert((k + 1) * step == k * step + step) by (nonlinear_arith);
            }
            cur = cur + step;
            proof {
                k = k + 1;
            }
        }
    }
    out.push(end);
    proof {
        if start == end {
            assert(out@ =~= planned_boundaries(start, end, step as int));
        }
    }
    out
}

/// Plans the windows that cover `[start, end]` with at most `max_rows` candles of
/// `interval_ms` each: the boundaries `planned_boundaries(start, end, interval_ms * max_rows)`.
/// A span that starts after it ends is refused with `InvalidSpan`.
pub fn plan(start: i64, end: i64, interval_ms: i64, max_rows: i64) -> (r: Result<Vec<i64>, ConfigError>)
    requires
        interval_ms >= 1,
        max_rows >= 1,
        interval_ms * max_rows <= i64::MAX,
    ensures
        start > end ==> r == Err::<Vec<i64>, ConfigError>(ConfigError::InvalidSpan),
        start <= end ==> r is Ok && r->Ok_0@ == planned_boundaries(start, end, interval_ms * max_rows),
{
    if start > end {
        return Err(ConfigError::InvalidSpan);
    }
    proof {
        assert(interval_ms * max_rows >= 1) by (nonlinear_arith)
            requires
                interval_ms >= 1,
                max_rows >= 1,
        ;
    }
    Ok(boundaries(start, end, interval_ms * max_rows))
}

/// Each boundary of `b` lies above the one before it, by at most `step`.
pub open spec fn rises_by_at_most(b: Seq<i64>, step: int) -> bool {
    forall|i: int| 0 <= i < b.len() - 1 ==> b[i] < #[trigger] b[i + 1] && b[i + 1] - b[i] <= step
}

/// A plan covers its span exactly: it starts at `start`, ends at `end`, its
/// boundaries rise strictly, so windows neither overlap nor leave gaps, and no
/// window is longer than `max_rows` intervals.
pub proof fn law_plan_coverage(start: i64, end: i64, interval_ms: int, max_rows: int)
    requires
        start <= end,
        interval_ms >= 1,
        max_rows >= 1,
    ensures
        planned_boundaries(start, end, interval_ms * max_rows)[0] == start,
        planned_boundaries(start, end, interval_ms * max_rows).last() == end,
        rises_by_at_most(planned_boundaries(start, end, interval_ms * max_rows), interval_ms * max_rows),
{
    let step = interval_ms * max_rows;
    assert(interval_ms * max_rows >= 1) by (nonlinear_arith)
        requires
            interval_ms >= 1,
            max_rows >= 1,
    ;
    let b = planned_boundaries(start, end, step);
    if start < end {
        lemma_stride_count(start as int, end as int, step);
        let n = stride_count(start as int, end as int, step);
        assert forall|i: int| 0 <= i < b.len() - 1 implies b[i] < #[trigger] b[i + 1] && b[i + 1] - b[i] <= step by {
            assert(i * step <= (n - 1) * step) by (nonlinear_arith)
                requires
                    i <= n - 1,
                    step >= 1,
            ;
            assert((i + 1) * step == i * step + step) by (nonlinear_arith);
            assert(start + i * step < end);
            if i < n - 1 {
                assert((i + 1) * step <= (n - 1) * step) by (nonlinear_arith)
                    requires
                        i + 1 <= n - 1,
                        step >= 1,
                ;
            }
        }
    }
}

/// A span of no length plans no window: its plan is the single boundary `end`.
pub proof fn law_degenerate_span(t: i64, step: int)
    requires
        step >= 1,
    ensures
        planned_boundaries(t, t, step) == seq![t],
        windows_between(planned_boundaries(t, t, step)).len() == 0,
{
    assert(planned_boundaries(t, t, step) =~= seq![t]);
}

/// A span of exactly `m` steps plans `m` windows of one full step each, with no
/// trailing window of no length.
pub proof fn law_exact_multiple(start: i64, end: i64, step: int, m: int)
    requires
        step >= 1,
        m >= 1,
        end == start + m * step,
    ensures
        planned_boundaries(start, end, step).len() == m + 1,
        forall|i: int|
            0 <= i < m ==> #[trigger] planned_boundaries(start, end, step)[i + 1] - planned_boundaries(
                start,
                end,
                step,
            )[i] == step,
{
    assert(m * step >= step) by (nonlinear_arith)
        requires
            m >= 1,
            step >= 1,
    ;
    assert((m - 1) * step + step == m * step) by (nonlinear_arith);
    lemma_quotient(m * step - 1, step, m - 1);
    let b = planned_boundaries(start, end, step);
    assert forall|i: int| 0 <= i < m implies #[trigger] b[i + 1] - b[i] == step by {
        assert((i + 1) * step == i * step + step) by (nonlinear_arith);
        assert(i * step <= (m - 1) * step) by (nonlinear_arith)
            requires
                i <= m - 1,
                step >= 1,
        ;
    }
}

} // verus!
