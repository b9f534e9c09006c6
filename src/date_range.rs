//! Instants from a start to an end, a fixed step apart.
use vstd::prelude::*;

verus! {

/// The instants `.0`, `.0 + .2`, `.0 + 2 * .2`, ... up to `.1` inclusive, in
/// milliseconds; `.0` is the next instant to hand out.
pub struct DateTimeRange(pub i64, pub i64, pub i64);

impl DateTimeRange {
    /// Hands out the next instant and moves one step on; `None`, changing nothing,
    /// once past the end.
    pub fn next(&mut self) -> (r: Option<i64>)
        requires
            old(self).0 <= old(self).1 ==> i64::MIN <= old(self).0 + old(self).2 <= i64::MAX,
        ensures
            old(self).0 <= old(self).1 ==> r == Some(old(self).0) && final(self).0 == old(self).0
                + old(self).2 && final(self).1 == old(self).1 && final(self).2 == old(self).2,
            old(self).0 > old(self).1 ==> r is None && *final(self) == *old(self),
    {
        if self.0 <= self.1 {
            let current = self.0;
            self.0 = current + self.2;
            Some(current)
        } else {
            None
        }
    }

    /// Every `n`-th instant of the range, starting with the first: the instants
    /// `.0 + j * n * .2` that do not pass `.1`.
    pub fn step_by(self, n: usize) -> (r: Vec<i64>)
        requires
            n >= 1,
            self.2 >= 1,
            self.1 + self.2 <= i64::MAX,
        ensures
            forall|j: int| 0 <= j < r@.len() ==> #[trigger] r@[j] == self.0 + j * n * self.2,
            r@.len() > 0 ==> self.0 + (r@.len() - 1) * n * self.2 <= self.1,
            self.1 < self.0 + r@.len() * n * self.2,
    {
        let start = self.0;
        let end = self.1;
        let step = self.2;
        let mut range = self;
        let mut out: Vec<i64> = Vec::new();
        let mut until: usize = 0;
        let ghost mut i: int = 0;
        proof {
            assert(out@.len() * n == 0) by (nonlinear_arith)
                requires
                    out@.len() == 0,
            ;
        }
        loop
            invariant
                range.1 == end,
                range.2 == step,
                step >= 1,
                n >= 1,
                end + step <= i64::MAX,
                range.0 == start + i * step,
                i >= 0,
                i + until == out@.len() * n,
                until < n,
                i > 0 ==> start + (i - 1) * step <= end,
                forall|j: int| 0 <= j < out@.len() ==> #[trigger] out@[j] == start + j * n * step,
            ensures
                forall|j: int| 0 <= j < out@.len() ==> #[trigger] out@[j] == start + j * n * step,
                range.0 == start + i * step,
                end < range.0,
                i >= 0,
                i + until == out@.len() * n,
                until < n,
                i > 0 ==> start + (i - 1) * step <= end,
            decreases if range.0 <= range.1 { range.1 - range.0 + 1 } else { 0 },
        {
            proof {
                if range.0 <= range.1 {
                    assert(start + (i + 1) * step == range.0 + step) by (nonlinear_arith)
                        requires
                            range.0 == start + i * step,
                    ;
                }
            }
            match range.next() {
                Some(t) => {
                    if until == 0 {
                        proof {
                            assert(t == start + out@.len() * n * step) by (nonlinear_arith)
                                requires
                                    t == start + i * step,
                                    i == out@.len() * n,
                            ;
                        }
                        out.push(t);
                        until = n - 1;
                        proof {
                            assert(out@.len() * n == (out@.len() - 1) * n + n) by (nonlinear_arith);
                        }
                    } else {
                        until = until - 1;
                    }
                    proof {
                        i = i + 1;
                    }
                },
                None => {
                    break;
                },
            }
        }
        proof {
            let k = out@.len() as int;
            if k > 0 {
                assert((k - 1) * n <= i - 1) by (nonlinear_arith)
                    requires
                        i + until == k * n,
                        until < n,
                        k >= 1,
                ;
                assert(start + (k - 1) * n * step <= start + (i - 1) * step) by (nonlinear_arith)
                    requires
                        (k - 1) * n <= i - 1,
                        step >= 1,
                ;
            }
            assert(start + i * step <= start + k * n * step) by (nonlinear_arith)
                requires
                    i <= k * n,
                    step >= 1,
            ;
        }
        out
    }
}

} // verus!
