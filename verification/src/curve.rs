//! Piecewise-linear control curve from temperature to fan duty cycle.
//!
//! The curve is a table of breakpoints sorted strictly ascending by
//! temperature.  A query inside an interval is answered by linear
//! interpolation, truncating the fractional part; a query below the first
//! breakpoint or at or above the last falls back to the maximum-safety
//! duty cycle (full cooling) instead of extrapolating.

use vstd::prelude::*;
use vstd::arithmetic::div_mod::{lemma_div_by_multiple, lemma_div_is_ordered};

verus! {

/// Duty cycle used whenever no breakpoint interval answers a query: fail
/// open to maximum cooling.
pub const FAILSAFE_DUTY: u8 = 255;

/// Breakpoints are sorted strictly ascending by temperature.
pub open spec fn curve_wf(pts: Seq<(u8, u8)>) -> bool {
    forall|m: int, k: int|
        0 <= m < k < pts.len() ==> #[trigger] pts[m].0 < #[trigger] pts[k].0
}

/// Exact linear interpolation between `(t1, p1)` and `(t2, p2)` at `t`,
/// with the fractional part truncated.
pub open spec fn interp(t1: int, p1: int, t2: int, p2: int, t: int) -> int {
    (p1 * (t2 - t1) + (t - t1) * (p2 - p1)) / (t2 - t1)
}

/// Duty cycle the curve assigns to a temperature: the interpolation of the
/// unique interval containing it, or the failsafe value when no interval
/// does (including curves of fewer than two points).
pub open spec fn pwm_from_temp_spec(pts: Seq<(u8, u8)>, t: int) -> int
    decreases pts.len(),
{
    if pts.len() < 2 {
        255
    } else if pts[0].0 <= t < pts[1].0 {
        interp(pts[0].0 as int, pts[0].1 as int, pts[1].0 as int, pts[1].1 as int, t)
    } else {
        pwm_from_temp_spec(pts.skip(1), t)
    }
}

/// An interpolated duty cycle lies between the duty cycles of its
/// interval's endpoints; in particular it is a byte.
pub proof fn lemma_interp_range(t1: int, p1: int, t2: int, p2: int, t: int)
    requires
        t1 < t2,
        t1 <= t < t2,
        0 <= p1 <= 255,
        0 <= p2 <= 255,
    ensures
        0 <= interp(t1, p1, t2, p2, t) <= 255,
        p1 <= p2 ==> p1 <= interp(t1, p1, t2, p2, t) <= p2,
        p2 <= p1 ==> p2 <= interp(t1, p1, t2, p2, t) <= p1,
{
    let d = t2 - t1;
    let x = t - t1;
    let num = p1 * d + x * (p2 - p1);
    if p1 <= p2 {
        assert(p1 * d <= p1 * d + x * (p2 - p1) && p1 * d + x * (p2 - p1) <= p2 * d)
            by (nonlinear_arith)
            requires
                0 <= x && x < d && p1 <= p2,
        ;
        lemma_div_is_ordered(p1 * d, num, d);
        lemma_div_is_ordered(num, p2 * d, d);
        lemma_div_by_multiple(p1, d);
        lemma_div_by_multiple(p2, d);
    } else {
        assert(p2 * d <= p1 * d + x * (p2 - p1) && p1 * d + x * (p2 - p1) <= p1 * d)
            by (nonlinear_arith)
            requires
                0 <= x && x < d && p2 <= p1,
        ;
        lemma_div_is_ordered(p2 * d, num, d);
        lemma_div_is_ordered(num, p1 * d, d);
        lemma_div_by_multiple(p1, d);
        lemma_div_by_multiple(p2, d);
    }
}

/// A chain of adjacent increases orders any two breakpoints.
proof fn lemma_chain(pts: Seq<(u8, u8)>, m: int, k: int)
    requires
        forall|j: int| 0 <= j < pts.len() - 1 ==> #[trigger] pts[j].0 < pts[j + 1].0,
        0 <= m < k < pts.len(),
    ensures
        pts[m].0 < pts[k].0,
    decreases k - m,
{
    if k > m + 1 {
        lemma_chain(pts, m, k - 1);
    }
}

/// Strictly increasing adjacent temperatures make the whole table sorted.
pub proof fn lemma_sorted_from_adjacent(pts: Seq<(u8, u8)>)
    requires
        forall|j: int| 0 <= j < pts.len() - 1 ==> #[trigger] pts[j].0 < pts[j + 1].0,
    ensures
        curve_wf(pts),
{
    assert forall|m: int, k: int| 0 <= m < k < pts.len() implies #[trigger] pts[m].0
        < #[trigger] pts[k].0 by {
        lemma_chain(pts, m, k);
    }
}

/// The control curve: breakpoint pairs of (temperature threshold, duty
/// cycle), sorted strictly ascending by temperature.
pub struct ControlPoints(pub Vec<(u8, u8)>);

impl View for ControlPoints {
    type V = Seq<(u8, u8)>;

    open spec fn view(&self) -> Seq<(u8, u8)> {
        self.0@
    }
}

impl ControlPoints {
    /// Validates a breakpoint table at load time: at least two points,
    /// temperatures strictly ascending (unsorted or duplicate
    /// temperatures are a configuration error, not reordered silently).
    pub fn from_pairs(pairs: Vec<(u8, u8)>) -> (r: Option<ControlPoints>)
        ensures
            match r {
                Some(c) => c@ == pairs@ && curve_wf(pairs@) && pairs@.len() >= 2,
                None => !(curve_wf(pairs@) && pairs@.len() >= 2),
            },
    {
        let n = pairs.len();
        if n < 2 {
            return None;
        }
        let mut i: usize = 0;
        while i < n - 1
            invariant
                n == pairs@.len(),
                2 <= n,
                i <= n - 1,
                forall|j: int| 0 <= j < i ==> #[trigger] pairs@[j].0 < pairs@[j + 1].0,
            decreases pairs@.len() - i,
        {
            if pairs[i].0 >= pairs[i + 1].0 {
                proof {
                    assert(!curve_wf(pairs@)) by {
                        if curve_wf(pairs@) {
                            assert(pairs@[i as int].0 < pairs@[i as int + 1].0);
                        }
                    }
                }
                return None;
            }
            i += 1;
        }
        proof {
            lemma_sorted_from_adjacent(pairs@);
        }
        Some(ControlPoints(pairs))
    }

    /// Duty cycle for a temperature in whole degrees: interpolation inside
    /// the matching interval, the failsafe maximum otherwise.
    pub fn get_pwm_from_temp(&self, temp: i32) -> (pwm: u8)
        requires
            curve_wf(self@),
        ensures
            pwm as int == pwm_from_temp_spec(self@, temp as int),
    {
        let n = self.0.len();
        if n < 2 {
            return FAILSAFE_DUTY;
        }
        proof {
            assert(self@.skip(0) =~= self@);
        }
        let mut i: usize = 0;
        while i < n - 1
            invariant
                curve_wf(self@),
                n == self@.len(),
                2 <= n,
                i <= n - 1,
                pwm_from_temp_spec(self@, temp as int) == pwm_from_temp_spec(
                    self@.skip(i as int),
                    temp as int,
                ),
            decreases n - i,
        {
            let lo = self.0[i];
            let hi = self.0[i + 1];
            proof {
                assert(self@[i as int].0 < self@[i as int + 1].0);
                assert(self@.skip(i as int)[0] == self@[i as int]);
                assert(self@.skip(i as int)[1] == self@[i as int + 1]);
            }
            if (lo.0 as i32) <= temp && temp < (hi.0 as i32) {
                let x: u64 = (temp - (lo.0 as i32)) as u64;
                let d: u64 = (hi.0 as u64) - (lo.0 as u64);
                let p1: u64 = lo.1 as u64;
                let p2: u64 = hi.1 as u64;
                proof {
                    assert(p1 * d <= 65025) by (nonlinear_arith)
                        requires
                            p1 <= 255 && d <= 255,
                    ;
                }
                let num: u64 = if p2 >= p1 {
                    proof {
                        assert(x * (p2 - p1) <= 65025) by (nonlinear_arith)
                            requires
                                x <= 255 && p2 - p1 <= 255,
                        ;
                    }
                    p1 * d + x * (p2 - p1)
                } else {
                    proof {
                        assert(x * (p1 - p2) <= p1 * d) by (nonlinear_arith)
                            requires
                                0 <= x < d && p2 < p1 && p1 <= 255,
                        ;
                    }
                    p1 * d - x * (p1 - p2)
                };
                let q: u64 = num / d;
                proof {
                    lemma_interp_range(
                        lo.0 as int,
                        lo.1 as int,
                        hi.0 as int,
                        hi.1 as int,
                        temp as int,
                    );
                    assert(num as int == p1 as int * d as int + x as int * (p2 as int
                        - p1 as int)) by (nonlinear_arith)
                        requires
                            num as int == (if p2 >= p1 {
                                p1 as int * d as int + x as int * (p2 as int - p1 as int)
                            } else {
                                p1 as int * d as int - x as int * (p1 as int - p2 as int)
                            }),
                    ;
                }
                return q as u8;
            }
            proof {
                assert(self@.skip(i as int).skip(1) =~= self@.skip(i as int + 1));
            }
            i += 1;
        }
        proof {
            assert(self@.skip(i as int).len() < 2);
        }
        FAILSAFE_DUTY
    }
}

} // verus!
