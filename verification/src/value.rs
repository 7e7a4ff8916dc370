//! Point-value queries: the step convention and exact linear interpolation.

use vstd::prelude::*;

use crate::index::{count_lt, lemma_count_lt, lemma_exact_at_count};
use crate::store::has_ts;
use crate::ratio::Ratio;
use crate::store::{sorted_strict, valid, Sample, TimeFunc, TIME_BOUND, VAL_BOUND};

verus! {

/// The value of `s` at `x` under the step convention: an exact hit answers
/// with its own value, any other `x` with the value of the next sample at or
/// after it, clamped to the last value beyond the domain.
pub open spec fn step_value(s: Seq<Sample>, x: int) -> int {
    let j = count_lt(s, x);
    if j == s.len() && !has_ts(s, x) {
        s[s.len() - 1].v as int
    } else {
        s[j].v as int
    }
}

/// Numerator of the linearly interpolated value of `s` at `x`, over
/// [`interp_den`].  Exact hits answer exactly; queries outside the recorded
/// domain extrapolate the first/last value as a constant; interior queries
/// blend the bracketing samples linearly in elapsed time.
pub open spec fn interp_num(s: Seq<Sample>, x: int) -> int {
    let j = count_lt(s, x);
    if has_ts(s, x) {
        s[j].v as int
    } else if j == 0 {
        s[0].v as int
    } else if j == s.len() {
        s[s.len() - 1].v as int
    } else {
        (s[j].v - s[j - 1].v) * (x - s[j - 1].t) + s[j - 1].v * (s[j].t - s[j - 1].t)
    }
}

/// Denominator of the linearly interpolated value of `s` at `x`: the width of
/// the bracketing interval for interior queries, `1` otherwise.
pub open spec fn interp_den(s: Seq<Sample>, x: int) -> int {
    let j = count_lt(s, x);
    if has_ts(s, x) || j == 0 || j == s.len() {
        1
    } else {
        s[j].t - s[j - 1].t
    }
}

/// Size bounds on the interpolated value's fraction, for overflow reasoning
/// in the aggregates built on top of it.
pub proof fn lemma_interp_bounds(s: Seq<Sample>, x: int)
    requires
        valid(s),
        s.len() > 0,
        -5 * TIME_BOUND <= x <= 5 * TIME_BOUND,
    ensures
        1 <= interp_den(s, x) <= 2 * TIME_BOUND,
        -6 * VAL_BOUND * TIME_BOUND <= interp_num(s, x) <= 6 * VAL_BOUND * TIME_BOUND,
{
    lemma_count_lt(s, x);
    if has_ts(s, x) {
        lemma_exact_at_count(s, x);
    }
    let j = count_lt(s, x);
    if !has_ts(s, x) && 0 < j < s.len() {
        let dv = s[j].v - s[j - 1].v;
        let dx = x - s[j - 1].t;
        let dt = s[j].t - s[j - 1].t;
        assert(-2 * VAL_BOUND <= dv <= 2 * VAL_BOUND);
        assert(0 <= dx <= 2 * TIME_BOUND);
        assert(0 < dt <= 2 * TIME_BOUND);
        assert(-4 * VAL_BOUND * TIME_BOUND <= dv * dx <= 4 * VAL_BOUND * TIME_BOUND)
            by (nonlinear_arith)
            requires
                -2 * VAL_BOUND <= dv <= 2 * VAL_BOUND,
                0 <= dx <= 2 * TIME_BOUND,
        ;
        assert(-2 * VAL_BOUND * TIME_BOUND <= s[j - 1].v * dt <= 2 * VAL_BOUND * TIME_BOUND)
            by (nonlinear_arith)
            requires
                -VAL_BOUND <= s[j - 1].v <= VAL_BOUND,
                0 < dt <= 2 * TIME_BOUND,
        ;
    }
}

impl TimeFunc {
    /// The value at `time` under the step convention: an exact hit answers
    /// with that sample's value, otherwise the next sample at or after
    /// `time` owns the query point, and a `time` beyond the domain clamps to
    /// the last sample's value.
    pub fn get_value(&self, time: i64) -> (r: i64)
        requires
            sorted_strict(self@),
            self@.len() > 0,
        ensures
            r as int == step_value(self@, time as int),
    {
        let result = self.get_index(time);
        match result {
            Ok(index) => self.0[index].v,
            Err(index) => {
                let len = self.0.len();
                if index == len {
                    self.0[len - 1].v
                } else {
                    self.0[index].v
                }
            },
        }
    }

    /// The exact linearly interpolated value at `time`: an exact hit answers
    /// with that sample's value, a `time` outside the recorded domain
    /// extrapolates the first/last value as a constant, and an interior
    /// `time` blends the bracketing samples linearly in elapsed time.
    pub fn get_value_interpolated(&self, time: i64) -> (r: Ratio)
        requires
            valid(self@),
            self@.len() > 0,
            -5 * TIME_BOUND <= time <= 5 * TIME_BOUND,
        ensures
            r.num == interp_num(self@, time as int),
            r.den == interp_den(self@, time as int),
            r.wf(),
    {
        let result = self.get_index(time);
        match result {
            Ok(index) => Ratio::whole(self.0[index].v),
            Err(index) => {
                if index == 0 {
                    return Ratio::whole(self.0[0].v);
                }
                let len = self.0.len();
                if index == len {
                    return Ratio::whole(self.0[len - 1].v);
                }
                let upper = self.0[index];
                let lower = self.0[index - 1];
                proof {
                    lemma_count_lt(self@, time as int);
                }
                let dt = upper.t - lower.t;
                let dx = time - lower.t;
                let dv = upper.v - lower.v;
                proof {
                    assert(-2 * VAL_BOUND <= dv as int <= 2 * VAL_BOUND);
                    assert(0 < dx as int <= 2 * TIME_BOUND);
                    assert(
                        -4 * VAL_BOUND * TIME_BOUND <= dv as int * dx as int
                            <= 4 * VAL_BOUND * TIME_BOUND
                    )
                        by (nonlinear_arith)
                        requires
                            -2 * VAL_BOUND <= dv as int <= 2 * VAL_BOUND,
                            0 <= dx as int <= 2 * TIME_BOUND,
                    ;
                    assert(
                        -2 * VAL_BOUND * TIME_BOUND <= lower.v as int * dt as int
                            <= 2 * VAL_BOUND * TIME_BOUND
                    )
                        by (nonlinear_arith)
                        requires
                            -VAL_BOUND <= lower.v as int <= VAL_BOUND,
                            0 <= dt as int <= 2 * TIME_BOUND,
                    ;
                }
                let num = dv as i128 * dx as i128 + lower.v as i128 * dt as i128;
                Ratio { num, den: dt as i128 }
            },
        }
    }
}

} // verus!
