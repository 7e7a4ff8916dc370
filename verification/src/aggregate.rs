//! Windowed aggregates: moving average and annualized rate of change.

use vstd::prelude::*;

use crate::index::{count_lt, lemma_count_lt, safe_idx};
use crate::ratio::Ratio;
use crate::value::{interp_den, interp_num};
use crate::store::{has_ts, valid, Sample, TimeFunc, TimeFuncError, TIME_BOUND, VAL_BOUND};

verus! {

/// Seconds in a (non-leap) year, used to annualize rates of change.
pub const SECONDS_PER_YEAR: i64 = 31536000;

/// The step-weighted sum of `s` over index range `[a, b)`: each sample's
/// value times the seconds until the next sample.
pub open spec fn wsum(s: Seq<Sample>, a: int, b: int) -> int
    decreases b - a,
{
    if a >= b {
        0
    } else {
        s[a].v * (s[a + 1].t - s[a].t) + wsum(s, a + 1, b)
    }
}

/// Extending a step-weighted sum by one interval on the right.
pub proof fn lemma_wsum_snoc(s: Seq<Sample>, a: int, b: int)
    requires
        a <= b,
    ensures
        wsum(s, a, b + 1) == wsum(s, a, b) + s[b].v * (s[b + 1].t - s[b].t),
    decreases b - a,
{
    if a < b {
        lemma_wsum_snoc(s, a + 1, b);
    } else {
        assert(wsum(s, a, b) == 0);
        assert(wsum(s, b + 1, b + 1) == 0);
        assert(wsum(s, a, b + 1) == s[b].v * (s[b + 1].t - s[b].t) + wsum(s, b + 1, b + 1));
    }
}

/// The index `get_index_safe` resolves never moves left as the query
/// timestamp moves right.
pub proof fn lemma_safe_monotone(s: Seq<Sample>, x1: int, x2: int)
    requires
        crate::store::sorted_strict(s),
        s.len() > 0,
        x1 <= x2,
    ensures
        safe_idx(s, x1) <= safe_idx(s, x2),
        0 <= safe_idx(s, x1) < s.len(),
        0 <= safe_idx(s, x2) < s.len(),
{
    lemma_count_lt(s, x1);
    lemma_count_lt(s, x2);
    let c1 = count_lt(s, x1);
    let c2 = count_lt(s, x2);
    if c2 < c1 {
        assert(s[c2].t < x1);
        assert(s[c2].t >= x2);
    }
    if has_ts(s, x1) {
        crate::index::lemma_exact_at_count(s, x1);
    }
    if has_ts(s, x2) {
        crate::index::lemma_exact_at_count(s, x2);
    }
}

/// Numerator of the moving average of `s` over the window resolved from
/// `(time, duration)`.  Coinciding resolved indices, or a window wholly
/// before the second sample, degenerate to a single sample value over
/// denominator `1`; otherwise this is the step-weighted sum over the
/// resolved index range.
pub open spec fn ma_num(s: Seq<Sample>, time: int, duration: int) -> int {
    let e = safe_idx(s, time);
    let st = safe_idx(s, time - duration);
    if st == e {
        s[e].v as int
    } else if e == 0 {
        s[0].v as int
    } else {
        wsum(s, st, e)
    }
}

/// Denominator of the moving average: the seconds actually spanned by the
/// resolved index range, or `1` in the degenerate cases.
pub open spec fn ma_den(s: Seq<Sample>, time: int, duration: int) -> int {
    let e = safe_idx(s, time);
    let st = safe_idx(s, time - duration);
    if st == e || e == 0 {
        1
    } else {
        s[e].t - s[st].t
    }
}

/// The step-weighted sum is bounded by the largest value times the spanned
/// seconds.
pub proof fn lemma_wsum_bound(s: Seq<Sample>, a: int, b: int)
    requires
        valid(s),
        0 <= a <= b < s.len(),
    ensures
        -VAL_BOUND * (s[b].t - s[a].t) <= wsum(s, a, b) <= VAL_BOUND * (s[b].t - s[a].t),
    decreases b - a,
{
    if a < b {
        lemma_wsum_bound(s, a + 1, b);
        let dt = s[a + 1].t - s[a].t;
        assert(0 < dt);
        assert(-VAL_BOUND * dt <= s[a].v * dt <= VAL_BOUND * dt) by (nonlinear_arith)
            requires
                -VAL_BOUND <= s[a].v <= VAL_BOUND,
                0 <= dt,
        ;
    }
}

/// Size bounds on the moving-average fraction, for overflow reasoning in
/// the aggregates built on top of it.
pub proof fn lemma_ma_bounds(s: Seq<Sample>, time: int, duration: int)
    requires
        valid(s),
        s.len() > 0,
        duration >= 0,
    ensures
        1 <= ma_den(s, time, duration) <= 2 * TIME_BOUND,
        -2 * VAL_BOUND * TIME_BOUND <= ma_num(s, time, duration) <= 2 * VAL_BOUND * TIME_BOUND,
{
    lemma_safe_monotone(s, time - duration, time);
    let e = safe_idx(s, time);
    let st = safe_idx(s, time - duration);
    if st != e && e != 0 {
        lemma_wsum_bound(s, st, e);
        assert(0 < s[e].t - s[st].t <= 2 * TIME_BOUND);
    }
}

impl TimeFunc {
    /// The time-weighted average of the step values between the indices
    /// resolved for `time - duration` and `time`.  The window uses the
    /// closest available indices, with no interpolation, so the spanned
    /// seconds may differ from `duration`; coinciding resolved indices, or a
    /// window that resolves to the first sample, answer that sample's value
    /// directly.
    pub fn get_moving_average(&self, time: i64, duration: i64) -> (r: Ratio)
        requires
            valid(self@),
            self@.len() > 0,
            -TIME_BOUND <= time <= TIME_BOUND,
            0 <= duration <= 4 * TIME_BOUND,
        ensures
            r.num == ma_num(self@, time as int, duration as int),
            r.den == ma_den(self@, time as int, duration as int),
            r.wf(),
    {
        let start_index = self.get_index_safe(time - duration);
        let end_index = self.get_index_safe(time);
        if start_index == end_index {
            return Ratio::whole(self.0[end_index].v);
        }
        if end_index == 0 {
            return Ratio::whole(self.0[0].v);
        }
        proof {
            lemma_safe_monotone(self@, time as int - duration as int, time as int);
        }
        let ghost st = start_index as int;
        let mut sum: i128 = 0;
        let mut i: usize = start_index;
        while i < end_index
            invariant
                valid(self@),
                st == start_index as int,
                start_index <= i <= end_index < self@.len(),
                sum == wsum(self@, st, i as int),
            decreases end_index - i,
        {
            let this = self.0[i];
            let next = self.0[i + 1];
            let dt = next.t - this.t;
            proof {
                assert(0 < dt as int <= 2 * TIME_BOUND);
                assert(-VAL_BOUND * dt as int <= this.v as int * dt as int
                    <= VAL_BOUND * dt as int) by (nonlinear_arith)
                    requires
                        -VAL_BOUND <= this.v as int <= VAL_BOUND,
                        0 <= dt as int,
                ;
                lemma_wsum_bound(self@, st, i as int);
                lemma_wsum_snoc(self@, st, i as int);
            }
            sum = sum + this.v as i128 * dt as i128;
            i = i + 1;
        }
        let total = self.0[end_index].t - self.0[start_index].t;
        Ratio { num: sum, den: total as i128 }
    }

    /// The annualized rate of change between the samples resolved for
    /// `time - duration` and `time`, oriented start over end: a value that
    /// falls across the window yields a positive rate.  Answers zero when no
    /// sample lies at or before `time`, and fails with `DivisionByZero` when
    /// the sample resolved at `time` has value zero.
    pub fn get_inflation(&self, duration: i64, time: i64) -> (r: Result<Ratio, TimeFuncError>)
        requires
            valid(self@),
            self@.len() > 0,
            -TIME_BOUND <= time <= TIME_BOUND,
            0 <= duration <= 4 * TIME_BOUND,
        ensures
            inflation_post(self@, duration as int, time as int, r),
    {
        let end_index = self.get_index_safe(time);
        if end_index == 0 {
            return Ok(Ratio::whole(0));
        }
        let mut start_index = self.get_index_safe(time - duration);
        if end_index == start_index {
            start_index = end_index - 1;
        }
        proof {
            lemma_safe_monotone(self@, time as int - duration as int, time as int);
        }
        let end = self.0[end_index];
        let start = self.0[start_index];
        if end.v == 0 {
            return Err(TimeFuncError::DivisionByZero);
        }
        let dt = end.t - start.t;
        proof {
            assert(0 < dt as int <= 2 * TIME_BOUND);
            assert(
                -2 * VAL_BOUND * TIME_BOUND <= end.v as int * dt as int
                    <= 2 * VAL_BOUND * TIME_BOUND
            )
                by (nonlinear_arith)
                requires
                    -VAL_BOUND <= end.v as int <= VAL_BOUND,
                    0 < dt as int <= 2 * TIME_BOUND,
            ;
            let ghost ev: int = end.v as int;
            let ghost dti: int = dt as int;
            assert(ev > 0 ==> ev * dti > 0) by (nonlinear_arith)
                requires
                    0 < dti,
            ;
            assert(ev < 0 ==> ev * dti < 0) by (nonlinear_arith)
                requires
                    0 < dti,
            ;
            assert(
                -2 * VAL_BOUND * (SECONDS_PER_YEAR as int) <= (start.v - end.v) as int
                    * (SECONDS_PER_YEAR as int) <= 2 * VAL_BOUND * (SECONDS_PER_YEAR as int)
            )
                by (nonlinear_arith)
                requires
                    -2 * VAL_BOUND <= (start.v - end.v) as int <= 2 * VAL_BOUND,
            ;
        }
        let num = (start.v - end.v) as i128 * SECONDS_PER_YEAR as i128;
        let den = end.v as i128 * dt as i128;
        if den > 0 {
            Ok(Ratio { num, den })
        } else {
            Ok(Ratio { num: -num, den: -den })
        }
    }
}

/// What `get_inflation_interpolated` answers: `DivisionByZero` when the
/// interpolated value at `time` is zero; otherwise exactly
/// `(start / end - 1) * SECONDS_PER_YEAR / duration` over the interpolated
/// values at `time - duration` and `time`, as a sign-normalized fraction.
pub open spec fn inflation_interp_post(
    s: Seq<Sample>,
    duration: int,
    time: int,
    r: Result<Ratio, TimeFuncError>,
) -> bool {
    let ps = interp_num(s, time - duration);
    let ds = interp_den(s, time - duration);
    let pe = interp_num(s, time);
    let de = interp_den(s, time);
    if pe == 0 {
        match r {
            Ok(_) => false,
            Err(x) => x == TimeFuncError::DivisionByZero,
        }
    } else {
        let num = (ps * de - pe * ds) * (SECONDS_PER_YEAR as int);
        let den = ds * pe * duration;
        match r {
            Ok(f) => f.wf() && if den > 0 {
                f.num == num && f.den == den
            } else {
                f.num == -num && f.den == -den
            },
            Err(_) => false,
        }
    }
}

impl TimeFunc {
    /// The annualized rate of change between the exact interpolated values
    /// at `time - duration` and `time`, oriented start over end and scaled
    /// by the requested `duration` (no index snapping).  Fails with
    /// `DivisionByZero` when the interpolated value at `time` is zero.
    pub fn get_inflation_interpolated(&self, duration: i64, time: i64) -> (r: Result<
        Ratio,
        TimeFuncError,
    >)
        requires
            valid(self@),
            self@.len() > 0,
            -TIME_BOUND <= time <= TIME_BOUND,
            0 < duration <= 4 * TIME_BOUND,
        ensures
            inflation_interp_post(self@, duration as int, time as int, r),
    {
        let start = self.get_value_interpolated(time - duration);
        let end = self.get_value_interpolated(time);
        if end.num == 0 {
            return Err(TimeFuncError::DivisionByZero);
        }
        proof {
            crate::value::lemma_interp_bounds(self@, time as int - duration as int);
            crate::value::lemma_interp_bounds(self@, time as int);
            let b1: int = 6 * VAL_BOUND * TIME_BOUND;
            let b2: int = 2 * TIME_BOUND;
            assert(b1 == 54043195528445952);
            assert(b2 == 17179869184);
            assert(b1 * b2 == 928455029464035206174343168) by (nonlinear_arith)
                requires
                    b1 == 54043195528445952,
                    b2 == 17179869184,
            ;
            assert(
                -b1 * b2 <= start.num as int * end.den as int <= b1 * b2
            )
                by (nonlinear_arith)
                requires
                    -b1 <= start.num as int <= b1,
                    0 < end.den as int <= b2,
                    b1 == 6 * VAL_BOUND * TIME_BOUND,
                    b2 == 2 * TIME_BOUND,
            ;
            assert(
                -b1 * b2 <= end.num as int * start.den as int <= b1 * b2
            )
                by (nonlinear_arith)
                requires
                    -b1 <= end.num as int <= b1,
                    0 < start.den as int <= b2,
                    b1 == 6 * VAL_BOUND * TIME_BOUND,
                    b2 == 2 * TIME_BOUND,
            ;
            let diff: int = start.num as int * end.den as int - end.num as int
                * start.den as int;
            assert(
                -2 * b1 * b2 * (SECONDS_PER_YEAR as int) <= diff * (SECONDS_PER_YEAR as int)
                    <= 2 * b1 * b2 * (SECONDS_PER_YEAR as int)
            )
                by (nonlinear_arith)
                requires
                    -2 * b1 * b2 <= diff <= 2 * b1 * b2,
                    b1 == 6 * VAL_BOUND * TIME_BOUND,
                    b2 == 2 * TIME_BOUND,
            ;
            let m1: int = start.den as int * end.num as int;
            assert(-b1 * b2 <= m1 <= b1 * b2) by (nonlinear_arith)
                requires
                    -b1 <= end.num as int <= b1,
                    0 < start.den as int <= b2,
                    m1 == start.den as int * end.num as int,
            ;
            assert(if end.num as int > 0 {
                m1 > 0
            } else {
                m1 < 0
            }) by (nonlinear_arith)
                requires
                    0 < start.den as int,
                    end.num as int != 0,
                    m1 == start.den as int * end.num as int,
            ;
            let m2: int = m1 * duration as int;
            assert(if m1 > 0 {
                m2 > 0
            } else {
                m2 < 0
            }) by (nonlinear_arith)
                requires
                    m1 != 0,
                    0 < duration as int,
                    m2 == m1 * duration as int,
            ;
        }
        let num = (start.num * end.den - end.num * start.den) * SECONDS_PER_YEAR as i128;
        let first = start.den * end.num;
        assert(-928455029464035206174343168 <= first as int <= 928455029464035206174343168);
        assert(-31901471898837980949691369446728269824 <= first as int * (duration as int)
            <= 31901471898837980949691369446728269824) by (nonlinear_arith)
            requires
                -928455029464035206174343168 <= first as int <= 928455029464035206174343168,
                0 < duration as int <= 34359738368,
        ;
        let den = first * duration as i128;
        if den > 0 {
            Ok(Ratio { num, den })
        } else {
            Ok(Ratio { num: -num, den: -den })
        }
    }
}

/// What `get_inflation` answers: zero when nothing lies at or before `time`;
/// `DivisionByZero` when the sample resolved at `time` has value zero;
/// otherwise exactly `(v_start - v_end) * SECONDS_PER_YEAR / (v_end * dt)`
/// over the resolved samples, as a sign-normalized fraction.
pub open spec fn inflation_post(
    s: Seq<Sample>,
    duration: int,
    time: int,
    r: Result<Ratio, TimeFuncError>,
) -> bool {
    let e = safe_idx(s, time);
    let st0 = safe_idx(s, time - duration);
    let st = if st0 == e {
        e - 1
    } else {
        st0
    };
    if e == 0 {
        match r {
            Ok(f) => f.is_whole(0),
            Err(_) => false,
        }
    } else if s[e].v == 0 {
        match r {
            Ok(_) => false,
            Err(x) => x == TimeFuncError::DivisionByZero,
        }
    } else {
        let num = (s[st].v - s[e].v) * (SECONDS_PER_YEAR as int);
        let den = s[e].v * (s[e].t - s[st].t);
        match r {
            Ok(f) => f.wf() && if den > 0 {
                f.num == num && f.den == den
            } else {
                f.num == -num && f.den == -den
            },
            Err(_) => false,
        }
    }
}

} // verus!
