//! The exact trapezoidal integral of the interpolated curve, and the
//! windowed average built on it.

use vstd::prelude::*;

use crate::index::{above_idx, below_idx, lemma_count_lt, lemma_exact_at_count};
use crate::ratio::Ratio;
use crate::store::{has_ts, valid, Sample, TimeFunc, TimeFuncError, TIME_BOUND, VAL_BOUND};
use crate::value::{interp_den, interp_num, lemma_interp_bounds};

verus! {

/// Twice the trapezoid area between consecutive samples, summed over the
/// index range `[a, b)`: each interval's seconds times the sum of its two
/// endpoint values.
pub open spec fn trapsum(s: Seq<Sample>, a: int, b: int) -> int
    decreases b - a,
{
    if a >= b {
        0
    } else {
        (s[a + 1].t - s[a].t) * (s[a].v + s[a + 1].v) + trapsum(s, a + 1, b)
    }
}

/// Extending a trapezoid sum by one interval on the right.
pub proof fn lemma_trapsum_snoc(s: Seq<Sample>, a: int, b: int)
    requires
        a <= b,
    ensures
        trapsum(s, a, b + 1) == trapsum(s, a, b) + (s[b + 1].t - s[b].t) * (s[b].v + s[b + 1].v),
    decreases b - a,
{
    if a < b {
        lemma_trapsum_snoc(s, a + 1, b);
    } else {
        assert(trapsum(s, a, b) == 0);
        assert(trapsum(s, b + 1, b + 1) == 0);
        assert(trapsum(s, a, b + 1) == (s[b + 1].t - s[b].t) * (s[b].v + s[b + 1].v) + trapsum(
            s,
            b + 1,
            b + 1,
        ));
    }
}

/// The trapezoid sum is bounded by twice the largest value times the
/// spanned seconds.
pub proof fn lemma_trapsum_bound(s: Seq<Sample>, a: int, b: int)
    requires
        valid(s),
        0 <= a <= b < s.len(),
    ensures
        -2097152 * (s[b].t - s[a].t) <= trapsum(s, a, b) <= 2097152 * (s[b].t - s[a].t),
    decreases b - a,
{
    if a < b {
        lemma_trapsum_bound(s, a + 1, b);
        let dt = s[a + 1].t - s[a].t;
        let vv = s[a].v + s[a + 1].v;
        assert(0 < dt);
        assert(-2097152 <= vv <= 2097152);
        assert(trapsum(s, a, b) == dt * vv + trapsum(s, a + 1, b));
        assert(-2097152 * dt <= dt * vv <= 2097152 * dt) by (nonlinear_arith)
            requires
                -2097152 <= vv <= 2097152,
                0 <= dt,
        ;
    } else {
        assert(trapsum(s, a, b) == 0);
    }
}

/// Whether the integral window `[time - duration, time]` can be resolved:
/// some sample lies strictly before `time` and some sample lies strictly
/// after `time - duration`.
pub open spec fn integral_defined(s: Seq<Sample>, time: int, duration: int) -> bool {
    s.len() > 0 && s[0].t < time && time - duration < s[s.len() - 1].t
}

/// Numerator of the exact trapezoidal integral over `[time - duration,
/// time]`, over [`integral_den`].  The window is closed by synthetic
/// boundary points carrying the interpolated values at its two ends, and
/// trapezoid areas are summed from the synthetic start to the first sample
/// after it, across the interior samples, and from the last sample before
/// `time` to the synthetic end.
pub open spec fn integral_num(s: Seq<Sample>, time: int, duration: int) -> int {
    let stime = time - duration;
    let ps = interp_num(s, stime);
    let ds = interp_den(s, stime);
    let pe = interp_num(s, time);
    let de = interp_den(s, time);
    let si = above_idx(s, stime);
    let ei = below_idx(s, time);
    let a = (s[si].t - stime) * (ps + s[si].v * ds);
    let m = trapsum(s, si, ei);
    let b = (time - s[ei].t) * (s[ei].v * de + pe);
    a * de + m * (ds * de) + b * ds
}

/// Denominator of the exact trapezoidal integral: twice the product of the
/// two boundary interpolation denominators.
pub open spec fn integral_den(s: Seq<Sample>, time: int, duration: int) -> int {
    2 * interp_den(s, time - duration) * interp_den(s, time)
}

impl TimeFunc {
    /// The exact area under the linearly interpolated curve over
    /// `[time - duration, time]`, as a trapezoid sum between synthetic
    /// boundary points and the recorded samples between them.  Fails with
    /// `OutOfRange` unless some sample lies strictly before `time` and some
    /// sample strictly after `time - duration`.
    pub fn get_integral_interpolated(&self, time: i64, duration: i64) -> (r: Result<
        Ratio,
        TimeFuncError,
    >)
        requires
            valid(self@),
            -TIME_BOUND <= time <= TIME_BOUND,
            0 <= duration <= 4 * TIME_BOUND,
        ensures
            match r {
                Ok(f) => {
                    &&& integral_defined(self@, time as int, duration as int)
                    &&& f.num == integral_num(self@, time as int, duration as int)
                    &&& f.den == integral_den(self@, time as int, duration as int)
                    &&& f.wf()
                },
                Err(e) => {
                    &&& e == TimeFuncError::OutOfRange
                    &&& !integral_defined(self@, time as int, duration as int)
                },
            },
    {
        let len = self.0.len();
        if len == 0 {
            return Err(TimeFuncError::OutOfRange);
        }
        let start_time = time - duration;
        if !(self.0[0].t < time) || !(start_time < self.0[len - 1].t) {
            return Err(TimeFuncError::OutOfRange);
        }
        let start_val = self.get_value_interpolated(start_time);
        let end_val = self.get_value_interpolated(time);
        proof {
            lemma_count_lt(self@, start_time as int);
            lemma_count_lt(self@, time as int);
            if has_ts(self@, start_time as int) {
                lemma_exact_at_count(self@, start_time as int);
            }
            if has_ts(self@, time as int) {
                lemma_exact_at_count(self@, time as int);
            }
            assert(above_idx(self@, start_time as int) < self@.len());
            lemma_interp_bounds(self@, start_time as int);
            lemma_interp_bounds(self@, time as int);
        }
        let start_index = self.get_index_above(start_time);
        let end_index = self.get_index_below(time);
        let s_first = self.0[start_index];
        let e_last = self.0[end_index];
        let ghost si = start_index as int;
        let mut msum: i128 = 0;
        let mut current_index = start_index;
        while current_index < end_index
            invariant
                valid(self@),
                si == start_index as int,
                start_index <= current_index < self@.len(),
                current_index <= end_index || current_index == start_index,
                end_index < self@.len(),
                msum == trapsum(self@, si, current_index as int),
                -36028797018963968 <= msum as int <= 36028797018963968,
            decreases end_index - current_index,
        {
            let this = self.0[current_index];
            let next = self.0[current_index + 1];
            let dt = next.t - this.t;
            let vv = this.v + next.v;
            proof {
                assert(0 < dt as int <= 17179869184);
                assert(-2097152 <= vv as int <= 2097152);
                assert(-36028797018963968 <= dt as int * vv as int <= 36028797018963968)
                    by (nonlinear_arith)
                    requires
                        0 <= dt as int <= 17179869184,
                        -2097152 <= vv as int <= 2097152,
                ;
                lemma_trapsum_snoc(self@, si, current_index as int);
            }
            msum = msum + dt as i128 * vv as i128;
            current_index = current_index + 1;
            proof {
                assert(-TIME_BOUND <= self@[si].t <= TIME_BOUND);
                assert(-TIME_BOUND <= self@[current_index as int].t <= TIME_BOUND);
                lemma_trapsum_bound(self@, si, current_index as int);
            }
        }
        proof {
            if start_index > end_index {
                assert(trapsum(self@, si, end_index as int) == 0);
                assert(trapsum(self@, si, si) == 0);
            }
            if start_index <= end_index {
                lemma_trapsum_bound(self@, si, end_index as int);
            }
            assert(-36028797018963968 <= msum as int <= 36028797018963968);
            assert(self@[si].t > start_time as int);
            assert(self@[end_index as int].t < time as int);
        }
        let a_width = s_first.t - start_time;
        let b_width = time - e_last.t;
        proof {
            assert(0 < a_width as int <= 51539607552);
            assert(0 < b_width as int <= 17179869184);
            assert(
                -18014398509481984 <= s_first.v as int * start_val.den as int
                    <= 18014398509481984
            ) by (nonlinear_arith)
                requires
                    -1048576 <= s_first.v as int <= 1048576,
                    0 < start_val.den as int <= 17179869184,
            ;
            assert(
                -18014398509481984 <= e_last.v as int * end_val.den as int <= 18014398509481984
            ) by (nonlinear_arith)
                requires
                    -1048576 <= e_last.v as int <= 1048576,
                    0 < end_val.den as int <= 17179869184,
            ;
        }
        let a_inner = start_val.num + s_first.v as i128 * start_val.den;
        let b_inner = e_last.v as i128 * end_val.den + end_val.num;
        proof {
            assert(
                -3713820117856140824697372672 <= a_width as int * a_inner as int
                    <= 3713820117856140824697372672
            ) by (nonlinear_arith)
                requires
                    0 < a_width as int <= 51539607552,
                    -72057594037927936 <= a_inner as int <= 72057594037927936,
            ;
            assert(
                -1237940039285380274899124224 <= b_width as int * b_inner as int
                    <= 1237940039285380274899124224
            ) by (nonlinear_arith)
                requires
                    0 < b_width as int <= 17179869184,
                    -72057594037927936 <= b_inner as int <= 72057594037927936,
            ;
        }
        let a_term = a_width as i128 * a_inner;
        let b_term = b_width as i128 * b_inner;
        proof {
            assert(
                -63802943797675961899382738893456539648 <= a_term as int * end_val.den as int
                    <= 63802943797675961899382738893456539648
            ) by (nonlinear_arith)
                requires
                    -3713820117856140824697372672 <= a_term as int
                        <= 3713820117856140824697372672,
                    0 < end_val.den as int <= 17179869184,
            ;
            assert(
                0 < start_val.den as int * end_val.den as int <= 295147905179352825856
            ) by (nonlinear_arith)
                requires
                    0 < start_val.den as int <= 17179869184,
                    0 < end_val.den as int <= 17179869184,
            ;
            assert(
                -21267647932558653966460912964485513216 <= b_term as int * start_val.den as int
                    <= 21267647932558653966460912964485513216
            ) by (nonlinear_arith)
                requires
                    -1237940039285380274899124224 <= b_term as int
                        <= 1237940039285380274899124224,
                    0 < start_val.den as int <= 17179869184,
            ;
        }
        let dens = start_val.den * end_val.den;
        proof {
            assert(
                -10633823966279326983230456482242756608 <= msum as int * dens as int
                    <= 10633823966279326983230456482242756608
            ) by (nonlinear_arith)
                requires
                    -36028797018963968 <= msum as int <= 36028797018963968,
                    0 < dens as int <= 295147905179352825856,
            ;
        }
        let num = a_term * end_val.den + msum * dens + b_term * start_val.den;
        let den = 2 * dens;
        proof {
            let dsx: int = start_val.den as int;
            let dex: int = end_val.den as int;
            assert(2 * (dsx * dex) == 2 * dsx * dex) by (nonlinear_arith);
        }
        Ok(Ratio { num, den })
    }

    /// The linearly interpolated average over `[time - duration, time]`: the
    /// exact trapezoidal integral divided by the requested `duration`.
    /// Fails with `OutOfRange` exactly where the integral does.
    pub fn get_average_interpolated(&self, time: i64, duration: i64) -> (r: Result<
        Ratio,
        TimeFuncError,
    >)
        requires
            valid(self@),
            -TIME_BOUND <= time <= TIME_BOUND,
            0 < duration <= 4 * TIME_BOUND,
        ensures
            match r {
                Ok(f) => {
                    &&& integral_defined(self@, time as int, duration as int)
                    &&& f.num == integral_num(self@, time as int, duration as int)
                    &&& f.den == integral_den(self@, time as int, duration as int) * duration
                    &&& f.wf()
                },
                Err(e) => {
                    &&& e == TimeFuncError::OutOfRange
                    &&& !integral_defined(self@, time as int, duration as int)
                },
            },
    {
        match self.get_integral_interpolated(time, duration) {
            Err(e) => Err(e),
            Ok(integral) => {
                proof {
                    lemma_interp_bounds(self@, time as int - duration as int);
                    lemma_interp_bounds(self@, time as int);
                    let ds: int = interp_den(self@, time as int - duration as int);
                    let de: int = interp_den(self@, time as int);
                    assert(0 < 2 * ds * de <= 590295810358705651712) by (nonlinear_arith)
                        requires
                            0 < ds <= 17179869184,
                            0 < de <= 17179869184,
                    ;
                    assert(
                        0 < integral.den as int * duration as int
                            <= 20282409603651670423947251286016
                    ) by (nonlinear_arith)
                        requires
                            0 < integral.den as int <= 590295810358705651712,
                            0 < duration as int <= 34359738368,
                    ;
                }
                Ok(Ratio { num: integral.num, den: integral.den * duration as i128 })
            },
        }
    }
}

} // verus!
