//! Normalized root-mean-square of relative deviation from the moving
//! average, in fixed-point precision.

use vstd::prelude::*;

use crate::aggregate::{lemma_ma_bounds, lemma_safe_monotone, ma_den, ma_num};
use crate::index::safe_idx;
use crate::ratio::Ratio;
use crate::store::{valid, Sample, TimeFunc, TimeFuncError, TIME_BOUND, VAL_BOUND};
use vstd::arithmetic::div_mod::{
    lemma_div_basics_4, lemma_div_basics_5, lemma_fundamental_div_mod,
};

verus! {

/// Fixed-point scale of the RMS result: the answer is a whole number of
/// millionths.
pub const RMS_SCALE: i64 = 1000000;

/// Truncating (round toward zero) integer division, matching what machine
/// signed division computes.  Unused for `b == 0`.
pub open spec fn tdiv(a: int, b: int) -> int {
    if a == 0 {
        0
    } else if a > 0 && b > 0 {
        a / b
    } else if a < 0 && b < 0 {
        (a * -1) / (b * -1)
    } else if a < 0 {
        ((a * -1) / b) * -1
    } else {
        (a / (b * -1)) * -1
    }
}

/// Truncating division never grows the magnitude when the divisor is a
/// nonzero integer.
pub proof fn lemma_tdiv_bound(a: int, b: int)
    requires
        b != 0,
    ensures
        -1 * (if a >= 0 {
            a
        } else {
            -a
        }) <= tdiv(a, b) <= (if a >= 0 {
            a
        } else {
            -a
        }),
{
    if a > 0 && b > 0 {
        lemma_div_basics_4(a, b);
        lemma_div_basics_5(a, b);
    } else if a < 0 && b < 0 {
        lemma_div_basics_4(a * -1, b * -1);
        lemma_div_basics_5(a * -1, b * -1);
    } else if a < 0 {
        lemma_div_basics_4(a * -1, b);
        lemma_div_basics_5(a * -1, b);
    } else if a > 0 {
        lemma_div_basics_4(a, b * -1);
        lemma_div_basics_5(a, b * -1);
    }
}

/// The scaled relative deviation of sample `i` from the average `n / d`:
/// `(v_i - n/d) / (n/d)`, times `RMS_SCALE`, truncated to an integer.
pub open spec fn rms_dev(s: Seq<Sample>, i: int, n: int, d: int) -> int {
    tdiv((s[i].v * d - n) * (RMS_SCALE as int), n)
}

/// The sum over index range `[a, b)` of each interval's seconds times the
/// squared scaled relative deviation of its left sample.
pub open spec fn rms_sum(s: Seq<Sample>, a: int, b: int, n: int, d: int) -> int
    decreases b - a,
{
    if a >= b {
        0
    } else {
        rms_dev(s, a, n, d) * rms_dev(s, a, n, d) * (s[a + 1].t - s[a].t) + rms_sum(
            s,
            a + 1,
            b,
            n,
            d,
        )
    }
}

/// Extending an RMS sum by one interval on the right.
pub proof fn lemma_rms_sum_snoc(s: Seq<Sample>, a: int, b: int, n: int, d: int)
    requires
        a <= b,
    ensures
        rms_sum(s, a, b + 1, n, d) == rms_sum(s, a, b, n, d) + rms_dev(s, b, n, d) * rms_dev(
            s,
            b,
            n,
            d,
        ) * (s[b + 1].t - s[b].t),
    decreases b - a,
{
    if a < b {
        lemma_rms_sum_snoc(s, a + 1, b, n, d);
    } else {
        assert(rms_sum(s, a, b, n, d) == 0);
        assert(rms_sum(s, b + 1, b + 1, n, d) == 0);
        assert(rms_sum(s, a, b + 1, n, d) == rms_dev(s, b, n, d) * rms_dev(s, b, n, d) * (s[b
            + 1].t - s[b].t) + rms_sum(s, b + 1, b + 1, n, d));
    }
}

/// Every RMS sum over a sorted range is nonnegative: each term is a square
/// times a positive interval width.
pub proof fn lemma_rms_sum_nonneg(s: Seq<Sample>, a: int, b: int, n: int, d: int)
    requires
        valid(s),
        0 <= a,
        b < s.len(),
    ensures
        rms_sum(s, a, b, n, d) >= 0,
    decreases b - a,
{
    if a < b {
        lemma_rms_sum_nonneg(s, a + 1, b, n, d);
        let dev = rms_dev(s, a, n, d);
        let dt = s[a + 1].t - s[a].t;
        assert(0 < dt);
        assert(dev * dev * dt >= 0) by (nonlinear_arith)
            requires
                0 < dt,
        ;
    }
}

/// An RMS sum over a sorted range splits at any interior point.
pub proof fn lemma_rms_sum_split(s: Seq<Sample>, a: int, c: int, b: int, n: int, d: int)
    requires
        a <= c <= b,
    ensures
        rms_sum(s, a, b, n, d) == rms_sum(s, a, c, n, d) + rms_sum(s, c, b, n, d),
    decreases c - a,
{
    if a < c {
        lemma_rms_sum_split(s, a + 1, c, b, n, d);
    } else {
        assert(rms_sum(s, a, c, n, d) == 0);
    }
}

/// Largest `r` with `r * r <= x`, by bisection.
fn isqrt_u128(x: u128) -> (r: u128)
    ensures
        r * r <= x,
        x < (r + 1) * (r + 1),
        r < 0x10000000000000000,
{
    if x < 2 {
        proof {
            assert(x * x <= x) by (nonlinear_arith)
                requires
                    x <= 1,
            ;
            assert(x < (x + 1) * (x + 1)) by (nonlinear_arith)
                requires
                    0 <= x,
            ;
        }
        return x;
    }
    let mut lo: u128 = 1;
    let mut hi: u128 = if x < 0x10000000000000000 {
        x
    } else {
        0x10000000000000000
    };
    proof {
        if x >= 0x10000000000000000 {
            assert(x < 0x10000000000000000 * 0x10000000000000000) by (nonlinear_arith)
                requires
                    x <= 0xffffffffffffffffffffffffffffffff,
            ;
        } else {
            assert(x < x * x) by (nonlinear_arith)
                requires
                    2 <= x,
            ;
        }
    }
    while lo + 1 < hi
        invariant
            1 <= lo < hi <= 0x10000000000000000,
            lo * lo <= x,
            x < hi * hi,
        decreases hi - lo,
    {
        let mid = lo + (hi - lo) / 2;
        proof {
            assert(lo < mid < hi);
            assert(mid * mid < 0x100000000000000000000000000000000) by (nonlinear_arith)
                requires
                    mid <= 0xffffffffffffffff,
            ;
        }
        if mid * mid <= x {
            lo = mid;
        } else {
            hi = mid;
        }
    }
    lo
}

/// What `get_rms` answers.  With fewer than two samples at or before `time`
/// the answer is zero.  A zero moving average cannot be deviated from
/// relatively, so it fails with `DivisionByZero`; an accumulated sum beyond
/// the machine integer range fails with `Overflow`.  Otherwise the answer
/// is the largest multiple of `1 / RMS_SCALE` whose square is at most the
/// time-weighted mean of the squared scaled relative deviations over the
/// resolved window.
pub open spec fn rms_post(
    s: Seq<Sample>,
    duration: int,
    time: int,
    r: Result<Ratio, TimeFuncError>,
) -> bool {
    let e = safe_idx(s, time);
    let st0 = safe_idx(s, time - duration);
    let st = if st0 == e {
        e - 1
    } else {
        st0
    };
    let n = ma_num(s, time, duration);
    let d = ma_den(s, time, duration);
    let total = s[e].t - s[st].t;
    if e < 2 {
        match r {
            Ok(f) => f.is_whole(0),
            Err(_) => false,
        }
    } else if n == 0 {
        match r {
            Ok(_) => false,
            Err(x) => x == TimeFuncError::DivisionByZero,
        }
    } else if rms_sum(s, st, e, n, d) > i128::MAX {
        match r {
            Ok(_) => false,
            Err(x) => x == TimeFuncError::Overflow,
        }
    } else {
        match r {
            Ok(f) => {
                &&& f.den == RMS_SCALE as int
                &&& f.num >= 0
                &&& f.num * f.num * total <= rms_sum(s, st, e, n, d)
                &&& rms_sum(s, st, e, n, d) < (f.num + 1) * (f.num + 1) * total
            },
            Err(_) => false,
        }
    }
}

impl TimeFunc {
    /// The normalized RMS of relative deviation from the moving average
    /// over the window resolved from `(time - duration, time)`, as a
    /// fixed-point multiple of `1 / RMS_SCALE` (no interpolation).
    pub fn get_rms(&self, duration: i64, time: i64) -> (r: Result<Ratio, TimeFuncError>)
        requires
            valid(self@),
            self@.len() > 0,
            -TIME_BOUND <= time <= TIME_BOUND,
            0 <= duration <= 4 * TIME_BOUND,
        ensures
            rms_post(self@, duration as int, time as int, r),
    {
        let average = self.get_moving_average(time, duration);
        let end_index = self.get_index_safe(time);
        let mut start_index = self.get_index_safe(time - duration);
        if end_index < 2 {
            return Ok(Ratio::whole(0));
        }
        if end_index == start_index {
            start_index = end_index - 1;
        }
        proof {
            lemma_safe_monotone(self@, time as int - duration as int, time as int);
            lemma_ma_bounds(self@, time as int, duration as int);
        }
        let n = average.num;
        let d = average.den;
        if n == 0 {
            return Err(TimeFuncError::DivisionByZero);
        }
        let ghost sv = self@;
        let ghost st = start_index as int;
        let ghost ei = end_index as int;
        let mut acc: i128 = 0;
        let mut i: usize = start_index;
        while i < end_index
            invariant
                valid(sv),
                sv == self@,
                st == start_index as int,
                ei == end_index as int,
                start_index <= i <= end_index < self@.len(),
                2 <= end_index,
                ei == safe_idx(sv, time as int),
                st == (if safe_idx(sv, time as int - duration as int) == ei {
                    ei - 1
                } else {
                    safe_idx(sv, time as int - duration as int)
                }),
                n == ma_num(sv, time as int, duration as int),
                d == ma_den(sv, time as int, duration as int),
                n != 0,
                -36028797018963968 <= n as int <= 36028797018963968,
                1 <= d as int <= 17179869184,
                -TIME_BOUND <= time <= TIME_BOUND,
                acc == rms_sum(sv, st, i as int, n as int, d as int),
                acc >= 0,
            decreases end_index - i,
        {
            let this = self.0[i];
            let next = self.0[i + 1];
            let dt = next.t - this.t;
            proof {
                assert(0 < dt as int <= 17179869184);
                assert(
                    -18014398509481984 <= this.v as int * d as int <= 18014398509481984
                ) by (nonlinear_arith)
                    requires
                        -1048576 <= this.v as int <= 1048576,
                        0 < d as int <= 17179869184,
                ;
            }
            let dev = this.v as i128 * d - n;
            proof {
                assert(-54043195528445952 <= dev as int <= 54043195528445952);
                assert(RMS_SCALE as int == 1000000);
                assert(-54043195528445952000000 <= dev as int * 1000000
                    <= 54043195528445952000000) by (nonlinear_arith)
                    requires
                        -54043195528445952 <= dev as int <= 54043195528445952,
                ;
            }
            let scaled = dev * RMS_SCALE as i128;
            proof {
                lemma_tdiv_bound(scaled as int, n as int);
            }
            let rq = match scaled.checked_div(n) {
                Some(q) => q,
                None => {
                    return Err(TimeFuncError::Overflow);
                },
            };
            proof {
                assert(rq as int == rms_dev(sv, i as int, n as int, d as int));
                lemma_rms_sum_snoc(sv, st, i as int, n as int, d as int);
                lemma_rms_sum_split(sv, st, i as int, ei, n as int, d as int);
                lemma_rms_sum_nonneg(sv, i as int + 1, ei, n as int, d as int);
                assert(rms_sum(sv, i as int, ei, n as int, d as int) == rms_dev(
                    sv,
                    i as int,
                    n as int,
                    d as int,
                ) * rms_dev(sv, i as int, n as int, d as int) * (sv[i as int + 1].t
                    - sv[i as int].t) + rms_sum(sv, i as int + 1, ei, n as int, d as int));
            }
            let sq = match rq.checked_mul(rq) {
                Some(v) => v,
                None => {
                    proof {
                        let rqi: int = rq as int;
                        let dti: int = dt as int;
                        assert(rqi * rqi >= 0) by (nonlinear_arith);
                        assert(rqi * rqi * dti >= rqi * rqi) by (nonlinear_arith)
                            requires
                                1 <= dti,
                                rqi * rqi >= 0,
                        ;
                    }
                    return Err(TimeFuncError::Overflow);
                },
            };
            proof {
                assert(sq >= 0) by (nonlinear_arith)
                    requires
                        sq as int == rq as int * rq as int,
                ;
            }
            let term = match sq.checked_mul(dt as i128) {
                Some(v) => v,
                None => {
                    proof {
                        let sqi: int = sq as int;
                        let dti: int = dt as int;
                        assert(sqi * dti > i128::MAX || sqi * dti < i128::MIN);
                        assert(sqi * dti >= 0) by (nonlinear_arith)
                            requires
                                sqi >= 0,
                                dti >= 1,
                        ;
                    }
                    return Err(TimeFuncError::Overflow);
                },
            };
            proof {
                assert(term >= 0) by (nonlinear_arith)
                    requires
                        term as int == sq as int * dt as int,
                        sq >= 0,
                        0 < dt as int,
                ;
            }
            let new_acc = match acc.checked_add(term) {
                Some(v) => v,
                None => {
                    return Err(TimeFuncError::Overflow);
                },
            };
            acc = new_acc;
            i = i + 1;
        }
        let total = self.0[end_index].t - self.0[start_index].t;
        proof {
            assert(0 < total as int <= 17179869184);
        }
        let ms = (acc as u128) / (total as u128);
        let root = isqrt_u128(ms);
        proof {
            let acci: int = acc as int;
            let ti: int = total as int;
            let msi: int = ms as int;
            let ri: int = root as int;
            lemma_fundamental_div_mod(acci, ti);
            assert(msi == acci / ti);
            assert(ri * ri <= msi);
            assert(msi < (ri + 1) * (ri + 1));
            assert(ri * ri * ti <= msi * ti) by (nonlinear_arith)
                requires
                    ri * ri <= msi,
                    ti > 0,
            ;
            assert(msi * ti <= acci) by (nonlinear_arith)
                requires
                    msi == acci / ti,
                    ti > 0,
                    acci >= 0,
                    acci == ti * (acci / ti) + acci % ti,
                    acci % ti >= 0,
            ;
            assert(acci < (msi + 1) * ti) by (nonlinear_arith)
                requires
                    msi == acci / ti,
                    ti > 0,
                    acci == ti * (acci / ti) + acci % ti,
                    acci % ti < ti,
            ;
            assert((msi + 1) * ti <= (ri + 1) * (ri + 1) * ti) by (nonlinear_arith)
                requires
                    msi + 1 <= (ri + 1) * (ri + 1),
                    ti > 0,
            ;
        }
        Ok(Ratio { num: root as i128, den: RMS_SCALE as i128 })
    }
}

} // verus!
