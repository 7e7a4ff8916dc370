//! Index resolution: a binary search over timestamps and the boundary
//! policies built on it.

use vstd::prelude::*;

use crate::ratio::Ratio;
use crate::store::{
    bounded, has_ts, sorted_strict, valid, Sample, TimeFunc, TimeFuncError, TIME_BOUND,
};

verus! {

/// How many samples of `s` have a timestamp strictly below `x`.
/// For a strictly sorted sequence this is the insertion point of `x`.
pub open spec fn count_lt(s: Seq<Sample>, x: int) -> int
    decreases s.len(),
{
    if s.len() == 0 {
        0
    } else {
        count_lt(s.drop_last(), x) + if s.last().t < x {
            1int
        } else {
            0int
        }
    }
}

/// On a strictly sorted sequence, `count_lt` splits the samples into a
/// strict-below prefix and an at-or-above suffix.
pub proof fn lemma_count_lt(s: Seq<Sample>, x: int)
    requires
        sorted_strict(s),
    ensures
        0 <= count_lt(s, x) <= s.len(),
        forall|k: int| 0 <= k < count_lt(s, x) ==> (#[trigger] s[k]).t < x,
        forall|k: int| count_lt(s, x) <= k < s.len() ==> (#[trigger] s[k]).t >= x,
    decreases s.len(),
{
    if s.len() > 0 {
        let p = s.drop_last();
        assert(sorted_strict(p)) by {
            assert(forall|i: int, j: int|
                0 <= i < j < p.len() ==> (#[trigger] p[i]).t < (#[trigger] p[j]).t) by {
                assert(forall|i: int| 0 <= i < p.len() ==> p[i] == s[i]);
            }
        }
        lemma_count_lt(p, x);
        assert(forall|k: int| 0 <= k < p.len() ==> p[k] == s[k]);
        if s.last().t < x {
            assert forall|k: int| 0 <= k < p.len() implies (#[trigger] s[k]).t < x by {
                assert(s[k].t < s[s.len() - 1].t);
            }
            assert(count_lt(p, x) == p.len()) by {
                if count_lt(p, x) < p.len() {
                    assert(s[count_lt(p, x)].t >= x);
                }
            }
        }
    }
}

/// If a sample sits exactly at `x`, it sits at position `count_lt(s, x)`.
pub proof fn lemma_exact_at_count(s: Seq<Sample>, x: int)
    requires
        sorted_strict(s),
        has_ts(s, x),
    ensures
        0 <= count_lt(s, x) < s.len(),
        s[count_lt(s, x)].t == x,
{
    lemma_count_lt(s, x);
    let i = choose|i: int| 0 <= i < s.len() && s[i].t == x;
    let c = count_lt(s, x);
    if i < c {
        assert(s[i].t < x);
    }
    if i > c {
        assert(s[c].t >= x);
        assert(s[c].t < s[i].t);
    }
}

/// Strictly increasing integer timestamps grow at least one per position.
pub proof fn lemma_min_gap(s: Seq<Sample>, i: int)
    requires
        sorted_strict(s),
        0 <= i < s.len(),
    ensures
        s[i].t >= s[0].t + i,
    decreases i,
{
    if i > 0 {
        lemma_min_gap(s, i - 1);
        assert(s[i - 1].t < s[i].t);
    }
}

/// A bounded, strictly sorted sequence cannot outnumber its timestamp range.
pub proof fn lemma_len_bound(s: Seq<Sample>)
    requires
        sorted_strict(s),
        bounded(s),
    ensures
        s.len() <= 2 * TIME_BOUND + 1,
{
    if s.len() > 0 {
        lemma_min_gap(s, s.len() - 1);
    }
}

/// The index at which the timestamp `x` would be resolved by `get_index_safe`:
/// an exact hit resolves to itself, anything past the end clamps to the last
/// index, and anything else resolves to its insertion point.
pub open spec fn safe_idx(s: Seq<Sample>, x: int) -> int {
    let j = count_lt(s, x);
    if has_ts(s, x) {
        j
    } else if j == s.len() {
        s.len() - 1
    } else {
        j
    }
}

/// The index of the first sample strictly after `x` (an exact hit resolves to
/// the position after the hit); equals the count of timestamps at or below `x`.
pub open spec fn above_idx(s: Seq<Sample>, x: int) -> int {
    count_lt(s, x) + if has_ts(s, x) {
        1int
    } else {
        0int
    }
}

/// The index of the last sample strictly before `x`.
pub open spec fn below_idx(s: Seq<Sample>, x: int) -> int {
    count_lt(s, x) - 1
}

/// Whether `x` has a fractional index in `s`: either an exact hit, or a
/// position strictly inside the recorded domain.
pub open spec fn frac_defined(s: Seq<Sample>, x: int) -> bool {
    has_ts(s, x) || 0 < count_lt(s, x) < s.len()
}

/// Numerator of the fractional index of `x` in `s`, over [`frac_den`]: an
/// exact hit at position `i` is exactly `i`; an interior `x` blends the two
/// neighbouring indices linearly in elapsed time.
pub open spec fn frac_num(s: Seq<Sample>, x: int) -> int {
    let j = count_lt(s, x);
    if has_ts(s, x) {
        j
    } else {
        (j - 1) * (s[j].t - s[j - 1].t) + (x - s[j - 1].t)
    }
}

/// Denominator of the fractional index of `x` in `s`: the width of the
/// bracketing interval for interior queries, `1` for exact hits.
pub open spec fn frac_den(s: Seq<Sample>, x: int) -> int {
    let j = count_lt(s, x);
    if has_ts(s, x) {
        1
    } else {
        s[j].t - s[j - 1].t
    }
}

impl TimeFunc {
    /// Binary search over timestamps: `Ok(i)` on an exact hit at position
    /// `i`, otherwise `Err(j)` with the insertion point `j` that keeps the
    /// order.
    pub fn get_index(&self, time: i64) -> (r: Result<usize, usize>)
        requires
            sorted_strict(self@),
        ensures
            match r {
                Ok(i) => has_ts(self@, time as int) && i == count_lt(self@, time as int)
                    && i < self@.len() && self@[i as int].t == time,
                Err(j) => !has_ts(self@, time as int) && j == count_lt(self@, time as int)
                    && j <= self@.len(),
            },
    {
        proof {
            lemma_count_lt(self@, time as int);
        }
        let mut lo: usize = 0;
        let mut hi: usize = self.0.len();
        while lo < hi
            invariant
                0 <= lo <= hi <= self@.len(),
                sorted_strict(self@),
                forall|k: int| 0 <= k < lo ==> (#[trigger] self@[k]).t < time,
                forall|k: int| hi <= k < self@.len() ==> (#[trigger] self@[k]).t >= time,
            decreases hi - lo,
        {
            let mid = lo + (hi - lo) / 2;
            if self.0[mid].t < time {
                lo = mid + 1;
            } else {
                hi = mid;
            }
        }
        proof {
            let c = count_lt(self@, time as int);
            if c < lo {
                assert(self@[c].t < time);
                assert(self@[c].t >= time);
            }
            if lo < c {
                assert(self@[lo as int].t >= time);
                assert(self@[lo as int].t < time);
            }
        }
        if lo < self.0.len() && self.0[lo].t == time {
            Ok(lo)
        } else {
            proof {
                if has_ts(self@, time as int) {
                    lemma_exact_at_count(self@, time as int);
                }
            }
            Err(lo)
        }
    }

    /// The closest index at or after `time`: an insertion point past the end
    /// clamps to the last index, so any `time` before the first sample
    /// resolves to index `0` and any `time` beyond the domain to `len - 1`.
    pub fn get_index_safe(&self, time: i64) -> (r: usize)
        requires
            sorted_strict(self@),
            self@.len() > 0,
        ensures
            r as int == safe_idx(self@, time as int),
            r < self@.len(),
    {
        match self.get_index(time) {
            Ok(index) => index,
            Err(index) => {
                let len = self.0.len();
                if index == len {
                    len - 1
                } else {
                    index
                }
            },
        }
    }

    /// The index of the first sample strictly after `time` (on an exact hit,
    /// the sample after the hit).  May equal `len` when no sample lies after
    /// `time`.
    pub fn get_index_above(&self, time: i64) -> (r: usize)
        requires
            sorted_strict(self@),
        ensures
            r as int == above_idx(self@, time as int),
            r <= self@.len(),
    {
        proof {
            if has_ts(self@, time as int) {
                lemma_exact_at_count(self@, time as int);
            }
        }
        match self.get_index(time) {
            Ok(index) => {
                let n = self.0.len();
                assert(index < n);
                index + 1
            },
            Err(index) => index,
        }
    }

    /// The index of the last sample strictly before `time`.  The caller must
    /// keep `time` strictly beyond the first timestamp, so that such a sample
    /// exists.
    pub fn get_index_below(&self, time: i64) -> (r: usize)
        requires
            sorted_strict(self@),
            self@.len() > 0,
            self@[0].t < time,
        ensures
            r as int == below_idx(self@, time as int),
            r < self@.len(),
    {
        proof {
            lemma_count_lt(self@, time as int);
            let c = count_lt(self@, time as int);
            if c == 0 {
                assert(self@[0].t >= time);
            }
        }
        match self.get_index(time) {
            Ok(index) => index - 1,
            Err(index) => index - 1,
        }
    }

    /// The real-valued position of `time` in the series: an exact hit at
    /// position `i` answers exactly `i`, a `time` strictly between two
    /// samples blends their indices linearly in elapsed time, and a `time`
    /// before the first or after the last sample fails with `OutOfRange`.
    pub fn get_fractional_index(&self, time: i64) -> (r: Result<Ratio, TimeFuncError>)
        requires
            valid(self@),
            -TIME_BOUND <= time <= TIME_BOUND,
        ensures
            match r {
                Ok(f) => {
                    &&& frac_defined(self@, time as int)
                    &&& f.num == frac_num(self@, time as int)
                    &&& f.den == frac_den(self@, time as int)
                    &&& f.wf()
                },
                Err(e) => {
                    &&& e == TimeFuncError::OutOfRange
                    &&& !frac_defined(self@, time as int)
                },
            },
    {
        match self.get_index(time) {
            Ok(index) => {
                proof {
                    lemma_len_bound(self@);
                }
                Ok(Ratio::whole(index as i64))
            },
            Err(index) => {
                let len = self.0.len();
                if index == len || index == 0 {
                    Err(TimeFuncError::OutOfRange)
                } else {
                    let lower = self.0[index - 1];
                    let upper = self.0[index];
                    proof {
                        lemma_count_lt(self@, time as int);
                        lemma_len_bound(self@);
                        let ji: int = index as int - 1;
                        let dti: int = upper.t - lower.t;
                        assert(0 <= ji <= 2 * TIME_BOUND);
                        assert(0 < dti <= 2 * TIME_BOUND);
                        assert(0 <= ji * dti <= 2 * TIME_BOUND * (2 * TIME_BOUND))
                            by (nonlinear_arith)
                            requires
                                0 <= ji <= 2 * TIME_BOUND,
                                0 <= dti <= 2 * TIME_BOUND,
                        ;
                    }
                    let time_step = upper.t - lower.t;
                    let difference = time - lower.t;
                    let num = (index - 1) as i128 * time_step as i128 + difference as i128;
                    Ok(Ratio { num, den: time_step as i128 })
                }
            },
        }
    }
}

} // verus!
