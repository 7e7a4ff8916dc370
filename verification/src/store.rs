//! The sample store: an ordered sequence of `(timestamp, value)` pairs.

use vstd::prelude::*;

verus! {

/// Largest magnitude a timestamp (in seconds) may have.
///
/// Together with [`VAL_BOUND`] this keeps every intermediate product of the
/// exact rational query arithmetic inside `i128`.
pub const TIME_BOUND: i64 = 8589934592;

/// Largest magnitude a sample value may have, in the caller's fixed-point
/// units.  See [`TIME_BOUND`].
pub const VAL_BOUND: i64 = 1048576;

/// One data point: the series has value `v` as of instant `t`.
///
/// A point is valid from the previous sample's timestamp (exclusive) to its
/// own timestamp (inclusive); the first point of a series is valid only at
/// its own instant.
#[derive(Clone, Copy, Debug, PartialEq, Eq, Structural)]
pub struct Sample {
    /// Timestamp, in seconds.
    pub t: i64,
    /// Value at `t`, in caller-chosen fixed-point units.
    pub v: i64,
}

/// How a store operation can fail.
#[derive(Clone, Copy, Debug, PartialEq, Eq, Structural)]
pub enum TimeFuncError {
    /// `push` was handed a timestamp not strictly beyond the current last one.
    OutOfOrderInsert,
    /// `verify` found the sequence unsorted or carrying duplicate timestamps.
    InvalidSeries,
    /// A query timestamp fell outside the recorded domain.
    OutOfRange,
    /// A query divided by a zero sample value or a zero average.
    DivisionByZero,
    /// An RMS accumulation exceeded the machine integer range.
    Overflow,
}

/// A time-ordered sequence of samples with query and aggregation operations.
///
/// The sequence is *valid* when timestamps strictly increase with position;
/// queries are specified only in that state.  A series built in bulk from
/// unordered input may transiently violate this; `verify` detects it and
/// `repair` restores it.
#[derive(Clone, Debug)]
pub struct TimeFunc(pub Vec<Sample>);

impl View for TimeFunc {
    type V = Seq<Sample>;

    open spec fn view(&self) -> Seq<Sample> {
        self.0@
    }
}

/// Every sample within the machine bounds on timestamp and value.
pub open spec fn bounded(s: Seq<Sample>) -> bool {
    forall|i: int|
        0 <= i < s.len() ==> -TIME_BOUND <= (#[trigger] s[i]).t <= TIME_BOUND
            && -VAL_BOUND <= s[i].v <= VAL_BOUND
}

/// Timestamps strictly increase with sequence position.
pub open spec fn sorted_strict(s: Seq<Sample>) -> bool {
    forall|i: int, j: int| 0 <= i < j < s.len() ==> (#[trigger] s[i]).t < (#[trigger] s[j]).t
}

/// No two adjacent samples share a timestamp.
pub open spec fn deduped(s: Seq<Sample>) -> bool {
    forall|i: int| 0 < i < s.len() ==> (#[trigger] s[i]).t != s[i - 1].t
}

/// A valid series: bounded and strictly ascending by timestamp.
pub open spec fn valid(s: Seq<Sample>) -> bool {
    bounded(s) && sorted_strict(s)
}

/// Some sample of `s` carries timestamp `x`.
pub open spec fn has_ts(s: Seq<Sample>, x: int) -> bool {
    exists|i: int| 0 <= i < s.len() && s[i].t == x
}

/// `s` with every run of adjacent samples sharing a timestamp collapsed to
/// the run's first sample.
pub open spec fn dedup_adjacent(s: Seq<Sample>) -> Seq<Sample>
    decreases s.len(),
{
    if s.len() <= 1 {
        s
    } else if s.last().t == s[s.len() - 2].t {
        dedup_adjacent(s.drop_last())
    } else {
        dedup_adjacent(s.drop_last()).push(s.last())
    }
}

/// Strict sortedness follows from strict sortedness of every adjacent pair.
proof fn lemma_gap_pair(s: Seq<Sample>, i: int, j: int)
    requires
        forall|k: int| 0 < k < s.len() ==> (#[trigger] s[k]).t > s[k - 1].t,
        0 <= i < j < s.len(),
    ensures
        s[i].t < s[j].t,
    decreases j - i,
{
    if i + 1 < j {
        lemma_gap_pair(s, i, j - 1);
    }
}

/// Strict sortedness of every adjacent pair gives it for every pair.
pub proof fn lemma_adjacent_sorted(s: Seq<Sample>)
    requires
        forall|k: int| 0 < k < s.len() ==> (#[trigger] s[k]).t > s[k - 1].t,
    ensures
        sorted_strict(s),
{
    assert forall|i: int, j: int| 0 <= i < j < s.len() implies (#[trigger] s[i]).t < (
    #[trigger] s[j]).t by {
        lemma_gap_pair(s, i, j);
    }
}

impl TimeFunc {
    /// Creates an empty series.
    pub fn new() -> (r: TimeFunc)
        ensures
            r@ =~= Seq::<Sample>::empty(),
    {
        TimeFunc(Vec::new())
    }

    /// Appends `point`, which must lie strictly beyond the current last
    /// timestamp; otherwise fails with `OutOfOrderInsert` and leaves the
    /// series unchanged.
    pub fn push(&mut self, point: Sample) -> (r: Result<(), TimeFuncError>)
        requires
            -TIME_BOUND <= point.t <= TIME_BOUND,
            -VAL_BOUND <= point.v <= VAL_BOUND,
        ensures
            match r {
                Ok(()) => {
                    &&& old(self)@.len() == 0 || point.t > old(self)@.last().t
                    &&& final(self)@ =~= old(self)@.push(point)
                },
                Err(e) => {
                    &&& e == TimeFuncError::OutOfOrderInsert
                    &&& final(self)@ =~= old(self)@
                    &&& old(self)@.len() > 0
                    &&& point.t <= old(self)@.last().t
                },
            },
    {
        if self.0.len() > 0 {
            let last = self.0[self.0.len() - 1];
            if last.t >= point.t {
                return Err(TimeFuncError::OutOfOrderInsert);
            }
        }
        self.0.push(point);
        Ok(())
    }

    /// Reports whether the series is valid: strictly ascending by timestamp
    /// with no duplicate adjacent timestamps.  Fails with `InvalidSeries`
    /// otherwise; never mutates.
    pub fn verify(&self) -> (r: Result<(), TimeFuncError>)
        ensures
            match r {
                Ok(()) => sorted_strict(self@),
                Err(e) => e == TimeFuncError::InvalidSeries && !sorted_strict(self@),
            },
    {
        let len = self.0.len();
        if len <= 1 {
            return Ok(());
        }
        let mut ok = true;
        let mut k: usize = 1;
        while k < len
            invariant
                1 <= k <= len,
                len == self@.len(),
                ok <==> (forall|i: int| 0 < i < k ==> (#[trigger] self@[i]).t > self@[i - 1].t),
            decreases len - k,
        {
            if self.0[k - 1].t >= self.0[k].t {
                ok = false;
            }
            k = k + 1;
        }
        if ok {
            proof {
                lemma_adjacent_sorted(self@);
            }
            Ok(())
        } else {
            Err(TimeFuncError::InvalidSeries)
        }
    }

    /// Reports whether no two adjacent samples share a timestamp.
    pub fn is_deduped(&self) -> (r: bool)
        ensures
            r == deduped(self@),
    {
        let len = self.0.len();
        let mut dd = true;
        let mut k: usize = 1;
        while k < len
            invariant
                1 <= k,
                k <= len || k == 1,
                len == self@.len(),
                dd <==> (forall|i: int| 0 < i < k ==> (#[trigger] self@[i]).t != self@[i
                    - 1].t),
            decreases len - k,
        {
            if self.0[k].t == self.0[k - 1].t {
                dd = false;
            }
            k = k + 1;
        }
        dd
    }

    /// Collapses every run of adjacent samples sharing a timestamp down to
    /// the run's first sample.  Does not reorder; meaningful on a sorted
    /// series.
    pub fn dedup(&mut self)
        ensures
            final(self)@ == dedup_adjacent(old(self)@),
    {
        let len = self.0.len();
        let mut out: Vec<Sample> = Vec::new();
        let mut i: usize = 0;
        while i < len
            invariant
                i <= len,
                len == self@.len(),
                self@ == old(self)@,
                out@ == dedup_adjacent(self@.take(i as int)),
                out@.len() == 0 <==> i == 0,
                i > 0 ==> out@.len() > 0 && out@.last().t == self@[i as int - 1].t,
            decreases len - i,
        {
            let p = self.0[i];
            proof {
                assert(self@.take(i as int + 1).drop_last() =~= self@.take(i as int));
                assert(self@.take(i as int + 1).last() == self@[i as int]);
            }
            if i == 0 {
                out.push(p);
            } else {
                let lt = out[out.len() - 1].t;
                if lt != p.t {
                    out.push(p);
                }
            }
            i = i + 1;
        }
        proof {
            assert(self@.take(len as int) =~= self@);
        }
        self.0 = out;
    }

    /// Restores validity after bulk construction: orders the samples by
    /// timestamp (keeping one sample per timestamp; which of several
    /// sharing one survives is unspecified) so that `verify` succeeds
    /// afterward.
    pub fn repair(&mut self)
        requires
            bounded(old(self)@),
        ensures
            valid(final(self)@),
            forall|k: int|
                0 <= k < final(self)@.len() ==> old(self)@.contains(
                    #[trigger] final(self)@[k],
                ),
            forall|x: int| has_ts(final(self)@, x) <==> has_ts(old(self)@, x),
    {
        let len = self.0.len();
        let mut out: Vec<Sample> = Vec::new();
        let mut i: usize = 0;
        while i < len
            invariant
                i <= len,
                len == self@.len(),
                self@ == old(self)@,
                bounded(self@),
                sorted_strict(out@),
                bounded(out@),
                out@.len() <= i,
                forall|k: int| 0 <= k < out@.len() ==> self@.contains(#[trigger] out@[k]),
                forall|x: int| has_ts(out@, x) <==> has_ts(self@.take(i as int), x),
            decreases len - i,
        {
            let p = self.0[i];
            let n = out.len();
            let mut j: usize = 0;
            while j < n && out[j].t < p.t
                invariant
                    j <= n,
                    n == out@.len(),
                    forall|k: int| 0 <= k < j ==> (#[trigger] out@[k]).t < p.t,
                decreases n - j,
            {
                j = j + 1;
            }
            let ghost old_out = out@;
            proof {
                assert(self@.take(i as int + 1).drop_last() =~= self@.take(i as int));
                assert(self@.take(i as int + 1).last() == self@[i as int]);
            }
            if j < n && out[j].t == p.t {
                proof {
                    assert(has_ts(out@, p.t as int));
                }
            } else {
                out.insert(j, p);
                proof {
                    old_out.insert_ensures(j as int, p);
                    assert forall|a: int, b: int|
                        0 <= a < b < out@.len() implies (#[trigger] out@[a]).t < (
                    #[trigger] out@[b]).t by {
                        if b < j {
                            assert(out@[a] == old_out[a] && out@[b] == old_out[b]);
                        } else if a > j {
                            assert(out@[a] == old_out[a - 1] && out@[b] == old_out[b - 1]);
                        } else if a < j && b == j {
                            assert(out@[a] == old_out[a]);
                            assert(out@[b] == p);
                        } else if a == j && b > j {
                            assert(out@[a] == p);
                            assert(out@[b] == old_out[b - 1]);
                            assert(old_out[b - 1].t >= p.t);
                            assert(old_out[b - 1].t != p.t);
                        } else if a < j && b > j {
                            assert(out@[a] == old_out[a]);
                            assert(out@[b] == old_out[b - 1]);
                            assert(old_out[a].t < p.t);
                            assert(old_out[b - 1].t >= p.t);
                            assert(old_out[b - 1].t != p.t);
                        }
                    }
                    assert forall|x: int| has_ts(out@, x) implies has_ts(
                        self@.take(i as int + 1),
                        x,
                    ) by {
                        let w = choose|w: int| 0 <= w < out@.len() && out@[w].t == x;
                        if w < j {
                            assert(out@[w] == old_out[w]);
                            assert(has_ts(old_out, x));
                        } else if w == j {
                            assert(self@.take(i as int + 1)[i as int].t == x);
                        } else {
                            assert(out@[w] == old_out[w - 1]);
                            assert(has_ts(old_out, x));
                        }
                    }
                    assert forall|x: int| has_ts(self@.take(i as int + 1), x) implies has_ts(
                        out@,
                        x,
                    ) by {
                        let w = choose|w: int|
                            0 <= w < i as int + 1 && (#[trigger] self@.take(i as int + 1)[w]).t
                                == x;
                        if w < i as int {
                            assert(self@.take(i as int)[w].t == x);
                            assert(has_ts(self@.take(i as int), x));
                            assert(has_ts(old_out, x));
                            let u = choose|u: int|
                                0 <= u < old_out.len() && (#[trigger] old_out[u]).t == x;
                            if u < j {
                                assert(out@[u] == old_out[u]);
                            } else {
                                assert(out@[u + 1] == old_out[u]);
                            }
                        } else {
                            assert(out@[j as int] == p);
                        }
                    }
                    assert forall|k: int| 0 <= k < out@.len() implies self@.contains(
                        #[trigger] out@[k],
                    ) by {
                        if k < j {
                            assert(out@[k] == old_out[k]);
                        } else if k > j {
                            assert(out@[k] == old_out[k - 1]);
                        } else {
                            assert(out@[k] == p);
                            assert(self@[i as int] == p);
                        }
                    }
                }
            }
            i = i + 1;
        }
        proof {
            assert(self@.take(len as int) =~= self@);
        }
        self.0 = out;
    }

    /// The closed range `[minimum value, maximum value]` over all samples.
    /// The series must be non-empty.
    pub fn get_range(&self) -> (r: (i64, i64))
        requires
            self@.len() > 0,
        ensures
            forall|i: int| 0 <= i < self@.len() ==> r.0 <= (#[trigger] self@[i]).v <= r.1,
            exists|i: int| 0 <= i < self@.len() && (#[trigger] self@[i]).v == r.0,
            exists|i: int| 0 <= i < self@.len() && (#[trigger] self@[i]).v == r.1,
    {
        let mut max = self.0[0].v;
        let mut min = self.0[0].v;
        let mut i: usize = 1;
        while i < self.0.len()
            invariant
                1 <= i <= self@.len(),
                forall|k: int| 0 <= k < i ==> min <= (#[trigger] self@[k]).v <= max,
                exists|k: int| 0 <= k < i && (#[trigger] self@[k]).v == min,
                exists|k: int| 0 <= k < i && (#[trigger] self@[k]).v == max,
            decreases self@.len() - i,
        {
            let val = self.0[i].v;
            if val > max {
                max = val;
            } else if val < min {
                min = val;
            }
            i = i + 1;
        }
        (min, max)
    }

    /// The closed range `[first timestamp, last timestamp]` of the recorded
    /// domain.  The series must be non-empty.
    pub fn get_domain(&self) -> (r: (i64, i64))
        requires
            self@.len() > 0,
        ensures
            r.0 == self@[0].t,
            r.1 == self@.last().t,
    {
        (self.0[0].t, self.0[self.0.len() - 1].t)
    }
}

impl From<Vec<Sample>> for TimeFunc {
    /// Wraps a raw sample vector, ordered or not; `verify` and `repair`
    /// deal with unordered input.
    fn from(input: Vec<Sample>) -> (r: TimeFunc) {
        TimeFunc(input)
    }
}

impl vstd::std_specs::convert::FromSpecImpl<Vec<Sample>> for TimeFunc {
    open spec fn obeys_from_spec() -> bool {
        true
    }

    open spec fn from_spec(input: Vec<Sample>) -> TimeFunc {
        TimeFunc(input)
    }
}

} // verus!
