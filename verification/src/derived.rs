//! Derived series: an aggregate mapped across every sample timestamp from
//! the second sample onward.

use vstd::prelude::*;

use crate::aggregate::{inflation_interp_post, inflation_post};
use crate::ratio::Ratio;
use crate::rms::rms_post;
use crate::store::{valid, TimeFunc, TimeFuncError, TIME_BOUND};

verus! {

/// One point of a derived series: a timestamp and the exact aggregate value
/// computed at it.
#[derive(Clone, Copy, Debug, PartialEq, Eq, Structural)]
pub struct DerivedSample {
    /// Timestamp, in seconds, of the source sample this point was computed at.
    pub t: i64,
    /// The aggregate's value at `t`.
    pub v: Ratio,
}

/// A series derived from a [`TimeFunc`]: one output point per input sample
/// from the second sample onward, in input order.
#[derive(Clone, Debug)]
pub struct DerivedFunc(pub Vec<DerivedSample>);

impl View for DerivedFunc {
    type V = Seq<DerivedSample>;

    open spec fn view(&self) -> Seq<DerivedSample> {
        self.0@
    }
}

impl TimeFunc {
    /// Maps `get_rms` with the given window across every sample timestamp
    /// from the second sample onward.  The first failing timestamp's error
    /// is returned instead.
    pub fn get_rms_timefunc(&self, duration: i64) -> (r: Result<DerivedFunc, TimeFuncError>)
        requires
            valid(self@),
            0 <= duration <= 4 * TIME_BOUND,
        ensures
            match r {
                Ok(df) => {
                    &&& df@.len() == (if self@.len() == 0 {
                        0int
                    } else {
                        self@.len() - 1
                    })
                    &&& forall|k: int|
                        0 <= k < df@.len() ==> (#[trigger] df@[k]).t == self@[k + 1].t
                            && rms_post(
                            self@,
                            duration as int,
                            self@[k + 1].t as int,
                            Ok(df@[k].v),
                        )
                },
                Err(e) => exists|k: int|
                    1 <= k < self@.len() && rms_post(
                        self@,
                        duration as int,
                        (#[trigger] self@[k]).t as int,
                        Err(e),
                    ),
            },
    {
        let mut out: Vec<DerivedSample> = Vec::new();
        let mut i: usize = 1;
        while i < self.0.len()
            invariant
                valid(self@),
                0 <= duration <= 4 * TIME_BOUND,
                1 <= i,
                i <= self@.len() || i == 1,
                out@.len() == i - 1,
                forall|k: int|
                    0 <= k < out@.len() ==> (#[trigger] out@[k]).t == self@[k + 1].t
                        && rms_post(self@, duration as int, self@[k + 1].t as int, Ok(out@[k].v)),
            decreases self@.len() - i,
        {
            let time = self.0[i].t;
            match self.get_rms(duration, time) {
                Ok(v) => {
                    out.push(DerivedSample { t: time, v });
                },
                Err(e) => {
                    return Err(e);
                },
            }
            i = i + 1;
        }
        Ok(DerivedFunc(out))
    }

    /// Maps `get_inflation` with the given window across every sample
    /// timestamp from the second sample onward.  The first failing
    /// timestamp's error is returned instead.
    pub fn get_inflation_timefunc(&self, duration: i64) -> (r: Result<
        DerivedFunc,
        TimeFuncError,
    >)
        requires
            valid(self@),
            0 <= duration <= 4 * TIME_BOUND,
        ensures
            match r {
                Ok(df) => {
                    &&& df@.len() == (if self@.len() == 0 {
                        0int
                    } else {
                        self@.len() - 1
                    })
                    &&& forall|k: int|
                        0 <= k < df@.len() ==> (#[trigger] df@[k]).t == self@[k + 1].t
                            && inflation_post(
                            self@,
                            duration as int,
                            self@[k + 1].t as int,
                            Ok(df@[k].v),
                        )
                },
                Err(e) => exists|k: int|
                    1 <= k < self@.len() && inflation_post(
                        self@,
                        duration as int,
                        (#[trigger] self@[k]).t as int,
                        Err(e),
                    ),
            },
    {
        let mut out: Vec<DerivedSample> = Vec::new();
        let mut i: usize = 1;
        while i < self.0.len()
            invariant
                valid(self@),
                0 <= duration <= 4 * TIME_BOUND,
                1 <= i,
                i <= self@.len() || i == 1,
                out@.len() == i - 1,
                forall|k: int|
                    0 <= k < out@.len() ==> (#[trigger] out@[k]).t == self@[k + 1].t
                        && inflation_post(
                        self@,
                        duration as int,
                        self@[k + 1].t as int,
                        Ok(out@[k].v),
                    ),
            decreases self@.len() - i,
        {
            let time = self.0[i].t;
            match self.get_inflation(duration, time) {
                Ok(v) => {
                    out.push(DerivedSample { t: time, v });
                },
                Err(e) => {
                    return Err(e);
                },
            }
            i = i + 1;
        }
        Ok(DerivedFunc(out))
    }

    /// Maps `get_inflation_interpolated` with the given window across every
    /// sample timestamp from the second sample onward.  The first failing
    /// timestamp's error is returned instead.
    pub fn get_inflation_interpolated_timefunc(&self, duration: i64) -> (r: Result<
        DerivedFunc,
        TimeFuncError,
    >)
        requires
            valid(self@),
            0 < duration <= 4 * TIME_BOUND,
        ensures
            match r {
                Ok(df) => {
                    &&& df@.len() == (if self@.len() == 0 {
                        0int
                    } else {
                        self@.len() - 1
                    })
                    &&& forall|k: int|
                        0 <= k < df@.len() ==> (#[trigger] df@[k]).t == self@[k + 1].t
                            && inflation_interp_post(
                            self@,
                            duration as int,
                            self@[k + 1].t as int,
                            Ok(df@[k].v),
                        )
                },
                Err(e) => exists|k: int|
                    1 <= k < self@.len() && inflation_interp_post(
                        self@,
                        duration as int,
                        (#[trigger] self@[k]).t as int,
                        Err(e),
                    ),
            },
    {
        let mut out: Vec<DerivedSample> = Vec::new();
        let mut i: usize = 1;
        while i < self.0.len()
            invariant
                valid(self@),
                0 < duration <= 4 * TIME_BOUND,
                1 <= i,
                i <= self@.len() || i == 1,
                out@.len() == i - 1,
                forall|k: int|
                    0 <= k < out@.len() ==> (#[trigger] out@[k]).t == self@[k + 1].t
                        && inflation_interp_post(
                        self@,
                        duration as int,
                        self@[k + 1].t as int,
                        Ok(out@[k].v),
                    ),
            decreases self@.len() - i,
        {
            let time = self.0[i].t;
            match self.get_inflation_interpolated(duration, time) {
                Ok(v) => {
                    out.push(DerivedSample { t: time, v });
                },
                Err(e) => {
                    return Err(e);
                },
            }
            i = i + 1;
        }
        Ok(DerivedFunc(out))
    }
}

} // verus!
