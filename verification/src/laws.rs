//! Laws relating the query operations across every valid series.

use vstd::prelude::*;

use crate::index::{
    count_lt, frac_defined, frac_den, frac_num, lemma_count_lt, lemma_exact_at_count,
};
use crate::store::{has_ts, sorted_strict, valid, Sample};
use crate::value::{interp_den, interp_num};

verus! {

/// At any recorded timestamp, the interpolated value is exactly that
/// sample's value.
pub proof fn lemma_interp_at_sample(s: Seq<Sample>, i: int)
    requires
        valid(s),
        0 <= i < s.len(),
    ensures
        interp_num(s, s[i].t as int) == s[i].v as int,
        interp_den(s, s[i].t as int) == 1,
{
    let x: int = s[i].t as int;
    assert(has_ts(s, x));
    lemma_exact_at_count(s, x);
}

/// At any recorded timestamp, the fractional index is exactly that sample's
/// position.
pub proof fn lemma_frac_at_sample(s: Seq<Sample>, i: int)
    requires
        valid(s),
        0 <= i < s.len(),
    ensures
        frac_defined(s, s[i].t as int),
        frac_num(s, s[i].t as int) == i,
        frac_den(s, s[i].t as int) == 1,
{
    let x: int = s[i].t as int;
    assert(has_ts(s, x));
    lemma_exact_at_count(s, x);
}

/// Halfway between two adjacent samples, the interpolated value is exactly
/// the mean of their two values: `2 * interp == v_i + v_{i+1}` as fractions
/// over the bracketing interval.
pub proof fn lemma_interp_midpoint(s: Seq<Sample>, i: int, m: int)
    requires
        valid(s),
        0 <= i,
        i + 1 < s.len(),
        2 * m == s[i].t + s[i + 1].t,
    ensures
        interp_den(s, m) == s[i + 1].t - s[i].t,
        2 * interp_num(s, m) == (s[i].v + s[i + 1].v) * interp_den(s, m),
{
    assert(s[i].t < m && m < s[i + 1].t);
    lemma_count_lt(s, m);
    assert(!has_ts(s, m)) by {
        if has_ts(s, m) {
            let w = choose|w: int| 0 <= w < s.len() && (#[trigger] s[w]).t == m;
            if w <= i {
                assert(s[w].t <= s[i].t);
            } else {
                assert(s[w].t >= s[i + 1].t);
            }
        }
    }
    let j = count_lt(s, m);
    assert(j == i + 1) by {
        if j <= i {
            assert(s[i].t >= m);
        }
        if j > i + 1 {
            assert(s[i + 1].t < m);
        }
    }
    let dv: int = s[i + 1].v - s[i].v;
    let dx: int = m - s[i].t;
    let dt: int = s[i + 1].t - s[i].t;
    assert(2 * dx == dt);
    assert(2 * (dv * dx) == dv * (2 * dx)) by (nonlinear_arith);
    assert(dv * dt + 2 * (s[i].v * dt) == (s[i].v + s[i + 1].v) * dt) by (nonlinear_arith)
        requires
            dv == s[i + 1].v - s[i].v,
    ;
}

/// Halfway between two adjacent samples, the fractional index is exactly
/// halfway between their positions: `2 * frac == 2 * i + 1` as fractions
/// over the bracketing interval.
pub proof fn lemma_frac_midpoint(s: Seq<Sample>, i: int, m: int)
    requires
        valid(s),
        0 <= i,
        i + 1 < s.len(),
        2 * m == s[i].t + s[i + 1].t,
    ensures
        frac_defined(s, m),
        frac_den(s, m) == s[i + 1].t - s[i].t,
        2 * frac_num(s, m) == (2 * i + 1) * frac_den(s, m),
{
    assert(s[i].t < m && m < s[i + 1].t);
    lemma_count_lt(s, m);
    assert(!has_ts(s, m)) by {
        if has_ts(s, m) {
            let w = choose|w: int| 0 <= w < s.len() && (#[trigger] s[w]).t == m;
            if w <= i {
                assert(s[w].t <= s[i].t);
            } else {
                assert(s[w].t >= s[i + 1].t);
            }
        }
    }
    let j = count_lt(s, m);
    assert(j == i + 1) by {
        if j <= i {
            assert(s[i].t >= m);
        }
        if j > i + 1 {
            assert(s[i + 1].t < m);
        }
    }
    let dx: int = m - s[i].t;
    let dt: int = s[i + 1].t - s[i].t;
    assert(2 * dx == dt);
    assert(2 * (i * dt) + dt == (2 * i + 1) * dt) by (nonlinear_arith);
}

/// Before the first sample or after the last, the fractional index is
/// undefined, so `get_fractional_index` fails with `OutOfRange` there.
pub proof fn lemma_frac_out_of_range(s: Seq<Sample>, x: int)
    requires
        valid(s),
        s.len() > 0,
        x < s[0].t || x > s.last().t,
    ensures
        !frac_defined(s, x),
{
    lemma_count_lt(s, x);
    if has_ts(s, x) {
        let w = choose|w: int| 0 <= w < s.len() && (#[trigger] s[w]).t == x;
        assert(s[0].t <= s[w].t);
        assert(s[w].t <= s[s.len() - 1].t);
    }
    let j = count_lt(s, x);
    if x < s[0].t {
        if j > 0 {
            assert(s[0].t < x);
        }
    } else {
        if j < s.len() {
            assert(s[s.len() - 1].t >= x);
        }
    }
}

/// The set of distinct timestamps of `s`.
pub open spec fn ts_set(s: Seq<Sample>) -> Set<int> {
    Set::new(|x: int| has_ts(s, x))
}

/// A strictly sorted series holds exactly one sample per distinct
/// timestamp.
pub proof fn lemma_sorted_ts_card(s: Seq<Sample>)
    requires
        sorted_strict(s),
    ensures
        ts_set(s).finite(),
        ts_set(s).len() == s.len(),
    decreases s.len(),
{
    if s.len() == 0 {
        assert(ts_set(s) =~= Set::<int>::empty());
    } else {
        let p = s.drop_last();
        assert(sorted_strict(p)) by {
            assert(forall|i: int| 0 <= i < p.len() ==> p[i] == s[i]);
        }
        lemma_sorted_ts_card(p);
        let lt: int = s.last().t as int;
        assert(!ts_set(p).contains(lt)) by {
            if has_ts(p, lt) {
                let w = choose|w: int| 0 <= w < p.len() && (#[trigger] p[w]).t == lt;
                assert(s[w] == p[w]);
                assert(s[w].t < s[s.len() - 1].t);
            }
        }
        assert(ts_set(s) =~= ts_set(p).insert(lt)) by {
            assert forall|x: int| ts_set(s).contains(x) implies ts_set(p).insert(lt).contains(
                x,
            ) by {
                let w = choose|w: int| 0 <= w < s.len() && (#[trigger] s[w]).t == x;
                if w < s.len() - 1 {
                    assert(p[w] == s[w]);
                    assert(has_ts(p, x));
                }
            }
            assert forall|x: int| ts_set(p).insert(lt).contains(x) implies ts_set(s).contains(
                x,
            ) by {
                if x == lt {
                    assert(s[s.len() - 1].t == x);
                } else {
                    let w = choose|w: int| 0 <= w < p.len() && (#[trigger] p[w]).t == x;
                    assert(s[w] == p[w]);
                }
            }
        }
    }
}

/// What `repair` leaves behind holds exactly one sample per distinct input
/// timestamp: its length is the number of distinct timestamps that went in,
/// and `verify` accepts it.
pub proof fn lemma_repaired_count(old_s: Seq<Sample>, new_s: Seq<Sample>)
    requires
        sorted_strict(new_s),
        forall|x: int| has_ts(new_s, x) <==> has_ts(old_s, x),
    ensures
        new_s.len() == ts_set(old_s).len(),
        ts_set(old_s).finite(),
{
    lemma_sorted_ts_card(new_s);
    assert(ts_set(new_s) =~= ts_set(old_s));
}

} // verus!
