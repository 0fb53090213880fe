//! The mathematical model of the tracker: a sequence of `(year, rate)` pairs
//! in iteration order, with the rate in per mille (thousandths of the whole).

use vstd::prelude::*;

verus! {

/// Some stored pair carries this year.
pub open spec fn has_year(s: Seq<(usize, i64)>, y: usize) -> bool {
    exists|i: int| 0 <= i < s.len() && (#[trigger] s[i]).0 == y
}

/// The position of the pair that carries this year (unique when years are
/// distinct).
pub open spec fn index_of_year(s: Seq<(usize, i64)>, y: usize) -> int {
    choose|i: int| 0 <= i < s.len() && (#[trigger] s[i]).0 == y
}

/// The rate stored under this year.
pub open spec fn rate_of(s: Seq<(usize, i64)>, y: usize) -> i64 {
    s[index_of_year(s, y)].1
}

/// No year occurs twice.
pub open spec fn distinct_years(s: Seq<(usize, i64)>) -> bool {
    forall|i: int, j: int|
        0 <= i < s.len() && 0 <= j < s.len() && i != j
            ==> (#[trigger] s[i]).0 != (#[trigger] s[j]).0
}

/// What inserting a pair does to the stored sequence: a year already present
/// is re-bound in place, a fresh year is appended at the back.
pub open spec fn insert_model(s: Seq<(usize, i64)>, y: usize, v: i64) -> Seq<(usize, i64)> {
    if has_year(s, y) {
        s.update(index_of_year(s, y), (y, v))
    } else {
        s.push((y, v))
    }
}

/// Folding `insert_model` over a whole sequence of pairs, first pair first.
pub open spec fn inserted_all(s: Seq<(usize, i64)>, ps: Seq<(usize, i64)>) -> Seq<(usize, i64)>
    decreases ps.len(),
{
    if ps.len() == 0 {
        s
    } else {
        inserted_all(insert_model(s, ps[0].0, ps[0].1), ps.drop_first())
    }
}

/// `p` is a stored pair whose rate no stored rate exceeds, and every pair
/// before it carries a strictly smaller rate: the first maximum in iteration
/// order.
pub open spec fn first_max(s: Seq<(usize, i64)>, p: (usize, i64)) -> bool {
    exists|i: int|
        0 <= i < s.len() && #[trigger] s[i] == p && (forall|j: int|
            0 <= j < i ==> (#[trigger] s[j]).1 < p.1) && (forall|j: int|
            0 <= j < s.len() ==> (#[trigger] s[j]).1 <= p.1)
}

/// The first minimum in iteration order, symmetric to `first_max`.
pub open spec fn first_min(s: Seq<(usize, i64)>, p: (usize, i64)) -> bool {
    exists|i: int|
        0 <= i < s.len() && #[trigger] s[i] == p && (forall|j: int|
            0 <= j < i ==> (#[trigger] s[j]).1 > p.1) && (forall|j: int|
            0 <= j < s.len() ==> (#[trigger] s[j]).1 >= p.1)
}

/// Law: the maximum that `first_max` picks is a stored entry, and its rate
/// bounds every stored rate from above.
pub proof fn lemma_first_max_bounds(s: Seq<(usize, i64)>, p: (usize, i64))
    requires
        first_max(s, p),
    ensures
        exists|i: int| 0 <= i < s.len() && #[trigger] s[i] == p,
        forall|j: int| 0 <= j < s.len() ==> (#[trigger] s[j]).1 <= p.1,
{
}

/// Law: the minimum that `first_min` picks is a stored entry, and its rate
/// bounds every stored rate from below.
pub proof fn lemma_first_min_bounds(s: Seq<(usize, i64)>, p: (usize, i64))
    requires
        first_min(s, p),
    ensures
        exists|i: int| 0 <= i < s.len() && #[trigger] s[i] == p,
        forall|j: int| 0 <= j < s.len() ==> (#[trigger] s[j]).1 >= p.1,
{
}

/// How many years lie in the half-open range `[start, end)`.
pub open spec fn span_of(start: int, end: int) -> nat {
    if start < end {
        (end - start) as nat
    } else {
        0
    }
}

/// A pair stored under a year determines `rate_of` when years are distinct.
pub proof fn lemma_rate_at(s: Seq<(usize, i64)>, y: usize, v: i64)
    requires
        distinct_years(s),
        exists|i: int| 0 <= i < s.len() && #[trigger] s[i] == (y, v),
    ensures
        has_year(s, y),
        rate_of(s, y) == v,
{
    let i = choose|i: int| 0 <= i < s.len() && #[trigger] s[i] == (y, v);
    assert(s[i].0 == y);
    let j = index_of_year(s, y);
    assert(s[j].0 == y);
    assert(i == j);
}

/// Inserting keeps the years distinct.
pub proof fn lemma_insert_model_distinct(s: Seq<(usize, i64)>, y: usize, v: i64)
    requires
        distinct_years(s),
    ensures
        distinct_years(insert_model(s, y, v)),
{
    let t = insert_model(s, y, v);
    if has_year(s, y) {
        let k = index_of_year(s, y);
        assert(s[k].0 == y);
        assert forall|i: int, j: int|
            0 <= i < t.len() && 0 <= j < t.len() && i != j implies (#[trigger] t[i]).0 != (
        #[trigger] t[j]).0 by {
            assert(t[i].0 == s[i].0);
            assert(t[j].0 == s[j].0);
        }
    } else {
        assert forall|i: int, j: int|
            0 <= i < t.len() && 0 <= j < t.len() && i != j implies (#[trigger] t[i]).0 != (
        #[trigger] t[j]).0 by {
            if i < s.len() && j < s.len() {
            } else if i < s.len() {
                assert(t[j] == (y, v));
                assert(s[i].0 != y) by {
                    if s[i].0 == y {
                        assert(has_year(s, y));
                    }
                }
            } else {
                assert(t[i] == (y, v));
                assert(s[j].0 != y) by {
                    if s[j].0 == y {
                        assert(has_year(s, y));
                    }
                }
            }
        }
    }
}

/// Law: inserting pairs whose years are fresh and pairwise distinct appends
/// them one after the other, so `n` unique years yield `n` stored pairs, in
/// insertion order.
pub proof fn lemma_unique_years_keep_order(s: Seq<(usize, i64)>, ps: Seq<(usize, i64)>)
    requires
        distinct_years(s + ps),
    ensures
        inserted_all(s, ps) == s + ps,
    decreases ps.len(),
{
    if ps.len() == 0 {
        assert(s + ps =~= s);
    } else {
        let y = ps[0].0;
        let v = ps[0].1;
        let u = s + ps;
        assert(u[s.len() as int].0 == y);
        assert(!has_year(s, y)) by {
            if has_year(s, y) {
                let i = choose|i: int| 0 <= i < s.len() && (#[trigger] s[i]).0 == y;
                assert(u[i].0 == y);
            }
        }
        assert(insert_model(s, y, v) == s.push(ps[0]));
        assert(s.push(ps[0]) + ps.drop_first() =~= s + ps);
        lemma_unique_years_keep_order(s.push(ps[0]), ps.drop_first());
    }
}

/// Law: re-inserting a year that is already stored changes neither the size
/// of the sequence nor the position of any year, only the value bound to the
/// re-inserted year.
pub proof fn lemma_reinsert_in_place(s: Seq<(usize, i64)>, y: usize, v: i64)
    requires
        distinct_years(s),
        has_year(s, y),
    ensures
        ({
            let t = insert_model(s, y, v);
            let k = index_of_year(s, y);
            &&& t.len() == s.len()
            &&& 0 <= k < s.len()
            &&& t[k] == (y, v)
            &&& forall|j: int| 0 <= j < s.len() && j != k ==> #[trigger] t[j] == s[j]
            &&& index_of_year(t, y) == k
        }),
{
    let t = insert_model(s, y, v);
    let k = index_of_year(s, y);
    assert(s[k].0 == y);
    assert(t == s.update(k, (y, v)));
    let k2 = index_of_year(t, y);
    assert(t[k].0 == y);
    assert(has_year(t, y));
    assert(t[k2].0 == y);
    if k2 != k {
        assert(t[k2] == s[k2]);
        assert(s[k2].0 != s[k].0);
    }
}

} // verus!
