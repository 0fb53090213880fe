//! The inflation tracker: an insertion-ordered map from year to per-mille
//! rate, with incrementally maintained extremum caches, authoritative
//! extremum scans, and the factor plan of a compounded future value.

use vstd::prelude::*;
use vstd::string::StringExecFns;
use linked_hash_map::LinkedHashMap;
use crate::linked_map;
use crate::linked_map::entries;
use crate::model::distinct_years;
use crate::model::first_max;
use crate::model::first_min;
use crate::model::has_year;
use crate::model::index_of_year;
use crate::model::insert_model;
use crate::model::lemma_insert_model_distinct;
use crate::model::lemma_rate_at;
use crate::model::rate_of;
use crate::model::span_of;
use crate::render;
use crate::render::report_lines;

verus! {

/// An insertion-ordered record of one country's annual inflation rates,
/// stored in per mille, together with running caches of the highest and
/// lowest rate seen.
pub struct InflationTracker {
    country_name: String,
    yearly_val: LinkedHashMap<usize, i64>,
    highest_year: Option<usize>,
    highest_val: Option<i64>,
    lowest_year: Option<usize>,
    lowest_val: Option<i64>,
}

impl InflationTracker {
    /// The stored `(year, rate)` pairs, in iteration order.
    pub closed spec fn data(&self) -> Seq<(usize, i64)> {
        entries(self.yearly_val)
    }

    /// The country label.
    pub closed spec fn name(&self) -> Seq<char> {
        self.country_name@
    }

    /// The cached entry with the highest rate seen by the running update.
    pub closed spec fn high(&self) -> Option<(usize, i64)> {
        match (self.highest_year, self.highest_val) {
            (Some(y), Some(v)) => Some((y, v)),
            _ => None,
        }
    }

    /// The cached entry with the lowest rate seen by the running update.
    pub closed spec fn low(&self) -> Option<(usize, i64)> {
        match (self.lowest_year, self.lowest_val) {
            (Some(y), Some(v)) => Some((y, v)),
            _ => None,
        }
    }

    /// The four cache fields are unset exactly while nothing is stored.
    pub closed spec fn caches_wf(&self) -> bool {
        &&& (self.data().len() == 0 ==> self.highest_year is None && self.highest_val is None
            && self.lowest_year is None && self.lowest_val is None)
        &&& (self.data().len() > 0 ==> self.highest_year is Some && self.highest_val is Some
            && self.lowest_year is Some && self.lowest_val is Some)
    }

    /// Well-formedness: years are distinct and the caches are set exactly
    /// while something is stored.
    pub open spec fn wf(&self) -> bool {
        &&& distinct_years(self.data())
        &&& self.caches_wf()
    }

    /// A new tracker carrying the given country name, with nothing stored.
    pub fn new(name: &str) -> (r: InflationTracker)
        ensures
            r.wf(),
            r.data() == Seq::<(usize, i64)>::empty(),
            r.name() == name@,
            r.high() is None,
            r.low() is None,
    {
        InflationTracker {
            country_name: String::from_str(name),
            yearly_val: linked_map::lhm_new(),
            highest_year: None,
            highest_val: None,
            lowest_year: None,
            lowest_val: None,
        }
    }

    /// Inserts or overwrites the rate stored under `year`: a year already
    /// present is re-bound in place, a fresh year is appended at the back of
    /// the iteration order.
    ///
    /// The caches follow the running update exactly: the first stored entry
    /// sets both; afterwards a strictly higher rate replaces the high cache,
    /// and only when it does not, a strictly lower rate replaces the low
    /// cache.
    pub fn insert(&mut self, year: usize, value: i64)
        requires
            old(self).wf(),
        ensures
            final(self).wf(),
            final(self).data() == insert_model(old(self).data(), year, value),
            final(self).name() == old(self).name(),
            (final(self).data().len() == 1 ==> final(self).high() == Some((year, value))
                && final(self).low() == Some((year, value))),
            (final(self).data().len() != 1 ==> (old(self).high() matches Some(h) && (old(
                self,
            ).low() matches Some(l) && (if h.1 < value {
                final(self).high() == Some((year, value)) && final(self).low() == old(self).low()
            } else if l.1 > value {
                final(self).low() == Some((year, value)) && final(self).high() == old(self).high()
            } else {
                final(self).high() == old(self).high() && final(self).low() == old(self).low()
            })))),
    {
        let was = linked_map::lhm_get(&self.yearly_val, year);
        match was {
            Some(v0) => {
                proof {
                    let s0 = old(self).data();
                    let i0 = choose|i: int|
                        0 <= i < s0.len() && #[trigger] s0[i] == (year, v0);
                    assert(s0[i0].0 == year);
                }
                linked_map::lhm_overwrite(&mut self.yearly_val, year, value);
                proof {
                    let s0 = old(self).data();
                    assert(has_year(s0, year));
                    let k = index_of_year(s0, year);
                    assert(s0[k].0 == year);
                    assert(self.data() == s0.update(k, (year, value)));
                    assert(self.data() == insert_model(s0, year, value));
                    lemma_insert_model_distinct(s0, year, value);
                }
            },
            None => {
                let _ = linked_map::lhm_insert(&mut self.yearly_val, year, value);
                proof {
                    let s0 = old(self).data();
                    assert(!has_year(s0, year)) by {
                        if has_year(s0, year) {
                            let i = choose|i: int|
                                0 <= i < s0.len() && (#[trigger] s0[i]).0 == year;
                            assert(s0[i].0 != year);
                        }
                    }
                    assert(self.data() == insert_model(s0, year, value));
                    lemma_insert_model_distinct(s0, year, value);
                }
            },
        }
        let n = linked_map::lhm_len(&self.yearly_val);
        if n == 1 {
            self.highest_val = Some(value);
            self.highest_year = Some(year);
            self.lowest_val = Some(value);
            self.lowest_year = Some(year);
        } else {
            proof {
                assert(old(self).data().len() > 0) by {
                    if old(self).data().len() == 0 {
                        assert(!has_year(old(self).data(), year));
                    }
                }
            }
            let hv = self.highest_val;
            let lv = self.lowest_val;
            match (hv, lv) {
                (Some(h), Some(l)) => {
                    if h < value {
                        self.highest_val = Some(value);
                        self.highest_year = Some(year);
                    } else if l > value {
                        self.lowest_val = Some(value);
                        self.lowest_year = Some(year);
                    }
                },
                _ => {
                    proof {
                        assert(false);
                    }
                },
            }
        }
    }

    /// Resets the tracker: empties the label, the stored data, and the
    /// caches.
    pub fn clear(&mut self)
        ensures
            final(self).wf(),
            final(self).data() == Seq::<(usize, i64)>::empty(),
            final(self).name() == Seq::<char>::empty(),
            final(self).high() is None,
            final(self).low() is None,
    {
        self.country_name = String::new();
        linked_map::lhm_clear(&mut self.yearly_val);
        self.highest_year = None;
        self.highest_val = None;
        self.lowest_year = None;
        self.lowest_val = None;
    }

    /// Replaces the country label, touching nothing else.
    pub fn change_country_name(&mut self, new_name: &str)
        ensures
            final(self).name() == new_name@,
            final(self).data() == old(self).data(),
            final(self).high() == old(self).high(),
            final(self).low() == old(self).low(),
            old(self).wf() ==> final(self).wf(),
    {
        self.country_name = String::from_str(new_name);
    }

    /// The country label.
    pub fn country_name(&self) -> (r: &str)
        ensures
            r@ == self.name(),
    {
        self.country_name.as_str()
    }

    /// How many years are stored.
    pub fn len(&self) -> (n: usize)
        ensures
            n == self.data().len(),
    {
        linked_map::lhm_len(&self.yearly_val)
    }

    /// The rate stored under `year`, if any.
    pub fn rate(&self, year: usize) -> (r: Option<i64>)
        requires
            self.wf(),
        ensures
            (r matches Some(v) ==> has_year(self.data(), year) && v == rate_of(
                self.data(),
                year,
            )),
            (r is None <==> !has_year(self.data(), year)),
    {
        let r = linked_map::lhm_get(&self.yearly_val, year);
        proof {
            match r {
                Some(v) => lemma_rate_at(self.data(), year, v),
                None => (),
            }
        }
        r
    }

    /// The cached highest entry, as the running update left it.
    pub fn highest_entry(&self) -> (r: Option<(usize, i64)>)
        ensures
            r == self.high(),
    {
        match (self.highest_year, self.highest_val) {
            (Some(y), Some(v)) => Some((y, v)),
            _ => None,
        }
    }

    /// The cached lowest entry, as the running update left it.
    pub fn lowest_entry(&self) -> (r: Option<(usize, i64)>)
        ensures
            r == self.low(),
    {
        match (self.lowest_year, self.lowest_val) {
            (Some(y), Some(v)) => Some((y, v)),
            _ => None,
        }
    }

    /// Scans the stored data for its maximum rate: the first entry in
    /// iteration order whose rate no stored rate exceeds. `None` exactly when
    /// nothing is stored.
    pub fn get_max(&self) -> (r: Option<(usize, i64)>)
        ensures
            (r is Some <==> self.data().len() > 0),
            (r matches Some(p) ==> first_max(self.data(), p)),
    {
        let pairs = linked_map::lhm_pairs(&self.yearly_val);
        if pairs.len() == 0 {
            return None;
        }
        let mut best: (usize, i64) = pairs[0];
        let ghost mut bi: int = 0;
        let mut i: usize = 1;
        while i < pairs.len()
            invariant
                1 <= i <= pairs@.len(),
                pairs@ == self.data(),
                0 <= bi < i as int,
                pairs@[bi] == best,
                forall|j: int| 0 <= j < i as int ==> (#[trigger] pairs@[j]).1 <= best.1,
                forall|j: int| 0 <= j < bi ==> (#[trigger] pairs@[j]).1 < best.1,
            decreases pairs@.len() - i as int,
        {
            let cur = pairs[i];
            if cur.1 > best.1 {
                best = cur;
                proof {
                    bi = i as int;
                }
            }
            i += 1;
        }
        proof {
            assert(self.data()[bi] == best);
        }
        Some(best)
    }

    /// Scans the stored data for its minimum rate: the first entry in
    /// iteration order whose rate no stored rate undercuts. `None` exactly
    /// when nothing is stored.
    pub fn get_min(&self) -> (r: Option<(usize, i64)>)
        ensures
            (r is Some <==> self.data().len() > 0),
            (r matches Some(p) ==> first_min(self.data(), p)),
    {
        let pairs = linked_map::lhm_pairs(&self.yearly_val);
        if pairs.len() == 0 {
            return None;
        }
        let mut best: (usize, i64) = pairs[0];
        let ghost mut bi: int = 0;
        let mut i: usize = 1;
        while i < pairs.len()
            invariant
                1 <= i <= pairs@.len(),
                pairs@ == self.data(),
                0 <= bi < i as int,
                pairs@[bi] == best,
                forall|j: int| 0 <= j < i as int ==> (#[trigger] pairs@[j]).1 >= best.1,
                forall|j: int| 0 <= j < bi ==> (#[trigger] pairs@[j]).1 > best.1,
            decreases pairs@.len() - i as int,
        {
            let cur = pairs[i];
            if cur.1 < best.1 {
                best = cur;
                proof {
                    bi = i as int;
                }
            }
            i += 1;
        }
        proof {
            assert(self.data()[bi] == best);
        }
        Some(best)
    }

    /// Plans a future-value projection over `[start_year, end_year)`: the
    /// per-mille erosion rate of each year of the range, in order, each to be
    /// applied as a factor of `1 - rate`. An empty range (start at or after
    /// end) asks for nothing and yields no factors. `Err` carries the first
    /// year of the range with no stored rate, and comes exactly when such a
    /// year exists: the projection fails fast rather than guess a rate.
    pub fn erosion_factors(&self, start_year: usize, end_year: usize) -> (r: Result<
        Vec<i64>,
        usize,
    >)
        requires
            self.wf(),
        ensures
            (r matches Ok(v) ==> v@.len() == span_of(start_year as int, end_year as int)
                && forall|i: int|
                0 <= i < v@.len() ==> has_year(self.data(), (start_year + i) as usize) && v@[i]
                    == rate_of(self.data(), (start_year + i) as usize)),
            ((r is Ok) <==> (forall|i: int|
                0 <= i < span_of(start_year as int, end_year as int) ==> #[trigger] has_year(
                    self.data(),
                    (start_year + i) as usize,
                ))),
            (r matches Err(y) ==> start_year <= y < end_year && !has_year(self.data(), y)
                && forall|j: int|
                start_year <= j < y ==> #[trigger] has_year(self.data(), j as usize)),
    {
        let mut v: Vec<i64> = Vec::new();
        if start_year >= end_year {
            return Ok(v);
        }
        let mut y: usize = start_year;
        while y < end_year
            invariant
                self.wf(),
                start_year <= y <= end_year,
                v@.len() == y - start_year,
                forall|i: int|
                    0 <= i < v@.len() ==> #[trigger] has_year(self.data(), (start_year + i) as usize)
                        && v@[i] == rate_of(self.data(), (start_year + i) as usize),
            decreases end_year - y,
        {
            match linked_map::lhm_get(&self.yearly_val, y) {
                Some(rate) => {
                    proof {
                        lemma_rate_at(self.data(), y, rate);
                    }
                    v.push(rate);
                },
                None => {
                    proof {
                        assert(!has_year(self.data(), y)) by {
                            if has_year(self.data(), y) {
                                let i = choose|i: int|
                                    0 <= i < self.data().len() && (#[trigger] self.data()[i]).0
                                        == y;
                                assert(self.data()[i].0 != y);
                            }
                        }
                    }
                    proof {
                        assert forall|j: int| start_year <= j < y implies #[trigger] has_year(
                            self.data(),
                            j as usize,
                        ) by {
                            let i = j - start_year;
                            assert(has_year(self.data(), (start_year + i) as usize));
                            assert((start_year + i) as usize == j as usize);
                        }
                        let iw: int = y - start_year;
                        assert(0 <= iw < span_of(start_year as int, end_year as int));
                        assert((start_year + iw) as usize == y as usize);
                        assert(!has_year(self.data(), (start_year + iw) as usize));
                    }
                    return Err(y);
                },
            }
            y += 1;
        }
        proof {
            assert(v@.len() == span_of(start_year as int, end_year as int));
            assert forall|i: int|
                0 <= i < span_of(start_year as int, end_year as int) implies #[trigger] has_year(
                self.data(),
                (start_year + i) as usize,
            ) by {
                assert(has_year(self.data(), (start_year + i) as usize));
            }
        }
        Ok(v)
    }

    /// The lines that printing the stored data yields: the single no-data
    /// warning line when nothing is stored, else one `"<year> | <percent>%"`
    /// line per stored pair, in iteration order.
    pub fn print_data(&self) -> (r: Vec<String>)
        ensures
            r@.len() == report_lines(self.data()).len(),
            forall|i: int| 0 <= i < r@.len() ==> r@[i]@ == report_lines(self.data())[i],
    {
        let pairs = linked_map::lhm_pairs(&self.yearly_val);
        let mut out: Vec<String> = Vec::new();
        if pairs.len() == 0 {
            out.push(String::from_str("Warning: Found no data to print!"));
            return out;
        }
        let mut i: usize = 0;
        while i < pairs.len()
            invariant
                0 <= i <= pairs@.len(),
                pairs@.len() > 0,
                pairs@ == self.data(),
                out@.len() == i,
                forall|j: int| 0 <= j < i as int ==> out@[j]@ == report_lines(self.data())[j],
            decreases pairs@.len() - i as int,
        {
            let p = pairs[i];
            out.push(render::data_line(p.0, p.1));
            i += 1;
        }
        out
    }
}

} // verus!
