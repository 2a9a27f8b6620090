//! The event map: every feed's occurrences merged, in order, grouped by day.
use vstd::prelude::*;
use std::collections::BTreeMap;
use super::order::{in_order, occ_lt, sort_occurrences, sorted_occurrences, time_lt};
use super::{date_keys_ordered, lemma_date_keys_ordered, occurrence_views, EventOccurrence,
    OccurrenceView};

verus! {

/// The occurrences of `s` on the day `key`, in order.
pub open spec fn on_day(s: Seq<OccurrenceView>, key: (i32, u32, u32)) -> Seq<OccurrenceView>
    decreases s.len(),
{
    if s.len() == 0 {
        Seq::empty()
    } else {
        let rest = on_day(s.drop_last(), key);
        if s.last().date.key() == key {
            rest.push(s.last())
        } else {
            rest
        }
    }
}

/// `m` maps each day that has occurrences in `s` (and no other) to those
/// occurrences, in their order in `s`.
pub open spec fn grouped_by_day(m: Map<(i32, u32, u32), Vec<EventOccurrence>>, s: Seq<OccurrenceView>) -> bool {
    &&& forall|k: (i32, u32, u32)| #[trigger] m.dom().contains(k) <==> on_day(s, k).len() > 0
    &&& forall|k: (i32, u32, u32)| #[trigger] m.dom().contains(k) ==> occurrence_views(m[k]@) == on_day(s, k)
}

/// Group occurrences by day, keeping their order within each day.
#[verifier::spinoff_prover]
pub fn group_by_day(occs: Vec<EventOccurrence>) -> (r: BTreeMap<(i32, u32, u32), Vec<EventOccurrence>>)
    ensures
        grouped_by_day(r@, occurrence_views(occs@)),
{
    broadcast use vstd::std_specs::btree::group_btree_axioms;

    proof {
        lemma_date_keys_ordered();
    }
    let ghost orig = occurrence_views(occs@);
    let mut rest = occs;
    let mut map: BTreeMap<(i32, u32, u32), Vec<EventOccurrence>> = BTreeMap::new();
    let ghost mut k: int = 0;
    while rest.len() > 0
        invariant
            date_keys_ordered(),
            0 <= k <= orig.len(),
            rest@.len() == orig.len() - k,
            occurrence_views(rest@) == orig.skip(k),
            grouped_by_day(map@, orig.take(k)),
        decreases rest@.len(),
    {
        let ghost before_rest = rest@;
        let o = rest.remove(0);
        assert(o@ == orig[k]) by {
            assert(occurrence_views(before_rest)[0] == orig.skip(k)[0]);
        }
        assert(occurrence_views(rest@) == orig.skip(k + 1)) by {
            assert(occurrence_views(rest@) =~= occurrence_views(before_rest).drop_first());
            assert(orig.skip(k).drop_first() =~= orig.skip(k + 1));
        }
        let key = (o.date.year, o.date.month, o.date.day);
        let ghost old_map = map@;
        let ghost prefix = orig.take(k);
        let ghost next = orig.take(k + 1);
        assert(next.drop_last() == prefix && next.last() == o@);
        let mut list = match map.remove(&key) {
            Some(v) => v,
            None => Vec::new(),
        };
        assert(occurrence_views(list@) == on_day(prefix, key));
        let ghost old_list = list@;
        list.push(o);
        assert(occurrence_views(list@) =~= occurrence_views(old_list).push(o@));
        map.insert(key, list);
        proof {
            assert forall|q: (i32, u32, u32)| #[trigger] map@.dom().contains(q) <==> on_day(next, q).len() > 0 by {
                if q != key {
                    assert(map@.dom().contains(q) == old_map.dom().contains(q));
                }
            }
            assert forall|q: (i32, u32, u32)| #[trigger] map@.dom().contains(q) implies occurrence_views(map@[q]@) == on_day(next, q) by {
                if q != key {
                    assert(map@[q] == old_map[q]);
                }
            }
            k = k + 1;
        }
    }
    assert(orig.take(k) == orig);
    map
}

/// The occurrences of several feeds, one after another.
pub open spec fn all_feeds(feeds: Seq<Vec<EventOccurrence>>) -> Seq<OccurrenceView>
    decreases feeds.len(),
{
    if feeds.len() == 0 {
        Seq::empty()
    } else {
        all_feeds(feeds.drop_last()) + occurrence_views(feeds.last()@)
    }
}

/// Merge the feeds' occurrences into one event map: all of them sorted (by
/// date, then all-day before timed, then time, then title), then grouped by
/// day.
#[verifier::spinoff_prover]
pub fn event_map(feeds: Vec<Vec<EventOccurrence>>) -> (r: BTreeMap<(i32, u32, u32), Vec<EventOccurrence>>)
    ensures
        grouped_by_day(r@, sorted_occurrences(all_feeds(feeds@))),
{
    let ghost orig = feeds@;
    let mut rest = feeds;
    let mut all: Vec<EventOccurrence> = Vec::new();
    let ghost mut k: int = 0;
    while rest.len() > 0
        invariant
            0 <= k <= orig.len(),
            rest@.len() == orig.len() - k,
            rest@ == orig.skip(k),
            occurrence_views(all@) == all_feeds(orig.take(k)),
        decreases rest@.len(),
    {
        let ghost before_rest = rest@;
        let mut f = rest.remove(0);
        assert(f == orig[k]) by {
            assert(before_rest[0] == orig.skip(k)[0]);
        }
        assert(rest@ =~= orig.skip(k + 1)) by {
            assert(orig.skip(k).drop_first() =~= orig.skip(k + 1));
        }
        assert(orig.take(k + 1).drop_last() == orig.take(k) && orig.take(k + 1).last() == f);
        let ghost old_all = all@;
        let ghost added = f@;
        all.append(&mut f);
        assert(occurrence_views(all@) =~= occurrence_views(old_all) + occurrence_views(added));
        proof {
            k = k + 1;
        }
    }
    assert(orig.take(k) == orig);
    let sorted = sort_occurrences(all);
    group_by_day(sorted)
}

/// The occurrences of one day of an ordered sequence are in order.
#[verifier::spinoff_prover]
proof fn lemma_on_day_in_order(s: Seq<OccurrenceView>, key: (i32, u32, u32))
    requires
        in_order(s),
    ensures
        in_order(on_day(s, key)),
        forall|i: int| 0 <= i < on_day(s, key).len() ==> (#[trigger] on_day(s, key)[i]).date.key() == key,
    decreases s.len(),
{
    if s.len() > 0 {
        let t = s.drop_last();
        assert(in_order(t)) by {
            assert forall|i: int, j: int| 0 <= i < j < t.len() implies !occ_lt(#[trigger] t[j], #[trigger] t[i]) by {
                assert(t[i] == s[i] && t[j] == s[j]);
            }
        }
        lemma_on_day_in_order(t, key);
        let rest = on_day(t, key);
        if s.last().date.key() == key {
            // Every element of `rest` is an element of `t`.
            lemma_on_day_from(t, key);
            let r = rest.push(s.last());
            assert forall|i: int, j: int| 0 <= i < j < r.len() implies !occ_lt(#[trigger] r[j], #[trigger] r[i]) by {
                if j == rest.len() {
                    let m = choose|m: int| 0 <= m < t.len() && t[m] == rest[i];
                    assert(s[m] == t[m]);
                    assert(!occ_lt(s[s.len() - 1], s[m]));
                } else {
                    assert(r[i] == rest[i] && r[j] == rest[j]);
                }
            }
            assert forall|i: int| 0 <= i < r.len() implies (#[trigger] r[i]).date.key() == key by {
                if i < rest.len() {
                    assert(r[i] == rest[i]);
                }
            }
        }
    }
}

/// Each occurrence of a day is an occurrence of the sequence.
proof fn lemma_on_day_from(s: Seq<OccurrenceView>, key: (i32, u32, u32))
    ensures
        forall|i: int| 0 <= i < on_day(s, key).len() ==> exists|m: int| 0 <= m < s.len() && s[m] == #[trigger] on_day(s, key)[i],
    decreases s.len(),
{
    if s.len() > 0 {
        let t = s.drop_last();
        lemma_on_day_from(t, key);
        let rest = on_day(t, key);
        assert forall|i: int| 0 <= i < on_day(s, key).len() implies exists|m: int| 0 <= m < s.len() && s[m] == #[trigger] on_day(s, key)[i] by {
            if i < rest.len() {
                assert(on_day(s, key)[i] == rest[i]);
                let m = choose|m: int| 0 <= m < t.len() && t[m] == rest[i];
                assert(s[m] == t[m]);
            } else {
                assert(s[s.len() - 1] == on_day(s, key)[i]);
            }
        }
    }
}

/// In the event map, every day's occurrences are in order; in particular the
/// day's all-day events come before its timed ones.
pub proof fn law_days_all_day_first(m: Map<(i32, u32, u32), Vec<EventOccurrence>>, s: Seq<OccurrenceView>, key: (i32, u32, u32))
    requires
        grouped_by_day(m, s),
        in_order(s),
        m.dom().contains(key),
    ensures
        in_order(occurrence_views(m[key]@)),
        forall|i: int, j: int| 0 <= i < j < m[key]@.len() ==> !((#[trigger] m[key]@[i]).time is Some && (#[trigger] m[key]@[j]).time is None),
{
    lemma_on_day_in_order(s, key);
    let l = occurrence_views(m[key]@);
    assert forall|i: int, j: int| 0 <= i < j < m[key]@.len() implies !((#[trigger] m[key]@[i]).time is Some && (#[trigger] m[key]@[j]).time is None) by {
        assert(l[i] == m[key]@[i]@ && l[j] == m[key]@[j]@);
        assert(!occ_lt(l[j], l[i]));
        if m[key]@[i].time is Some && m[key]@[j].time is None {
            assert(time_lt(l[j].time, l[i].time));
        }
    }
}

} // verus!
