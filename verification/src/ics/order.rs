//! The order of a day's occurrences: by date, then all-day before timed, then
//! time of day, then title; occurrences that tie keep their feed order.
use vstd::prelude::*;
use crate::text::chars_of;
use super::instant::{date_lt, time_ok};
use super::{occurrence_views, EventOccurrence, OccurrenceView, Time};

verus! {

/// Time keys: an all-day event (no time) before any timed one, timed ones by
/// time of day.
pub open spec fn time_lt(a: Option<Time>, b: Option<Time>) -> bool {
    match (a, b) {
        (None, Some(_)) => true,
        (Some(x), Some(y)) => {
            ||| x.hour < y.hour
            ||| (x.hour == y.hour && x.minute < y.minute)
            ||| (x.hour == y.hour && x.minute == y.minute && x.second < y.second)
        },
        _ => false,
    }
}

/// Strings in code-point order (which is the order of their UTF-8 bytes, the
/// order `String` compares by).
pub open spec fn text_lt(a: Seq<char>, b: Seq<char>) -> bool
    decreases a.len(),
{
    if a.len() == 0 {
        b.len() > 0
    } else if b.len() == 0 {
        false
    } else if a[0] != b[0] {
        a[0] < b[0]
    } else {
        text_lt(a.drop_first(), b.drop_first())
    }
}

/// Occurrence order: by date, then all-day before timed, then time, then title.
pub open spec fn occ_lt(a: OccurrenceView, b: OccurrenceView) -> bool {
    ||| date_lt(a.date, b.date)
    ||| (a.date == b.date && time_lt(a.time, b.time))
    ||| (a.date == b.date && a.time == b.time && text_lt(a.title, b.title))
}

/// `s` with `x` placed after every element it does not come before: the step
/// of a stable insertion sort.
pub open spec fn insert_sorted(s: Seq<OccurrenceView>, x: OccurrenceView) -> Seq<OccurrenceView>
    decreases s.len(),
{
    if s.len() == 0 || !occ_lt(x, s.last()) {
        s.push(x)
    } else {
        insert_sorted(s.drop_last(), x).push(s.last())
    }
}

/// `s` stably sorted by `occ_lt`: occurrences that tie keep their order.
pub open spec fn sorted_occurrences(s: Seq<OccurrenceView>) -> Seq<OccurrenceView>
    decreases s.len(),
{
    if s.len() == 0 {
        Seq::empty()
    } else {
        insert_sorted(sorted_occurrences(s.drop_last()), s.last())
    }
}

/// Whether `a` comes before `b` in code-point order.
fn title_before(a: &str, b: &str) -> (r: bool)
    ensures
        r == text_lt(a@, b@),
{
    let x = chars_of(a);
    let y = chars_of(b);
    let mut i: usize = 0;
    assert(x@.skip(0) == x@ && y@.skip(0) == y@);
    while i < x.len() && i < y.len() && x[i] == y[i]
        invariant
            x@ == a@,
            y@ == b@,
            i <= x@.len(),
            i <= y@.len(),
            text_lt(x@.skip(i as int), y@.skip(i as int)) == text_lt(a@, b@),
        decreases x@.len() - i,
    {
        assert(x@.skip(i as int).drop_first() == x@.skip(i + 1));
        assert(y@.skip(i as int).drop_first() == y@.skip(i + 1));
        i = i + 1;
    }
    if i == x.len() {
        i < y.len()
    } else if i == y.len() {
        false
    } else {
        assert(x@.skip(i as int)[0] == x@[i as int]);
        assert(y@.skip(i as int)[0] == y@[i as int]);
        x[i] < y[i]
    }
}

/// Whether `a` sorts before `b`.
fn occ_before(a: &EventOccurrence, b: &EventOccurrence) -> (r: bool)
    ensures
        r == occ_lt(a@, b@),
{
    let (x, y) = (a.date, b.date);
    if x.year != y.year {
        return x.year < y.year;
    }
    if x.month != y.month {
        return x.month < y.month;
    }
    if x.day != y.day {
        return x.day < y.day;
    }
    match (a.time, b.time) {
        (None, Some(_)) => true,
        (Some(_), None) => false,
        (Some(s), Some(t)) => {
            if s.hour != t.hour {
                s.hour < t.hour
            } else if s.minute != t.minute {
                s.minute < t.minute
            } else if s.second != t.second {
                s.second < t.second
            } else {
                title_before(a.title.as_str(), b.title.as_str())
            }
        },
        (None, None) => title_before(a.title.as_str(), b.title.as_str()),
    }
}

/// Inserting at the first position from which every element comes after `x`
/// (and before which none does) is the insertion step.
proof fn lemma_insert_at(s: Seq<OccurrenceView>, x: OccurrenceView, j: int)
    requires
        0 <= j <= s.len(),
        forall|m: int| j <= m < s.len() ==> occ_lt(x, #[trigger] s[m]),
        j == 0 || !occ_lt(x, s[j - 1]),
    ensures
        insert_sorted(s, x) == s.insert(j, x),
    decreases s.len(),
{
    if j == s.len() {
        assert(s.push(x) =~= s.insert(j, x));
    } else {
        assert(occ_lt(x, s[s.len() - 1]));
        let t = s.drop_last();
        assert forall|m: int| j <= m < t.len() implies occ_lt(x, #[trigger] t[m]) by {
            assert(t[m] == s[m]);
        }
        if j > 0 {
            assert(t[j - 1] == s[j - 1]);
        }
        lemma_insert_at(t, x, j);
        assert(t.insert(j, x).push(s.last()) =~= s.insert(j, x));
    }
}

/// Sort: by date, then all-day before timed, then time, then title; ties
/// keep their order.
#[verifier::spinoff_prover]
pub fn sort_occurrences(occs: Vec<EventOccurrence>) -> (r: Vec<EventOccurrence>)
    ensures
        occurrence_views(r@) == sorted_occurrences(occurrence_views(occs@)),
{
    let ghost orig = occurrence_views(occs@);
    let mut rest = occs;
    let mut out: Vec<EventOccurrence> = Vec::new();
    let ghost mut k: int = 0;
    while rest.len() > 0
        invariant
            0 <= k <= orig.len(),
            rest@.len() == orig.len() - k,
            occurrence_views(rest@) == orig.skip(k),
            occurrence_views(out@) == sorted_occurrences(orig.take(k)),
        decreases rest@.len(),
    {
        let ghost before_rest = rest@;
        let x = rest.remove(0);
        assert(x@ == orig[k]) by {
            assert(occurrence_views(before_rest)[0] == orig.skip(k)[0]);
        }
        assert(occurrence_views(rest@) == orig.skip(k + 1)) by {
            assert(rest@ == before_rest.remove(0));
            assert(occurrence_views(rest@) =~= occurrence_views(before_rest).drop_first());
            assert(orig.skip(k).drop_first() =~= orig.skip(k + 1));
        }
        let mut j: usize = out.len();
        while j > 0 && occ_before(&x, &out[j - 1])
            invariant
                j <= out@.len(),
                forall|m: int| j <= m < out@.len() ==> occ_lt(x@, #[trigger] out@[m]@),
            decreases j,
        {
            j = j - 1;
        }
        let ghost sv = occurrence_views(out@);
        proof {
            assert forall|m: int| j <= m < sv.len() implies occ_lt(x@, #[trigger] sv[m]) by {
                assert(sv[m] == out@[m]@);
            }
            if j > 0 {
                assert(sv[j - 1] == out@[j - 1]@);
            }
            lemma_insert_at(sv, x@, j as int);
            assert(orig.take(k + 1).drop_last() == orig.take(k));
            assert(orig.take(k + 1).last() == orig[k]);
        }
        let ghost old_out = out@;
        out.insert(j, x);
        proof {
            assert(occurrence_views(out@) =~= sv.insert(j as int, x@)) by {
                assert(out@ == old_out.insert(j as int, x));
            }
            k = k + 1;
        }
    }
    assert(orig.take(k) == orig);
    out
}

/// No string comes before itself.
proof fn lemma_text_irreflexive(a: Seq<char>)
    ensures
        !text_lt(a, a),
    decreases a.len(),
{
    if a.len() > 0 {
        lemma_text_irreflexive(a.drop_first());
    }
}

/// Code-point order is transitive.
proof fn lemma_text_transitive(a: Seq<char>, b: Seq<char>, c: Seq<char>)
    requires
        text_lt(a, b),
        text_lt(b, c),
    ensures
        text_lt(a, c),
    decreases a.len(),
{
    if a.len() > 0 && b.len() > 0 && c.len() > 0 && a[0] == b[0] && b[0] == c[0] {
        lemma_text_transitive(a.drop_first(), b.drop_first(), c.drop_first());
    }
}

/// Of two different strings, one comes first.
proof fn lemma_text_total(a: Seq<char>, b: Seq<char>)
    requires
        !text_lt(a, b),
        !text_lt(b, a),
    ensures
        a == b,
    decreases a.len(),
{
    if a.len() > 0 && b.len() > 0 {
        lemma_text_total(a.drop_first(), b.drop_first());
        assert(a =~= seq![a[0]] + a.drop_first());
        assert(b =~= seq![b[0]] + b.drop_first());
    }
}

/// `occ_lt` orders occurrences by their key (date, time, title): it is
/// irreflexive and transitive, and occurrences neither of which comes first
/// share their key.
pub proof fn lemma_occ_order(a: OccurrenceView, b: OccurrenceView, c: OccurrenceView)
    ensures
        !occ_lt(a, a),
        occ_lt(a, b) && occ_lt(b, c) ==> occ_lt(a, c),
        !occ_lt(a, b) && !occ_lt(b, a) ==> a.date == b.date && a.time == b.time && a.title == b.title,
{
    lemma_text_irreflexive(a.title);
    if occ_lt(a, b) && occ_lt(b, c) && a.date == b.date && b.date == c.date && a.time == b.time
        && b.time == c.time {
        lemma_text_transitive(a.title, b.title, c.title);
    }
    if !occ_lt(a, b) && !occ_lt(b, a) {
        if a.date == b.date && a.time == b.time {
            lemma_text_total(a.title, b.title);
        }
    }
}

/// Whether no element of `s` comes before an earlier one.
pub open spec fn in_order(s: Seq<OccurrenceView>) -> bool {
    forall|i: int, j: int| 0 <= i < j < s.len() ==> !occ_lt(#[trigger] s[j], #[trigger] s[i])
}

/// When `x` and every element of `s` satisfy `p`, so does every element of
/// `insert_sorted(s, x)`.
proof fn lemma_insert_keeps(s: Seq<OccurrenceView>, x: OccurrenceView, p: spec_fn(OccurrenceView) -> bool)
    requires
        p(x),
        forall|i: int| 0 <= i < s.len() ==> p(#[trigger] s[i]),
    ensures
        insert_sorted(s, x).len() == s.len() + 1,
        forall|i: int| 0 <= i < insert_sorted(s, x).len() ==> p(#[trigger] insert_sorted(s, x)[i]),
    decreases s.len(),
{
    if s.len() > 0 && occ_lt(x, s.last()) {
        let t = s.drop_last();
        lemma_insert_keeps(t, x, p);
        assert(p(s[s.len() - 1]));
    }
}

/// Inserting into an ordered sequence keeps it ordered.
#[verifier::spinoff_prover]
proof fn lemma_insert_in_order(s: Seq<OccurrenceView>, x: OccurrenceView)
    requires
        in_order(s),
    ensures
        in_order(insert_sorted(s, x)),
    decreases s.len(),
{
    let r = insert_sorted(s, x);
    if s.len() == 0 || !occ_lt(x, s.last()) {
        assert forall|i: int, j: int| 0 <= i < j < r.len() implies !occ_lt(#[trigger] r[j], #[trigger] r[i]) by {
            if j == s.len() {
                let last = s.last();
                lemma_occ_order(x, s[i], last);
                lemma_occ_order(s[i], last, x);
                if i < s.len() - 1 {
                    assert(!occ_lt(last, s[i]));
                }
                lemma_occ_order(last, s[i], x);
            } else {
                assert(r[i] == s[i] && r[j] == s[j]);
            }
        }
    } else {
        let t = s.drop_last();
        let last = s.last();
        assert(in_order(t)) by {
            assert forall|i: int, j: int| 0 <= i < j < t.len() implies !occ_lt(#[trigger] t[j], #[trigger] t[i]) by {
                assert(t[i] == s[i] && t[j] == s[j]);
            }
        }
        lemma_insert_in_order(t, x);
        let u = insert_sorted(t, x);
        let p = |y: OccurrenceView| !occ_lt(last, y);
        assert forall|i: int| 0 <= i < t.len() implies p(#[trigger] t[i]) by {
            assert(t[i] == s[i]);
        }
        lemma_occ_order(x, last, x);
        lemma_insert_keeps(t, x, p);
        assert forall|i: int, j: int| 0 <= i < j < r.len() implies !occ_lt(#[trigger] r[j], #[trigger] r[i]) by {
            if j == u.len() {
                assert(p(u[i]));
            } else {
                assert(r[i] == u[i] && r[j] == u[j]);
            }
        }
    }
}

/// The sort's result is in order: by date, then all-day before timed, then
/// time of day, then title.
pub proof fn law_sorted_in_order(s: Seq<OccurrenceView>)
    ensures
        in_order(sorted_occurrences(s)),
    decreases s.len(),
{
    if s.len() > 0 {
        law_sorted_in_order(s.drop_last());
        lemma_insert_in_order(sorted_occurrences(s.drop_last()), s.last());
    }
}

/// Inserting adds exactly the inserted element.
proof fn lemma_insert_multiset(s: Seq<OccurrenceView>, x: OccurrenceView)
    ensures
        insert_sorted(s, x).to_multiset() == s.to_multiset().insert(x),
    decreases s.len(),
{
    broadcast use vstd::seq_lib::group_to_multiset_ensures;
    if s.len() > 0 && occ_lt(x, s.last()) {
        let t = s.drop_last();
        lemma_insert_multiset(t, x);
        assert(s == t.push(s.last()));
        assert(t.to_multiset().insert(x).insert(s.last()) =~= t.to_multiset().insert(s.last()).insert(x));
    }
}

/// The sort keeps every occurrence, each as often as it occurs, and adds none.
pub proof fn law_sort_permutes(s: Seq<OccurrenceView>)
    ensures
        sorted_occurrences(s).to_multiset() == s.to_multiset(),
    decreases s.len(),
{
    broadcast use vstd::seq_lib::group_to_multiset_ensures;
    if s.len() > 0 {
        let t = s.drop_last();
        law_sort_permutes(t);
        lemma_insert_multiset(sorted_occurrences(t), s.last());
        assert(s == t.push(s.last()));
    }
}

/// What holds of every occurrence holds of every occurrence of the sort.
pub proof fn lemma_sorted_keeps(s: Seq<OccurrenceView>, p: spec_fn(OccurrenceView) -> bool)
    requires
        forall|i: int| 0 <= i < s.len() ==> p(#[trigger] s[i]),
    ensures
        sorted_occurrences(s).len() == s.len(),
        forall|i: int| 0 <= i < sorted_occurrences(s).len() ==> p(#[trigger] sorted_occurrences(s)[i]),
    decreases s.len(),
{
    if s.len() > 0 {
        let t = s.drop_last();
        assert forall|i: int| 0 <= i < t.len() implies p(#[trigger] t[i]) by {
            assert(t[i] == s[i]);
        }
        lemma_sorted_keeps(t, p);
        assert(p(s[s.len() - 1]));
        lemma_insert_keeps(sorted_occurrences(t), s.last(), p);
    }
}

/// The second of the day a time of day stands for.
pub open spec fn seconds_of_day(t: Time) -> int {
    t.hour * 3600 + t.minute * 60 + t.second
}

/// Time keys are chronological: an all-day event comes before any timed one,
/// and of two times of day the earlier in the day comes first.
pub proof fn law_time_order_chronological(x: Time, y: Time)
    requires
        time_ok(x),
        time_ok(y),
    ensures
        time_lt(Some(x), Some(y)) <==> seconds_of_day(x) < seconds_of_day(y),
        time_lt(None, Some(y)),
        !time_lt(Some(x), None),
        !time_lt(None, None),
{
}

/// Within a day the sort puts all-day events first and timed events in
/// chronological order: of two sorted occurrences on the same date, the later
/// one is not all-day unless the earlier one is, and when both are timed the
/// later one is not earlier in the day.
pub proof fn law_sorted_by_time_of_day(s: Seq<OccurrenceView>)
    ensures
        forall|i: int, j: int|
            0 <= i < j < sorted_occurrences(s).len() && (#[trigger] sorted_occurrences(s)[i]).date
                == (#[trigger] sorted_occurrences(s)[j]).date ==> {
                let a = sorted_occurrences(s)[i];
                let b = sorted_occurrences(s)[j];
                &&& b.time is None ==> a.time is None
                &&& (a.time is Some && b.time is Some && time_ok(a.time->0) && time_ok(b.time->0))
                    ==> seconds_of_day(a.time->0) <= seconds_of_day(b.time->0)
            },
{
    let r = sorted_occurrences(s);
    law_sorted_in_order(s);
    assert forall|i: int, j: int| 0 <= i < j < r.len() && (#[trigger] r[i]).date == (#[trigger] r[j]).date implies {
        let a = r[i];
        let b = r[j];
        &&& b.time is None ==> a.time is None
        &&& (a.time is Some && b.time is Some && time_ok(a.time->0) && time_ok(b.time->0))
            ==> seconds_of_day(a.time->0) <= seconds_of_day(b.time->0)
    } by {
        let a = r[i];
        let b = r[j];
        assert(!occ_lt(b, a));
        if let (Some(x), Some(y)) = (a.time, b.time) {
            if time_ok(x) && time_ok(y) {
                law_time_order_chronological(y, x);
            }
        }
    }
}

} // verus!
