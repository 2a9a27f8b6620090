//! Convert the ICS event map into per-day agenda/detail rows for one month.
use vstd::prelude::*;
use std::collections::BTreeMap;
use crate::calendar::{Day, Month};
use vstd::string::StringExecFns;
use crate::ics::{EventOccurrence, Time};
use crate::templates::{AgendaDay, AgendaEvent};
use crate::ics::instant::time_ok;
use crate::text::{chars_of, copy_strings, decimal_nat, digit_char, last_index_of, opt_copy, opt_view, pad2, push_char,
    push_pad2, push_str, string_views,
    rfind_char, string_from, trim_bounds, trim_ws};

verus! {

/// `HH:MM` of a time (chrono's `%H:%M`).
pub open spec fn hh_mm(t: Time) -> Seq<char> {
    pad2(t.hour as nat) + seq![':'] + pad2(t.minute as nat)
}

/// The agenda label of an event time: "All Day", or `HH:MM`.
pub open spec fn label_spec(time: Option<Time>) -> Seq<char> {
    match time {
        None => "All Day"@,
        Some(t) => hh_mm(t),
    }
}

/// `HH:MM` of a time.
pub fn format_hh_mm(t: Time) -> (r: String)
    ensures
        r@ == hh_mm(t),
{
    let mut out = String::new();
    push_pad2(&mut out, t.hour);
    push_char(&mut out, ':');
    push_pad2(&mut out, t.minute);
    out
}

/// The agenda label of an event time: "All Day", or `HH:MM`.
pub fn label_for(time: Option<Time>) -> (r: String)
    ensures
        r@ == label_spec(time),
{
    match time {
        None => String::from_str("All Day"),
        Some(t) => format_hh_mm(t),
    }
}

/// The value of a decimal digit character.
pub open spec fn digit_value(c: char) -> int {
    (c as int) - ('0' as int)
}

/// Whether `c` is a decimal digit.
pub open spec fn is_digit(c: char) -> bool {
    '0' <= c && c <= '9'
}

/// A number below 100 written with at least two digits reads back as two
/// digits giving the number.
proof fn lemma_pad2_digits(n: nat)
    requires
        n < 100,
    ensures
        pad2(n).len() == 2,
        is_digit(pad2(n)[0]) && is_digit(pad2(n)[1]),
        digit_value(pad2(n)[0]) * 10 + digit_value(pad2(n)[1]) == n,
{
    if n < 10 {
        assert(pad2(n) == seq!['0', digit_char(n)]);
    } else {
        assert(decimal_nat(n / 10) == seq![digit_char(n / 10)]);
        assert(pad2(n) == seq![digit_char(n / 10), digit_char(n % 10)]);
    }
}

/// A timed event's label reads back as its time: five characters, two
/// digits giving the hour, a colon, two digits giving the minute.
pub proof fn law_time_label_reads_back(t: Time)
    requires
        time_ok(t),
    ensures
        ({
            let l = label_spec(Some(t));
            &&& l.len() == 5
            &&& l[2] == ':'
            &&& is_digit(l[0]) && is_digit(l[1]) && is_digit(l[3]) && is_digit(l[4])
            &&& digit_value(l[0]) * 10 + digit_value(l[1]) == t.hour
            &&& digit_value(l[3]) * 10 + digit_value(l[4]) == t.minute
        }),
        label_spec(None) == "All Day"@,
{
    lemma_pad2_digits(t.hour as nat);
    lemma_pad2_digits(t.minute as nat);
    let l = label_spec(Some(t));
    let h = pad2(t.hour as nat);
    let m = pad2(t.minute as nat);
    assert(l == h + seq![':'] + m);
    assert(l[0] == h[0] && l[1] == h[1] && l[2] == ':' && l[3] == m[0] && l[4] == m[1]);
}

/// `s` trimmed and, when longer than `max` characters, cut to its first `max`
/// characters, back to the last space among them if there is one, with `…`
/// appended.
pub open spec fn capped(s: Seq<char>, max: nat) -> Seq<char> {
    let t = trim_ws(s);
    if t.len() <= max {
        t
    } else {
        let u = t.take(max as int);
        (match last_index_of(u, ' ') {
            Some(i) => u.take(i),
            None => u,
        }).push('…')
    }
}

/// Truncate a field to `max` characters at a word boundary, for clean, bounded
/// rows — long descriptions are often boilerplate (e.g. meeting-join blurbs).
pub fn cap(s: &str, max: usize) -> (r: String)
    ensures
        r@ == capped(s@, max as nat),
{
    let v = chars_of(s);
    let (lo, hi) = trim_bounds(&v);
    if hi - lo <= max {
        return string_from(&v, lo, hi);
    }
    let ghost t = v@.subrange(lo as int, hi as int);
    let end = lo + max;
    assert(t.take(max as int) == v@.subrange(lo as int, end as int));
    let u = string_from(&v, lo, end);
    let uv = chars_of(u.as_str());
    assert(uv@.take(uv@.len() as int) == uv@);
    assert(uv@ == t.take(max as int));
    assert(t == trim_ws(s@));
    let mut out = match rfind_char(&uv, uv.len(), ' ') {
        Some(i) => {
            assert(uv@.take(uv@.len() as int) == uv@);
            assert(uv@.take(i as int) == uv@.subrange(0, i as int));
            string_from(&uv, 0, i)
        },
        None => {
            assert(uv@.take(uv@.len() as int) == uv@);
            u
        },
    };
    push_char(&mut out, '…');
    out
}

/// An optional field capped to `max` characters.
pub open spec fn opt_capped(e: Option<String>, o: Option<String>, max: nat) -> bool {
    match (e, o) {
        (Some(a), Some(b)) => a@ == capped(b@, max),
        (None, None) => true,
        _ => false,
    }
}

/// The agenda entry `e` shows occurrence `o`: its time label, end time, title
/// (capped to 100 characters), location (90), description (140), attendees,
/// colour, and whether it is all-day.
pub open spec fn shows_occurrence(e: AgendaEvent, o: EventOccurrence) -> bool {
    &&& e.label@ == label_spec(o.time)
    &&& match (e.end_label, o.end_time) {
        (Some(l), Some(t)) => l@ == hh_mm(t),
        (None, None) => true,
        _ => false,
    }
    &&& e.title@ == capped(o.title@, 100)
    &&& opt_capped(e.location, o.location, 90)
    &&& opt_capped(e.description, o.description, 140)
    &&& string_views(e.attendees@) == string_views(o.attendees@)
    &&& e.color@ == o.color@
    &&& e.is_all_day == (o.time is None)
}

/// Whether the event map has events on `year`-`month`-`day`.
pub open spec fn has_events(events: Map<(i32, u32, u32), Vec<EventOccurrence>>, year: i32, month: u32, day: u32) -> bool {
    events.contains_key((year, month, day)) && events[(year, month, day)]@.len() > 0
}

/// The days of `days` that have events, in order.
pub open spec fn busy_days(days: Seq<Day>, events: Map<(i32, u32, u32), Vec<EventOccurrence>>, year: i32, month: u32) -> Seq<Day>
    decreases days.len(),
{
    if days.len() == 0 {
        Seq::empty()
    } else {
        let r = busy_days(days.drop_last(), events, year, month);
        if has_events(events, year, month, days.last().day) {
            r.push(days.last())
        } else {
            r
        }
    }
}

/// `a` is the agenda of `d`'s events.
pub open spec fn agenda_day_of(a: AgendaDay, d: Day, occs: Seq<EventOccurrence>) -> bool {
    &&& a.day == d.day
    &&& a.weekday@ == d.weekday@
    &&& a.events@.len() == occs.len()
    &&& forall|k: int| 0 <= k < occs.len() ==> shows_occurrence(#[trigger] a.events@[k], occs[k]) && a.events@[k].idx == k
}

fn opt_cap(o: &Option<String>, max: usize) -> (r: Option<String>)
    ensures
        opt_capped(r, *o, max as nat),
{
    match o {
        Some(s) => Some(cap(s.as_str(), max)),
        None => None,
    }
}

/// The agenda entry for one occurrence, at position `idx` of its day.
pub fn agenda_event(o: &EventOccurrence, idx: usize) -> (e: AgendaEvent)
    ensures
        shows_occurrence(e, *o),
        e.idx == idx,
{
    AgendaEvent {
        idx,
        label: label_for(o.time),
        end_label: match o.end_time {
            Some(t) => Some(format_hh_mm(t)),
            None => None,
        },
        title: cap(o.title.as_str(), 100),
        location: opt_cap(&o.location, 90),
        description: opt_cap(&o.description, 140),
        attendees: copy_strings(&o.attendees),
        color: o.color.clone(),
        is_all_day: o.time.is_none(),
    }
}

/// Build the agenda rows for `month`, one `AgendaDay` per calendar day that has
/// events, in day order, each listing that day's events in map order.
#[verifier::spinoff_prover]
pub fn agenda_days(
    m: &Month,
    events: &BTreeMap<(i32, u32, u32), Vec<EventOccurrence>>,
    year: i32,
    month: u32,
) -> (r: Vec<AgendaDay>)
    ensures
        r@.len() == busy_days(m.days@, events@, year, month).len(),
        forall|k: int|
            0 <= k < r@.len() ==> {
                let d = busy_days(m.days@, events@, year, month)[k];
                agenda_day_of(#[trigger] r@[k], d, events@[(year, month, d.day)]@)
            },
{
    broadcast use vstd::std_specs::btree::group_btree_axioms;

    proof {
        crate::ics::lemma_date_keys_ordered();
    }
    let mut out: Vec<AgendaDay> = Vec::new();
    let mut i: usize = 0;
    while i < m.days.len()
        invariant
            i <= m.days@.len(),
            crate::ics::date_keys_ordered(),
            out@.len() == busy_days(m.days@.take(i as int), events@, year, month).len(),
            forall|k: int|
                0 <= k < out@.len() ==> {
                    let d = busy_days(m.days@.take(i as int), events@, year, month)[k];
                    agenda_day_of(#[trigger] out@[k], d, events@[(year, month, d.day)]@)
                },
        decreases m.days@.len() - i,
    {
        let d = &m.days[i];
        assert(m.days@.take(i + 1).drop_last() == m.days@.take(i as int));
        let key = (year, month, d.day);
        match events.get(&key) {
            Some(occs) => {
                if occs.len() > 0 {
                    let mut evs: Vec<AgendaEvent> = Vec::new();
                    let mut k: usize = 0;
                    while k < occs.len()
                        invariant
                            k <= occs@.len(),
                            evs@.len() == k,
                            forall|j: int| 0 <= j < k ==> shows_occurrence(#[trigger] evs@[j], occs@[j]) && evs@[j].idx == j,
                        decreases occs@.len() - k,
                    {
                        evs.push(agenda_event(&occs[k], k));
                        k = k + 1;
                    }
                    out.push(AgendaDay { day: d.day, weekday: d.weekday, events: evs });
                }
            },
            None => {},
        }
        i = i + 1;
    }
    assert(m.days@.take(i as int) == m.days@);
    out
}

/// One rendered page of a single day's events: the events that fit on this page
/// plus continuation/first-page flags. Agenda and details are merged into one
/// list, so a page is fully described by its event slice.
#[derive(Clone, Debug)]
pub struct DayPagePlan {
    pub events: Vec<AgendaEvent>,
    /// True on every page after the day's first (drives the "· cont." marker).
    pub continued: bool,
    /// True on the day's first page (the `#agenda-{day}` pill target).
    pub first_page: bool,
}

impl Default for DayPagePlan {
    fn default() -> (r: DayPagePlan)
        ensures
            r.events@.len() == 0,
            !r.continued,
            !r.first_page,
    {
        DayPagePlan { events: Vec::new(), continued: false, first_page: false }
    }
}

/// `a` and `b` hold the same entry.
pub open spec fn same_event(a: AgendaEvent, b: AgendaEvent) -> bool {
    &&& a.idx == b.idx
    &&& a.label@ == b.label@
    &&& opt_view(a.end_label) == opt_view(b.end_label)
    &&& a.title@ == b.title@
    &&& opt_view(a.location) == opt_view(b.location)
    &&& opt_view(a.description) == opt_view(b.description)
    &&& string_views(a.attendees@) == string_views(b.attendees@)
    &&& a.color@ == b.color@
    &&& a.is_all_day == b.is_all_day
}

/// A copy of an agenda entry.
pub fn copy_event(e: &AgendaEvent) -> (r: AgendaEvent)
    ensures
        same_event(r, *e),
{
    AgendaEvent {
        idx: e.idx,
        label: e.label.clone(),
        end_label: opt_copy(&e.end_label),
        title: e.title.clone(),
        location: opt_copy(&e.location),
        description: opt_copy(&e.description),
        attendees: copy_strings(&e.attendees),
        color: e.color.clone(),
        is_all_day: e.is_all_day,
    }
}

/// Total height of entries `a..b`.
pub open spec fn height_sum(hs: Seq<u32>, a: int, b: int) -> int
    decreases b - a,
{
    if a >= b {
        0
    } else {
        height_sum(hs, a, b - 1) + hs[b - 1]
    }
}

/// Index of the first entry on page `k`.
pub open spec fn page_start(pages: Seq<DayPagePlan>, k: int) -> int
    decreases k,
{
    if k <= 0 {
        0
    } else {
        page_start(pages, k - 1) + pages[k - 1].events@.len()
    }
}

/// `pages` lays out `events` (entry `i` being `hs[i]` tall) greedily on pages
/// that each spend `header` on the date header and hold `usable` in all: the
/// pages hold the entries in order, each page at least one; only the first
/// is the first page and every later one is a continuation; a page holds one
/// oversized entry alone or else fits; and the entry after a page would not
/// have fitted on it.
pub open spec fn paginated(pages: Seq<DayPagePlan>, events: Seq<AgendaEvent>, hs: Seq<u32>, usable: int, header: int) -> bool {
    &&& page_start(pages, pages.len() as int) == events.len()
    &&& forall|k: int|
        0 <= k < pages.len() ==> {
            let p = #[trigger] pages[k];
            let s = page_start(pages, k);
            let c = p.events@.len() as int;
            &&& c > 0
            &&& p.first_page == (k == 0)
            &&& p.continued == (k > 0)
            &&& forall|i: int| 0 <= i < c ==> same_event(#[trigger] p.events@[i], events[s + i])
            &&& (c == 1 || header + height_sum(hs, s, s + c) <= usable)
            &&& (k + 1 < pages.len() ==> header + height_sum(hs, s, s + c + 1) > usable)
        }
}

/// A day with events gets at least one page.
pub proof fn lemma_busy_day_has_pages(pages: Seq<DayPagePlan>, events: Seq<AgendaEvent>, hs: Seq<u32>, usable: int, header: int)
    requires
        paginated(pages, events, hs, usable, header),
        events.len() > 0,
    ensures
        pages.len() >= 1,
{
    if pages.len() == 0 {
        assert(page_start(pages, 0) == 0);
    }
}

proof fn lemma_page_start_push(pages: Seq<DayPagePlan>, p: DayPagePlan, k: int)
    requires
        0 <= k <= pages.len(),
    ensures
        page_start(pages.push(p), k) == page_start(pages, k),
    decreases k,
{
    if k > 0 {
        lemma_page_start_push(pages, p, k - 1);
        assert(pages.push(p)[k - 1] == pages[k - 1]);
    }
}

/// Paginate ONE day's events into per-page plans. Each event is rendered as a full
/// entry (time, title, Where/Notes/Who) sized by `event_pt`, and events fill pages
/// in order. Each page costs `header_pt` (the running date header). An event taller
/// than a fresh page is placed as-is (field capping bounds entry height).
///
/// Heights are whole points: the estimates the month builder makes are whole
/// numbers of points, and against a whole height a page's usable height
/// compares as its whole part.
#[verifier::spinoff_prover]
pub fn paginate_day(day: &AgendaDay, usable_pt: u32, header_pt: u32, event_pt: impl Fn(&AgendaEvent) -> u32) -> (pages: Vec<DayPagePlan>)
    requires
        forall|e: &AgendaEvent| call_requires(event_pt, (e,)),
    ensures
        exists|hs: Seq<u32>| {
            &&& hs.len() == day.events@.len()
            &&& forall|i: int| 0 <= i < hs.len() ==> call_ensures(event_pt, (&day.events@[i],), #[trigger] hs[i])
            &&& paginated(pages@, day.events@, hs, usable_pt as int, header_pt as int)
        },
{
    let events = &day.events;
    let mut hs: Vec<u32> = Vec::new();
    let mut k: usize = 0;
    while k < events.len()
        invariant
            k <= events@.len(),
            forall|e: &AgendaEvent| call_requires(event_pt, (e,)),
            hs@.len() == k,
            forall|i: int| 0 <= i < k ==> call_ensures(event_pt, (&events@[i],), #[trigger] hs@[i]),
        decreases events@.len() - k,
    {
        let h = event_pt(&events[k]);
        hs.push(h);
        k = k + 1;
    }
    let ghost hv = hs@;
    let usable = usable_pt as u64;
    let header = header_pt as u64;
    let mut pages: Vec<DayPagePlan> = Vec::new();
    let mut cur: Vec<AgendaEvent> = Vec::new();
    let mut h: u64 = header;
    let mut i: usize = 0;
    while i < events.len()
        invariant
            hv == hs@,
            hv.len() == events@.len(),
            i <= events@.len(),
            usable == usable_pt as u64,
            header == header_pt as u64,
            page_start(pages@, pages@.len() as int) + cur@.len() == i,
            h == header + height_sum(hv, page_start(pages@, pages@.len() as int), i as int),
            cur@.len() <= 1 || h <= usable,
            h <= 2 * 0xffff_ffffu64,
            forall|j: int| 0 <= j < cur@.len() ==> same_event(#[trigger] cur@[j], events@[page_start(pages@, pages@.len() as int) + j]),
            forall|q: int|
                0 <= q < pages@.len() ==> {
                    let p = #[trigger] pages@[q];
                    let s = page_start(pages@, q);
                    let c = p.events@.len() as int;
                    &&& c > 0
                    &&& p.first_page == (q == 0)
                    &&& p.continued == (q > 0)
                    &&& forall|j: int| 0 <= j < c ==> same_event(#[trigger] p.events@[j], events@[s + j])
                    &&& (c == 1 || header + height_sum(hv, s, s + c) <= usable)
                    &&& header + height_sum(hv, s, s + c + 1) > usable
                },
        decreases events@.len() - i,
    {
        let eh = hs[i] as u64;
        let ghost s0 = page_start(pages@, pages@.len() as int);
        if h + eh > usable && cur.len() > 0 {
            let first = pages.len() == 0;
            let page = DayPagePlan { events: cur, continued: !first, first_page: first };
            let ghost old_pages = pages@;
            pages.push(page);
            proof {
                lemma_page_start_push(old_pages, page, old_pages.len() as int);
                assert forall|q: int| 0 <= q < old_pages.len() implies page_start(pages@, q) == page_start(old_pages, q) by {
                    lemma_page_start_push(old_pages, page, q);
                }
                assert(page_start(pages@, pages@.len() as int) == i);
                assert forall|q: int| 0 <= q < pages@.len() implies {
                    let p = #[trigger] pages@[q];
                    let s = page_start(pages@, q);
                    let c = p.events@.len() as int;
                    &&& c > 0
                    &&& p.first_page == (q == 0)
                    &&& p.continued == (q > 0)
                    &&& forall|j: int| 0 <= j < c ==> same_event(#[trigger] p.events@[j], events@[s + j])
                    &&& (c == 1 || header + height_sum(hv, s, s + c) <= usable)
                    &&& header + height_sum(hv, s, s + c + 1) > usable
                } by {
                    if q < old_pages.len() {
                        assert(pages@[q] == old_pages[q]);
                    } else {
                        assert(pages@[q] == page);
                        assert(s0 + page.events@.len() == i);
                    }
                }
            }
            cur = Vec::new();
            h = header;
        }
        let ghost s1 = page_start(pages@, pages@.len() as int);
        let e = copy_event(&events[i]);
        cur.push(e);
        h = h + eh;
        assert(height_sum(hv, s1, i + 1) == height_sum(hv, s1, i as int) + hv[i as int]);
        i = i + 1;
    }
    if cur.len() > 0 {
        let first = pages.len() == 0;
        let page = DayPagePlan { events: cur, continued: !first, first_page: first };
        let ghost old_pages = pages@;
        let ghost s0 = page_start(old_pages, old_pages.len() as int);
        pages.push(page);
        proof {
            lemma_page_start_push(old_pages, page, old_pages.len() as int);
            assert forall|q: int| 0 <= q < old_pages.len() implies page_start(pages@, q) == page_start(old_pages, q) by {
                lemma_page_start_push(old_pages, page, q);
            }
            assert(page_start(pages@, pages@.len() as int) == events@.len());
            assert forall|q: int| 0 <= q < pages@.len() implies {
                let p = #[trigger] pages@[q];
                let s = page_start(pages@, q);
                let c = p.events@.len() as int;
                &&& c > 0
                &&& p.first_page == (q == 0)
                &&& p.continued == (q > 0)
                &&& forall|j: int| 0 <= j < c ==> same_event(#[trigger] p.events@[j], events@[s + j])
                &&& (c == 1 || header + height_sum(hv, s, s + c) <= usable)
                &&& (q + 1 < pages@.len() ==> header + height_sum(hv, s, s + c + 1) > usable)
            } by {
                if q < old_pages.len() {
                    assert(pages@[q] == old_pages[q]);
                } else {
                    assert(pages@[q] == page);
                }
            }
        }
    }
    assert(paginated(pages@, day.events@, hv, usable_pt as int, header_pt as int));
    pages
}

} // verus!
