//! The monthly notebook: its day pages and its per-day event pages.
pub mod agenda;

use vstd::prelude::*;
use std::collections::BTreeMap;
use crate::calendar::{Day, Month};
use crate::ics::EventOccurrence;
use crate::templates::{daily_page_spec, day_events_spec, AgendaDay, AgendaEvent, DailyPage, DayEvents, DayRow,
    DotGrid, Tasks};
use crate::text::{pad2, push_pad2, string_views};
use agenda::{busy_days, has_events, DayPagePlan};

verus! {

/// The Tasks page fragment.
pub open spec fn tasks_page() -> Seq<char> {
    "#dot-page[\n#text(font: \"Fraunces 72pt\", size: head-fs, weight: 600, fill: primary)[Tasks]\n]\n"@
}

/// A blank dot-grid page fragment.
pub open spec fn dot_page() -> Seq<char> {
    "#dot-page[]\n"@
}

/// Occurrences on `(year, month, day)` in an event map (0 when the day has no
/// entry).
pub open spec fn event_count(events: Map<(i32, u32, u32), Vec<EventOccurrence>>, year: i32, month: u32, day: u32) -> nat {
    if events.dom().contains((year, month, day)) {
        events[(year, month, day)]@.len()
    } else {
        0
    }
}

/// The monthly view's rows: one per day of the month, in order, each with the
/// day's number, weekday, week-start flag and event count.
#[verifier::spinoff_prover]
pub fn month_day_rows(m: &Month, events: &BTreeMap<(i32, u32, u32), Vec<EventOccurrence>>) -> (r: Vec<DayRow>)
    ensures
        r@.len() == m.days@.len(),
        forall|i: int| 0 <= i < r@.len() ==> {
            let row = #[trigger] r@[i];
            let d = m.days@[i];
            &&& row.day == d.day
            &&& row.weekday@ == d.weekday@
            &&& row.week_start == d.week_start
            &&& row.event_count == event_count(events@, m.year, m.month, d.day)
        },
{
    broadcast use vstd::std_specs::btree::group_btree_axioms;

    proof {
        crate::ics::lemma_date_keys_ordered();
    }
    let mut out: Vec<DayRow> = Vec::new();
    let mut i: usize = 0;
    while i < m.days.len()
        invariant
            i <= m.days@.len(),
            crate::ics::date_keys_ordered(),
            out@.len() == i,
            forall|k: int| 0 <= k < i ==> {
                let row = #[trigger] out@[k];
                let d = m.days@[k];
                &&& row.day == d.day
                &&& row.weekday@ == d.weekday@
                &&& row.week_start == d.week_start
                &&& row.event_count == event_count(events@, m.year, m.month, d.day)
            },
        decreases m.days@.len() - i,
    {
        let d = &m.days[i];
        let count: usize = match events.get(&(m.year, m.month, d.day)) {
            Some(v) => v.len(),
            None => 0,
        };
        out.push(DayRow { day: d.day, weekday: d.weekday, week_start: d.week_start, event_count: count });
        i = i + 1;
    }
    out
}

/// The pages of one day: its day page, then `pages_per_day - 1` blank
/// dot-grid pages.
pub open spec fn day_section(d: Day, month: u32, count: nat, pages_per_day: nat) -> Seq<Seq<char>> {
    seq![daily_page_spec(d.day as int, pad2(d.day as nat), month as int, d.weekday@, count as int)]
        + Seq::new((if pages_per_day > 0 { pages_per_day - 1 } else { 0 }) as nat, |i: int| dot_page())
}

/// The day pages of the days `days` of a month, in order.
pub open spec fn days_section(days: Seq<Day>, year: i32, month: u32, events: Map<(i32, u32, u32), Vec<EventOccurrence>>, pages_per_day: nat) -> Seq<Seq<char>>
    decreases days.len(),
{
    if days.len() == 0 {
        Seq::empty()
    } else {
        let d = days.last();
        days_section(days.drop_last(), year, month, events, pages_per_day) + day_section(
            d,
            month,
            event_count(events, year, month, d.day),
            pages_per_day,
        )
    }
}

/// The month notebook's pages after its monthly view: the Tasks page, then
/// each day's page (with its event-count badge) followed by
/// `pages_per_day - 1` blank dot-grid pages.
#[verifier::spinoff_prover]
pub fn month_day_fragments(m: &Month, events: &BTreeMap<(i32, u32, u32), Vec<EventOccurrence>>, pages_per_day: u32) -> (r: Vec<String>)
    ensures
        string_views(r@) == seq![tasks_page()] + days_section(m.days@, m.year, m.month, events@, pages_per_day as nat),
{
    broadcast use vstd::std_specs::btree::group_btree_axioms;

    proof {
        crate::ics::lemma_date_keys_ordered();
    }
    let mut out: Vec<String> = Vec::new();
    out.push(Tasks.typst());
    let mut i: usize = 0;
    while i < m.days.len()
        invariant
            i <= m.days@.len(),
            crate::ics::date_keys_ordered(),
            string_views(out@) == seq![tasks_page()] + days_section(m.days@.take(i as int), m.year, m.month, events@, pages_per_day as nat),
        decreases m.days@.len() - i,
    {
        let d = &m.days[i];
        assert(m.days@.take(i + 1).drop_last() == m.days@.take(i as int));
        assert(m.days@.take(i + 1).last() == *d);
        let count: usize = match events.get(&(m.year, m.month, d.day)) {
            Some(v) => v.len(),
            None => 0,
        };
        assert(count == event_count(events@, m.year, m.month, d.day));
        let mut day_pad = String::new();
        push_pad2(&mut day_pad, d.day);
        let page = DailyPage { day: d.day, day_pad, month_num: m.month, weekday: d.weekday, event_count: count }.typst();
        let ghost before = string_views(out@);
        out.push(page);
        let mut k: u32 = 1;
        while k < pages_per_day
            invariant
                1 <= k <= pages_per_day || (k == 1 && pages_per_day == 0),
                string_views(out@) == before + seq![page@] + Seq::new((k - 1) as nat, |j: int| dot_page()),
            decreases pages_per_day - k,
        {
            let ghost prev = string_views(out@);
            out.push(DotGrid.typst());
            assert(string_views(out@) =~= prev.push(dot_page()));
            assert(Seq::new(k as nat, |j: int| dot_page()) =~= Seq::new((k - 1) as nat, |j: int| dot_page()).push(dot_page()));
            k = k + 1;
        }
        proof {
            let n: nat = (if pages_per_day > 0 { pages_per_day - 1 } else { 0 }) as nat;
            assert((k - 1) as nat == n);
            assert(string_views(out@) =~= before + day_section(*d, m.month, count as nat, pages_per_day as nat));
        }
        i = i + 1;
    }
    assert(m.days@.take(i as int) == m.days@);
    out
}

/// A month's day pages number `pages_per_day` per day (one when it is 0).
pub proof fn law_day_pages_per_day(days: Seq<Day>, year: i32, month: u32, events: Map<(i32, u32, u32), Vec<EventOccurrence>>, pages_per_day: nat)
    ensures
        days_section(days, year, month, events, pages_per_day).len() == days.len() * (if pages_per_day > 0 { pages_per_day } else { 1 }),
    decreases days.len(),
{
    if days.len() > 0 {
        law_day_pages_per_day(days.drop_last(), year, month, events, pages_per_day);
        let k: int = if pages_per_day > 0 { pages_per_day as int } else { 1 };
        let n = days.len() as int;
        assert((n - 1) * k + k == n * k) by (nonlinear_arith);
    }
}

/// The event pages of one busy day, one per page of its plan.
pub open spec fn day_event_pages(month: u32, a: AgendaDay, pages: Seq<DayPagePlan>) -> Seq<Seq<char>> {
    pages.map_values(|p: DayPagePlan| day_events_spec(
        month as int,
        a.day as int,
        pad2(a.day as nat),
        a.weekday@,
        p.events@,
        p.continued,
        p.first_page,
    ))
}

/// The event pages of one busy day, as its page plan lays them out.
pub fn day_event_fragments(month_num: u32, day: &AgendaDay, pages: &Vec<DayPagePlan>) -> (r: Vec<String>)
    ensures
        string_views(r@) == day_event_pages(month_num, *day, pages@),
{
    let mut out: Vec<String> = Vec::new();
    let mut i: usize = 0;
    while i < pages.len()
        invariant
            i <= pages@.len(),
            string_views(out@) == day_event_pages(month_num, *day, pages@.take(i as int)),
        decreases pages@.len() - i,
    {
        let p = &pages[i];
        let mut day_pad = String::new();
        push_pad2(&mut day_pad, day.day);
        let no_agenda: Vec<AgendaEvent> = Vec::new();
        let page = DayEvents {
            month_num,
            day: day.day,
            day_pad,
            weekday: day.weekday,
            agenda: no_agenda.as_slice(),
            details: p.events.as_slice(),
            show_agenda_heading: false,
            show_details_heading: false,
            continued: p.continued,
            first_page: p.first_page,
        }.typst();
        let ghost prev = string_views(out@);
        out.push(page);
        assert(string_views(out@) =~= prev.push(page@));
        assert(pages@.take(i + 1) =~= pages@.take(i as int).push(*p));
        assert(day_event_pages(month_num, *day, pages@.take(i + 1)) =~= day_event_pages(month_num, *day, pages@.take(i as int)).push(page@));
        i = i + 1;
    }
    assert(pages@.take(i as int) == pages@);
    out
}

/// The event pages of every busy day, in order, each day laid out by its
/// page plan.
pub open spec fn all_event_pages(month: u32, days: Seq<AgendaDay>, plans: Seq<Vec<DayPagePlan>>) -> Seq<Seq<char>>
    decreases days.len(),
{
    if days.len() == 0 || plans.len() < days.len() {
        Seq::empty()
    } else {
        let k = days.len() - 1;
        all_event_pages(month, days.drop_last(), plans.take(k)) + day_event_pages(month, days[k], plans[k]@)
    }
}

/// The number of pages in the page plans of the first `k` busy days.
pub open spec fn planned_pages(plans: Seq<Vec<DayPagePlan>>, k: int) -> nat
    decreases k,
{
    if k <= 0 || k > plans.len() {
        0
    } else {
        planned_pages(plans, k - 1) + plans[k - 1]@.len()
    }
}

/// The whole month notebook, in page order: the monthly view, the Tasks
/// page, each day's pages, then each busy day's event pages.
pub open spec fn month_notebook_spec(
    monthly: Seq<char>,
    m: Month,
    events: Map<(i32, u32, u32), Vec<EventOccurrence>>,
    pages_per_day: nat,
    days: Seq<AgendaDay>,
    plans: Seq<Vec<DayPagePlan>>,
) -> Seq<Seq<char>> {
    seq![monthly] + (seq![tasks_page()] + days_section(m.days@, m.year, m.month, events, pages_per_day))
        + all_event_pages(m.month, days, plans)
}

/// Assemble a month notebook from its monthly-view page (laid out by the
/// caller), the busy days and each one's page plan.
#[verifier::spinoff_prover]
pub fn month_notebook(
    monthly: String,
    m: &Month,
    events: &BTreeMap<(i32, u32, u32), Vec<EventOccurrence>>,
    pages_per_day: u32,
    days: &Vec<AgendaDay>,
    plans: &Vec<Vec<DayPagePlan>>,
) -> (r: Vec<String>)
    requires
        plans@.len() == days@.len(),
    ensures
        string_views(r@) == month_notebook_spec(monthly@, *m, events@, pages_per_day as nat, days@, plans@),
{
    let mut out: Vec<String> = Vec::new();
    out.push(monthly);
    let mut rest = month_day_fragments(m, events, pages_per_day);
    let ghost a = out@;
    let ghost b = rest@;
    out.append(&mut rest);
    assert(string_views(out@) =~= string_views(a) + string_views(b));
    let ghost base = string_views(out@);
    let mut k: usize = 0;
    while k < days.len()
        invariant
            k <= days@.len(),
            plans@.len() == days@.len(),
            string_views(out@) == base + all_event_pages(m.month, days@.take(k as int), plans@.take(k as int)),
        decreases days@.len() - k,
    {
        let mut pages = day_event_fragments(m.month, &days[k], &plans[k]);
        let ghost before = out@;
        let ghost added = pages@;
        out.append(&mut pages);
        proof {
            assert(string_views(out@) =~= string_views(before) + string_views(added));
            assert(days@.take(k + 1).drop_last() =~= days@.take(k as int));
            assert(plans@.take(k + 1).take(k as int) =~= plans@.take(k as int));
            assert(days@.take(k + 1)[k as int] == days@[k as int]);
            assert(plans@.take(k + 1)[k as int] == plans@[k as int]);
        }
        k = k + 1;
    }
    assert(days@.take(k as int) =~= days@);
    assert(plans@.take(k as int) =~= plans@);
    out
}

/// How many pages the event pages of the busy days take: one per page of
/// their plans.
pub proof fn lemma_all_event_pages_len(month: u32, days: Seq<AgendaDay>, plans: Seq<Vec<DayPagePlan>>)
    requires
        plans.len() == days.len(),
    ensures
        all_event_pages(month, days, plans).len() == planned_pages(plans, days.len() as int),
    decreases days.len(),
{
    if days.len() > 0 {
        let k = days.len() - 1;
        lemma_all_event_pages_len(month, days.drop_last(), plans.take(k));
        lemma_planned_pages_prefix(plans.take(k), plans, k);
        assert(day_event_pages(month, days[k], plans[k]@).len() == plans[k]@.len());
        assert(planned_pages(plans, k + 1) == planned_pages(plans, k) + plans[k]@.len());
    }
}

proof fn lemma_planned_pages_prefix(a: Seq<Vec<DayPagePlan>>, b: Seq<Vec<DayPagePlan>>, j: int)
    requires
        0 <= j <= a.len() <= b.len(),
        forall|i: int| 0 <= i < a.len() ==> a[i] == b[i],
    ensures
        planned_pages(a, j) == planned_pages(b, j),
    decreases j,
{
    if j > 0 {
        lemma_planned_pages_prefix(a, b, j - 1);
    }
}

/// A month notebook has the monthly view, the Tasks page and
/// `pages_per_day` pages per day (one when it is 0), then exactly the pages
/// of the busy days' plans: events only add pages after the day pages, and
/// a month without busy days has no event pages at all.
pub proof fn law_month_page_count(
    monthly: Seq<char>,
    m: Month,
    events: Map<(i32, u32, u32), Vec<EventOccurrence>>,
    pages_per_day: nat,
    days: Seq<AgendaDay>,
    plans: Seq<Vec<DayPagePlan>>,
)
    requires
        plans.len() == days.len(),
    ensures
        month_notebook_spec(monthly, m, events, pages_per_day, days, plans).len() == 2 + m.days@.len() * (
        if pages_per_day > 0 {
            pages_per_day
        } else {
            1
        }) + planned_pages(plans, days.len() as int),
        days.len() == 0 ==> month_notebook_spec(monthly, m, events, pages_per_day, days, plans).len() == 2
            + m.days@.len() * (if pages_per_day > 0 {
            pages_per_day
        } else {
            1
        }),
{
    law_day_pages_per_day(m.days@, m.year, m.month, events, pages_per_day);
    lemma_all_event_pages_len(m.month, days, plans);
}

/// Some day of `days` has events exactly when the busy days are not empty.
proof fn lemma_busy_days_nonempty(days: Seq<Day>, events: Map<(i32, u32, u32), Vec<EventOccurrence>>, year: i32, month: u32)
    ensures
        busy_days(days, events, year, month).len() > 0 <==> exists|i: int| 0 <= i < days.len() && has_events(events, year, month, #[trigger] days[i].day),
    decreases days.len(),
{
    if days.len() > 0 {
        let rest = days.drop_last();
        lemma_busy_days_nonempty(rest, events, year, month);
        if exists|i: int| 0 <= i < rest.len() && has_events(events, year, month, #[trigger] rest[i].day) {
            let i = choose|i: int| 0 <= i < rest.len() && has_events(events, year, month, #[trigger] rest[i].day);
            assert(days[i] == rest[i]);
        }
        if exists|i: int| 0 <= i < days.len() && has_events(events, year, month, #[trigger] days[i].day) {
            let i = choose|i: int| 0 <= i < days.len() && has_events(events, year, month, #[trigger] days[i].day);
            if i < rest.len() {
                assert(rest[i] == days[i]);
            }
        }
    }
}

proof fn lemma_planned_pages_at_least(plans: Seq<Vec<DayPagePlan>>, k: int)
    requires
        0 <= k <= plans.len(),
        forall|j: int| 0 <= j < plans.len() ==> (#[trigger] plans[j])@.len() >= 1,
    ensures
        planned_pages(plans, k) >= k,
    decreases k,
{
    if k > 0 {
        lemma_planned_pages_at_least(plans, k - 1);
    }
}

/// Events only ever add pages to a month notebook, after its day pages, and
/// they add some exactly when a day of the month has events: with one page
/// plan (of at least one page, as `paginate_day` gives a day with events)
/// per busy day, the notebook is longer than the monthly view, the Tasks
/// page and the day pages exactly when some day of the month has events.
pub proof fn law_events_add_pages(
    monthly: Seq<char>,
    m: Month,
    events: Map<(i32, u32, u32), Vec<EventOccurrence>>,
    pages_per_day: nat,
    days: Seq<AgendaDay>,
    plans: Seq<Vec<DayPagePlan>>,
)
    requires
        plans.len() == days.len(),
        days.len() == busy_days(m.days@, events, m.year, m.month).len(),
        forall|k: int| 0 <= k < plans.len() ==> (#[trigger] plans[k])@.len() >= 1,
    ensures
        ({
            let base = 2 + m.days@.len() * (if pages_per_day > 0 { pages_per_day } else { 1 });
            let n = month_notebook_spec(monthly, m, events, pages_per_day, days, plans).len();
            &&& n >= base
            &&& n > base <==> exists|i: int| 0 <= i < m.days@.len() && has_events(events, m.year, m.month, #[trigger] m.days@[i].day)
        }),
{
    law_month_page_count(monthly, m, events, pages_per_day, days, plans);
    lemma_planned_pages_at_least(plans, days.len() as int);
    lemma_busy_days_nonempty(m.days@, events, m.year, m.month);
}

} // verus!
