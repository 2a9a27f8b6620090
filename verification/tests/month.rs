use std::collections::BTreeMap;

use rmbujo::calendar::build_month;
use rmbujo::ics::{Date, EventOccurrence};
use rmbujo::notebooks::month::agenda::{agenda_days, paginate_day, DayPagePlan};
use rmbujo::notebooks::month::{day_event_fragments, month_day_fragments, month_day_rows, month_notebook};
use rmbujo::templates::{AgendaDay, AgendaEvent};

type EventMap = BTreeMap<(i32, u32, u32), Vec<EventOccurrence>>;

/// Pages of a month notebook: the monthly view, the Tasks and day pages, then
/// each busy day's event pages (entries estimated at a fixed height).
fn month_pages(year: i32, month: u32, pages_per_day: u32, events: &EventMap) -> usize {
    let m = build_month(year, month, "sun").unwrap();
    let mut n = 1 + month_day_fragments(&m, events, pages_per_day).len();
    for day in agenda_days(&m, events, year, month) {
        let plan = paginate_day(&day, 700, 20, |_| 120);
        n += day_event_fragments(month, &day, &plan).len();
    }
    n
}

fn occurrence(y: i32, m: u32, d: u32, title: &str, location: Option<&str>) -> EventOccurrence {
    EventOccurrence {
        date: Date { year: y, month: m, day: d },
        time: None,
        end_time: None,
        title: title.into(),
        location: location.map(|l| l.into()),
        description: None,
        attendees: vec![],
        color: "brick".into(),
    }
}

#[test]
fn month_page_count_static() {
    // monthly view + tasks + 31 daily pages (May has 31 days)
    assert_eq!(month_pages(2027, 5, 1, &BTreeMap::new()), 2 + 31);
}

#[test]
fn month_pages_per_day_multiplies_daily() {
    // Feb 2027 = 28 days
    assert_eq!(month_pages(2027, 2, 2, &BTreeMap::new()), 2 + 28 * 2);
}

#[test]
fn events_only_add_trailing_pages() {
    let base = month_pages(2027, 5, 1, &BTreeMap::new());
    assert_eq!(base, 2 + 31);
    let mut ev = BTreeMap::new();
    ev.insert((2027, 5, 19), vec![occurrence(2027, 5, 19, "Holiday", None)]);
    let withev = month_pages(2027, 5, 1, &ev);
    assert!(withev > base, "events add trailing pages");
    assert_eq!(
        withev,
        base + 1,
        "a small one-event day is a single combined agenda+details page"
    );
}

#[test]
fn busy_month_paginates_per_day_pages() {
    let mut ev: EventMap = BTreeMap::new();
    for day in 1..=28u32 {
        let evs = (0..3)
            .map(|i| occurrence(2027, 1, day, &format!("Event {i}"), Some("Somewhere")))
            .collect();
        ev.insert((2027, 1, day), evs);
    }
    let pages = month_pages(2027, 1, 1, &ev);
    assert!(
        pages > 33 + 1,
        "busy month should paginate per-day event pages beyond one page (got {pages})"
    );
}

fn mk_event(title: &str) -> AgendaEvent {
    AgendaEvent {
        idx: 0,
        label: "09:00".into(),
        end_label: None,
        title: title.into(),
        location: None,
        description: None,
        attendees: vec![],
        color: "cal1".into(),
        is_all_day: false,
    }
}

#[test]
fn paginate_day_small_day_one_page() {
    let day = AgendaDay {
        day: 5,
        weekday: "Wed",
        events: (0..2).map(|_| mk_event("Event")).collect(),
    };
    // header 20 + 2 events * 10 = 40 <= 200 -> a single page.
    let pages = paginate_day(&day, 200, 20, |_| 10);
    assert_eq!(pages.len(), 1, "small day fits on one page");
    let p = &pages[0];
    assert!(p.first_page && !p.continued);
    assert_eq!(p.events.len(), 2);
}

#[test]
fn paginate_day_overflows_across_pages() {
    let day = AgendaDay {
        day: 5,
        weekday: "Wed",
        events: (0..5).map(|_| mk_event("Event")).collect(),
    };
    // header 20, each event 40, usable 100. Running page height after each placement:
    // p0: e0->60, e1->100 (full); e2 needs 40 -> 140>100 flush.
    // p1: e2->60, e3->100 (full); e4 needs 40 -> flush. p2: e4->60.
    let pages = paginate_day(&day, 100, 20, |_| 40);
    assert_eq!(pages.len(), 3);
    assert!(pages[0].first_page && !pages[0].continued);
    assert_eq!(pages[0].events.len(), 2);
    assert!(pages[1].continued && !pages[1].first_page);
    assert_eq!(pages[1].events.len(), 2);
    assert!(pages[2].continued);
    assert_eq!(pages[2].events.len(), 1);
    let total: usize = pages.iter().map(|p| p.events.len()).sum();
    assert_eq!(total, 5, "no events lost when splitting");
}

#[test]
fn paginate_day_oversized_lone_event_placed() {
    let day = AgendaDay {
        day: 5,
        weekday: "Wed",
        events: vec![mk_event("BIG"), mk_event("small")],
    };
    // First event far taller than a page: must be placed alone (not dropped/looped),
    // the second flushes onto p1.
    let pages = paginate_day(&day, 100, 20, |e| if e.title == "BIG" { 500 } else { 40 });
    assert_eq!(pages.len(), 2);
    assert_eq!(pages[0].events.len(), 1, "oversized event placed alone");
    assert_eq!(pages[0].events[0].title, "BIG");
    assert_eq!(pages[1].events.len(), 1);
}

#[test]
fn paginate_empty_day_has_no_pages() {
    let day = AgendaDay { day: 1, weekday: "Mon", events: vec![] };
    assert!(paginate_day(&day, 100, 20, |_| 10).is_empty());
    assert_eq!(DayPagePlan::default().events.len(), 0);
}

#[test]
fn paginate_keeps_event_order() {
    let day = AgendaDay {
        day: 9,
        weekday: "Fri",
        events: ["a", "b", "c", "d"].iter().map(|t| mk_event(t)).collect(),
    };
    let pages = paginate_day(&day, 90, 10, |_| 30);
    let titles: Vec<Vec<String>> = pages
        .iter()
        .map(|p| p.events.iter().map(|e| e.title.clone()).collect())
        .collect();
    assert_eq!(titles, vec![vec!["a", "b"], vec!["c", "d"]]);
}

#[test]
fn agenda_rows_follow_the_event_map() {
    let m = build_month(2027, 5, "sun").unwrap();
    let mut ev: EventMap = BTreeMap::new();
    ev.insert((2027, 5, 3), vec![occurrence(2027, 5, 3, "A", Some("Home"))]);
    ev.insert((2027, 5, 1), vec![]);
    ev.insert((2027, 6, 1), vec![occurrence(2027, 6, 1, "Other month", None)]);
    let days = agenda_days(&m, &ev, 2027, 5);
    assert_eq!(days.len(), 1);
    assert_eq!(days[0].day, 3);
    assert_eq!(days[0].weekday, "Mon");
    assert_eq!(days[0].events[0].idx, 0);
    assert_eq!(days[0].events[0].label, "All Day");
    assert!(days[0].events[0].is_all_day);
    assert_eq!(days[0].events[0].location.as_deref(), Some("Home"));
}

#[test]
fn day_pages_carry_the_event_badge() {
    let m = build_month(2027, 5, "sun").unwrap();
    let mut ev: EventMap = BTreeMap::new();
    ev.insert((2027, 5, 19), vec![occurrence(2027, 5, 19, "A", None), occurrence(2027, 5, 19, "B", None)]);
    let frags = month_day_fragments(&m, &ev, 1);
    assert!(frags[0].contains("[Tasks]"));
    assert!(frags[19].contains("#cbadge(2, label(\"agenda-19\"))"));
    assert!(frags[19].contains("5.19 Wed"));
    assert!(!frags[18].contains("cbadge"));
}

#[test]
fn monthly_rows_count_each_days_events() {
    let m = build_month(2026, 5, "sun").unwrap();
    let mut ev: EventMap = BTreeMap::new();
    ev.insert((2026, 5, 18), vec![occurrence(2026, 5, 18, "A", None), occurrence(2026, 5, 18, "B", None)]);
    ev.insert((2026, 6, 18), vec![occurrence(2026, 6, 18, "Other month", None)]);
    let rows = month_day_rows(&m, &ev);
    assert_eq!(rows.len(), 31);
    assert_eq!(rows[17].day, 18);
    assert_eq!(rows[17].weekday, "Mon");
    assert_eq!(rows[17].event_count, 2);
    assert_eq!(rows[16].event_count, 0);
    assert!(rows[2].week_start);
    assert!(!rows[3].week_start);
}

#[test]
fn month_notebook_appends_event_pages_after_day_pages() {
    let m = build_month(2027, 5, "sun").unwrap();
    let mut ev: EventMap = BTreeMap::new();
    ev.insert((2027, 5, 19), vec![occurrence(2027, 5, 19, "Dentist", None)]);
    let busy = agenda_days(&m, &ev, 2027, 5);
    let plans: Vec<Vec<DayPagePlan>> = busy.iter().map(|d| paginate_day(d, 700, 20, |_| 120)).collect();
    let pages = month_notebook("MONTHLY".to_string(), &m, &ev, 2, &busy, &plans);
    assert_eq!(pages.len(), 2 + 31 * 2 + 1);
    assert_eq!(pages[0], "MONTHLY");
    assert!(pages[1].contains("[Tasks]"));
    assert!(pages[64].contains("Dentist"));
    let quiet = month_notebook("MONTHLY".to_string(), &m, &BTreeMap::new(), 2, &vec![], &vec![]);
    assert_eq!(quiet.len(), 2 + 31 * 2);
    // Day pages keep their places; only day 19's page gains its badge.
    assert!(pages[2 + 18 * 2].contains("#cbadge(1, label(\"agenda-19\"))"));
    assert!(!quiet[2 + 18 * 2].contains("cbadge"));
}
