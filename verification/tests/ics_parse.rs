use rmbujo::ics::parse::{parse_feed, parse_feed_checked, unescape_text, IcsError};
use rmbujo::ics::zone::Zone;
use rmbujo::ics::{Date, EventOccurrence, Time};

const HOLIDAYS: &str = "BEGIN:VCALENDAR\nVERSION:2.0\nPRODID:-//rmbujo//test//EN\n\
BEGIN:VEVENT\nUID:dated@t\nDTSTART;VALUE=DATE:20270519\nSUMMARY:Spring holiday\nEND:VEVENT\n\
BEGIN:VEVENT\nUID:span@t\nDTSTART;VALUE=DATE:20270524\nDTEND;VALUE=DATE:20270527\nSUMMARY:Long weekend\nEND:VEVENT\n\
BEGIN:VEVENT\nUID:bday@t\nDTSTART;VALUE=DATE:20000115\nRRULE:FREQ=YEARLY\nSUMMARY:Sam's birthday\nEND:VEVENT\n\
BEGIN:VEVENT\nUID:old@t\nDTSTART;VALUE=DATE:20260519\nSUMMARY:Last year\nEND:VEVENT\n\
END:VCALENDAR\n";

const TIMED: &str = "BEGIN:VCALENDAR\nVERSION:2.0\nPRODID:-//rmbujo//test//EN\n\
BEGIN:VEVENT\nUID:dentist@t\nDTSTART;TZID=America/Toronto:20270519T140000\nSUMMARY:Dentist\nLOCATION:Downtown\nEND:VEVENT\n\
BEGIN:VEVENT\nUID:late@t\nDTSTART:20270520T030000Z\nSUMMARY:Late call\nEND:VEVENT\n\
END:VCALENDAR\n";

fn parse(text: &str, tz: &str) -> Vec<EventOccurrence> {
    parse_feed(text.as_bytes(), "brick", 2027, &Zone::parse(tz).unwrap()).unwrap()
}

fn date(y: i32, m: u32, d: u32) -> Date {
    Date { year: y, month: m, day: d }
}

fn hms(h: u32, m: u32, s: u32) -> Option<Time> {
    Some(Time { hour: h, minute: m, second: s })
}

#[test]
fn all_day_dated_multiday_rrule_yearclip() {
    let evs = parse(HOLIDAYS, "America/Toronto");
    assert!(evs.iter().all(|e| e.time.is_none()));
    assert!(evs.iter().all(|e| e.date.year == 2027)); // out-of-year excluded
    let on = |m, d| evs.iter().filter(|e| e.date == date(2027, m, d)).count();
    assert_eq!(on(5, 19), 1); // dated
    assert_eq!(on(5, 24) + on(5, 25) + on(5, 26), 3); // 3-day span (DTEND 27 exclusive)
    assert_eq!(on(5, 27), 0); // DTEND exclusive
    assert!(evs
        .iter()
        .any(|e| e.title.contains("birthday") && e.date == date(2027, 1, 15))); // RRULE
    assert!(evs.iter().all(|e| e.color == "brick"));
}

#[test]
fn timed_convert_to_config_tz_with_day_shift() {
    let evs = parse(TIMED, "America/Toronto");
    assert!(evs.iter().any(|e| e.title == "Dentist"
        && e.time == hms(14, 0, 0)
        && e.date == date(2027, 5, 19)
        && e.location.as_deref() == Some("Downtown")));
    // UTC 2027-05-20T03:00Z -> 2027-05-19 23:00 local
    assert!(evs.iter().any(|e| e.title == "Late call"
        && e.date == date(2027, 5, 19)
        && e.time == hms(23, 0, 0)));
}

#[test]
fn occurrences_come_sorted() {
    let evs = parse(HOLIDAYS, "America/Toronto");
    let days: Vec<(u32, u32)> = evs.iter().map(|e| (e.date.month, e.date.day)).collect();
    assert_eq!(days, vec![(1, 15), (5, 19), (5, 24), (5, 25), (5, 26)]);
    let timed = parse(TIMED, "America/Toronto");
    // Both on May 19: 14:00 before 23:00.
    assert_eq!(timed[0].title, "Dentist");
    assert_eq!(timed[1].title, "Late call");
}

#[test]
fn same_instant_in_another_zone() {
    let evs = parse(TIMED, "Europe/Berlin");
    // 14:00 Toronto (EDT, UTC-4) is 20:00 in Berlin (CEST, UTC+2).
    assert!(evs.iter().any(|e| e.title == "Dentist" && e.date == date(2027, 5, 19) && e.time == hms(20, 0, 0)));
    // 03:00Z is 05:00 in Berlin on May 20.
    assert!(evs.iter().any(|e| e.title == "Late call" && e.date == date(2027, 5, 20) && e.time == hms(5, 0, 0)));
}

#[test]
fn text_fields_are_unescaped_and_attendees_stripped() {
    let feed = "BEGIN:VCALENDAR\nVERSION:2.0\nPRODID:-//t//EN\n\
BEGIN:VEVENT\nUID:x@t\nDTSTART;VALUE=DATE:20270301\nSUMMARY:Plan\\, review\\; ship\nDESCRIPTION:line one\\nline two\nATTENDEE:mailto:sam@example.com\nATTENDEE:MAILTO:kim@example.com\nATTENDEE:lee\nEND:VEVENT\n\
END:VCALENDAR\n";
    let evs = parse(feed, "UTC");
    assert_eq!(evs.len(), 1);
    let e = &evs[0];
    assert_eq!(e.title, "Plan, review; ship");
    assert_eq!(e.description.as_deref(), Some("line one\nline two"));
    assert_eq!(e.location, None);
    assert_eq!(e.end_time, None);
    assert_eq!(e.attendees, vec!["sam@example.com", "kim@example.com", "lee"]);
}

#[test]
fn malformed_events_are_skipped() {
    let feed = "BEGIN:VCALENDAR\nVERSION:2.0\nPRODID:-//t//EN\n\
BEGIN:VEVENT\nUID:a@t\nSUMMARY:No start\nEND:VEVENT\n\
BEGIN:VEVENT\nUID:b@t\nDTSTART;VALUE=DATE:2027xx01\nSUMMARY:Bad date\nEND:VEVENT\n\
BEGIN:VEVENT\nUID:c@t\nDTSTART;TZID=Mars/Olympus:20270301T090000\nSUMMARY:Bad zone\nEND:VEVENT\n\
BEGIN:VEVENT\nUID:d@t\nDTSTART:20270301\nSUMMARY:Bare date\nEND:VEVENT\n\
END:VCALENDAR\n";
    let evs = parse(feed, "UTC");
    assert_eq!(evs.len(), 1);
    assert_eq!(evs[0].title, "Bare date");
    assert_eq!(evs[0].date, date(2027, 3, 1));
    assert_eq!(evs[0].time, None);
}

#[test]
fn missing_summary_gives_empty_title() {
    let feed = "BEGIN:VCALENDAR\nVERSION:2.0\nPRODID:-//t//EN\n\
BEGIN:VEVENT\nUID:a@t\nDTSTART:20270301T101500\nEND:VEVENT\n\
END:VCALENDAR\n";
    let evs = parse(feed, "Asia/Tokyo");
    assert_eq!(evs.len(), 1);
    assert_eq!(evs[0].title, "");
    // A floating time is read in the configured zone.
    assert_eq!(evs[0].time, hms(10, 15, 0));
}

#[test]
fn weekly_timed_rule_keeps_wall_clock_time() {
    let feed = "BEGIN:VCALENDAR\nVERSION:2.0\nPRODID:-//t//EN\n\
BEGIN:VEVENT\nUID:w@t\nDTSTART;TZID=America/Toronto:20270301T090000\nRRULE:FREQ=WEEKLY;COUNT=3\nSUMMARY:Standup\nEND:VEVENT\n\
END:VCALENDAR\n";
    let evs = parse(feed, "America/Toronto");
    // March 15 2027 is after the DST switch (March 14); 09:00 stays 09:00.
    let got: Vec<(Date, Option<Time>)> = evs.iter().map(|e| (e.date, e.time)).collect();
    assert_eq!(
        got,
        vec![
            (date(2027, 3, 1), hms(9, 0, 0)),
            (date(2027, 3, 8), hms(9, 0, 0)),
            (date(2027, 3, 15), hms(9, 0, 0)),
        ]
    );
}

#[test]
fn unreadable_feed_is_an_error() {
    let r = parse_feed(b"hello", "brick", 2027, &Zone::parse("UTC").unwrap());
    assert!(matches!(r, Err(IcsError::Feed(_))));
    let empty = parse_feed(b"", "brick", 2027, &Zone::parse("UTC").unwrap()).unwrap();
    assert!(empty.is_empty());
}

#[test]
fn checked_parse_refuses_unbounded_years() {
    let utc = Zone::parse("UTC").unwrap();
    assert_eq!(
        parse_feed_checked(HOLIDAYS.as_bytes(), "brick", 262142, &utc).unwrap_err(),
        IcsError::UnboundedYear(262142)
    );
    let ok = parse_feed_checked(HOLIDAYS.as_bytes(), "brick", 2027, &utc).unwrap();
    assert_eq!(ok.len(), 5);
}

#[test]
fn unescape_rules() {
    assert_eq!(unescape_text("a\\nb\\Nc"), "a\nb\nc");
    assert_eq!(unescape_text("x\\\\y"), "x\\y");
    assert_eq!(unescape_text("\\q"), "\\q");
    assert_eq!(unescape_text("end\\"), "end\\");
    assert_eq!(unescape_text("plain"), "plain");
}
