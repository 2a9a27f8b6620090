use rmbujo::ics::events::event_map;
use rmbujo::ics::parse::parse_feed;
use rmbujo::ics::zone::Zone;
use rmbujo::ics::EventOccurrence;

const ALLDAY: &str = "BEGIN:VCALENDAR\nVERSION:2.0\nPRODID:-//t//EN\nBEGIN:VEVENT\nUID:a@t\nDTSTART;VALUE=DATE:20270519\nSUMMARY:Holiday\nEND:VEVENT\nEND:VCALENDAR\n";
const TIMED: &str = "BEGIN:VCALENDAR\nVERSION:2.0\nPRODID:-//t//EN\nBEGIN:VEVENT\nUID:b@t\nDTSTART;TZID=America/Toronto:20270519T090000\nSUMMARY:Standup\nEND:VEVENT\nEND:VCALENDAR\n";

/// Parse each feed (skipping ones that fail) the way the year build does.
fn feeds(sources: &[(&[u8], &str)]) -> Vec<Vec<EventOccurrence>> {
    let tz = Zone::parse("America/Toronto").unwrap();
    sources
        .iter()
        .filter_map(|(bytes, color)| parse_feed(bytes, color, 2027, &tz).ok())
        .collect()
}

#[test]
fn merges_and_orders_all_day_before_timed() {
    let map = event_map(feeds(&[(TIMED.as_bytes(), "olive"), (ALLDAY.as_bytes(), "brick")]));
    let day = map.get(&(2027, 5, 19)).unwrap();
    assert_eq!(day.len(), 2);
    assert!(day[0].time.is_none(), "all-day first");
    assert!(day[1].time.is_some(), "timed second");
}

#[test]
fn failing_feed_skipped_not_fatal() {
    let map = event_map(feeds(&[(ALLDAY.as_bytes(), "brick"), (b"not a calendar", "navy")]));
    assert!(map.contains_key(&(2027, 5, 19)));
}

#[test]
fn event_map_keys_are_the_busy_days() {
    let map = event_map(feeds(&[(ALLDAY.as_bytes(), "brick"), (TIMED.as_bytes(), "olive")]));
    assert_eq!(map.len(), 1);
    let day = &map[&(2027, 5, 19)];
    assert_eq!(day[0].color, "brick");
    assert_eq!(day[1].color, "olive");
    assert!(event_map(Vec::new()).is_empty());
}
