//! ICS (iCalendar) ingestion: fetching helpers, TEXT decoding and the
//! expansion of feed events into per-day occurrences.
use vstd::prelude::*;
use crate::text::{opt_view, string_views};

pub mod events;
pub mod fetch;
pub mod instant;
pub mod order;
pub mod parse;
pub mod zone;

verus! {

/// A calendar date (proleptic Gregorian).
#[derive(Debug, Clone, Copy, PartialEq, Eq, Structural)]
pub struct Date {
    pub year: i32,
    pub month: u32,
    pub day: u32,
}

/// A wall-clock time of day.
#[derive(Debug, Clone, Copy, PartialEq, Eq, Structural)]
pub struct Time {
    pub hour: u32,
    pub minute: u32,
    pub second: u32,
}

/// A single calendar event materialized onto one specific day.
///
/// Multi-day and recurring events expand into one `EventOccurrence` per day.
/// Timed events are already converted into the configured timezone, so `date`
/// and `time` reflect local wall-clock values in that zone.
#[derive(Debug, Clone)]
pub struct EventOccurrence {
    pub date: Date,
    /// `None` = all-day event; `Some` = timed event (already in the config tz).
    pub time: Option<Time>,
    /// End time of a timed event, when the feed gives one.
    pub end_time: Option<Time>,
    pub title: String,
    pub location: Option<String>,
    pub description: Option<String>,
    pub attendees: Vec<String>,
    pub color: String,
}

/// What an occurrence holds, with its strings as character sequences.
pub struct OccurrenceView {
    pub date: Date,
    pub time: Option<Time>,
    pub end_time: Option<Time>,
    pub title: Seq<char>,
    pub location: Option<Seq<char>>,
    pub description: Option<Seq<char>>,
    pub attendees: Seq<Seq<char>>,
    pub color: Seq<char>,
}

impl View for EventOccurrence {
    type V = OccurrenceView;

    open spec fn view(&self) -> OccurrenceView {
        OccurrenceView {
            date: self.date,
            time: self.time,
            end_time: self.end_time,
            title: self.title@,
            location: opt_view(self.location),
            description: opt_view(self.description),
            attendees: string_views(self.attendees@),
            color: self.color@,
        }
    }
}

/// The views of a list of occurrences.
pub open spec fn occurrence_views(v: Seq<EventOccurrence>) -> Seq<OccurrenceView> {
    v.map_values(|o: EventOccurrence| o@)
}

impl Date {
    /// The key this date has in an event map.
    pub open spec fn key(self) -> (i32, u32, u32) {
        (self.year, self.month, self.day)
    }
}


/// Event-map keys, `(year, month, day)` tuples, are totally ordered by std's
/// tuple order (what `BTreeMap` relies on).
pub open spec fn date_keys_ordered() -> bool {
    vstd::laws_cmp::obeys_cmp::<(i32, u32, u32)>()
}

/// `(year, month, day)` tuples obey std's ordering laws.
pub proof fn lemma_date_keys_ordered()
    ensures
        date_keys_ordered(),
{
    broadcast use vstd::laws_cmp::group_laws_cmp;
}

} // verus!
