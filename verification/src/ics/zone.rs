//! Time zones (IANA names, as `chrono_tz` knows them) and the conversions
//! between zone-local wall-clock time and absolute UTC instants.
use vstd::prelude::*;
use chrono::{Datelike, TimeZone, Timelike};
use crate::calendar::valid_date;
use super::{Date, Time};

verus! {

/// Whether `chrono_tz` knows the zone `name` (an exact IANA name).
pub uninterp spec fn tz_known(name: Seq<char>) -> bool;

/// `name.parse::<chrono_tz::Tz>().is_ok()`: whether the tz database that
/// chrono-tz embeds has a zone of that exact name. The database is fixed at
/// build time, so the answer is a function of the name.
#[verifier::external_body]
pub(crate) fn zone_known(name: &str) -> (b: bool)
    ensures
        b == tz_known(name@),
{
    name.parse::<chrono_tz::Tz>().is_ok()
}

/// A time zone chrono-tz knows, by its name.
#[derive(Debug)]
pub struct Zone {
    name: String,
}

impl Zone {
    #[verifier::type_invariant]
    spec fn known(self) -> bool {
        tz_known(self.name@)
    }

    /// The zone's name.
    pub closed spec fn spec_name(self) -> Seq<char> {
        self.name@
    }

    /// The zone named `name`, if chrono-tz knows it.
    pub fn parse(name: &str) -> (r: Option<Zone>)
        ensures
            r is Some <==> tz_known(name@),
            r matches Some(z) ==> z.spec_name() == name@,
    {
        if zone_known(name) {
            Some(Zone { name: name.to_string() })
        } else {
            None
        }
    }

    /// A copy of this zone.
    pub fn copy(&self) -> (r: Zone)
        ensures
            r.spec_name() == self.spec_name(),
    {
        proof {
            use_type_invariant(self);
        }
        Zone { name: self.name.clone() }
    }

    /// The zone's name.
    pub fn name(&self) -> (r: &str)
        ensures
            r@ == self.spec_name(),
            tz_known(r@),
    {
        proof {
            use_type_invariant(self);
        }
        self.name.as_str()
    }
}

/// How a wall-clock time maps to UTC instants (seconds since the Unix epoch)
/// in a zone: not at all (a gap), to one instant, or to two (an overlap,
/// earliest first).
#[derive(Debug, Clone, Copy, PartialEq, Eq, Structural)]
pub enum LocalMapping {
    Gap,
    Single(i64),
    Ambiguous(i64, i64),
}

/// How wall-clock `d t` maps to UTC instants in zone `zone`.
pub uninterp spec fn zone_local_mapping(zone: Seq<char>, d: Date, t: Time) -> LocalMapping;

/// Zone-local wall-clock date and time of the UTC instant `ts`.
pub uninterp spec fn zone_local_of(zone: Seq<char>, ts: int) -> (Date, Time);

/// `tz.from_local_datetime(&naive)` for the zone named `zone`, with each
/// resulting instant as a Unix timestamp. What chrono-tz answers depends on the
/// zone's rules in its embedded database, so the contract only names it.
#[verifier::external_body]
pub(crate) fn local_to_utc(zone: &str, d: Date, t: Time) -> (r: LocalMapping)
    requires
        tz_known(zone@),
        valid_date(d.year as int, d.month as int, d.day as int),
        t.hour < 24 && t.minute < 60 && t.second < 60,
    ensures
        r == zone_local_mapping(zone@, d, t),
{
    let tz: chrono_tz::Tz = zone.parse().unwrap();
    let naive = chrono::NaiveDate::from_ymd_opt(d.year, d.month, d.day).unwrap().and_hms_opt(
        t.hour,
        t.minute,
        t.second,
    ).unwrap();
    match tz.from_local_datetime(&naive) {
        chrono::LocalResult::None => LocalMapping::Gap,
        chrono::LocalResult::Single(x) => LocalMapping::Single(x.timestamp()),
        chrono::LocalResult::Ambiguous(a, b) => LocalMapping::Ambiguous(a.timestamp(), b.timestamp()),
    }
}

/// The Unix instants from -262143-01-02 00:00:00 to 262142-12-29 23:59:59
/// UTC: the range of `chrono::DateTime<Utc>` kept at least a day inside at
/// either end, so that the local date of each of them in any zone is a date chrono
/// can hold (no zone is a day or more away from UTC).
pub open spec fn instant_in_range(ts: int) -> bool {
    -8334601142400 <= ts <= 8210266703999
}

/// `DateTime::from_timestamp(ts, 0)?.with_timezone(&tz)` for the zone named
/// `zone`: the zone's wall-clock date and time at that instant. The contract
/// names the answer (it rests on the zone's rules) and states that it is a
/// valid date and time of day.
#[verifier::external_body]
pub(crate) fn utc_to_local(zone: &str, ts: i64) -> (r: (Date, Time))
    requires
        tz_known(zone@),
        instant_in_range(ts as int),
    ensures
        r == zone_local_of(zone@, ts as int),
        valid_date(r.0.year as int, r.0.month as int, r.0.day as int),
        r.1.hour < 24 && r.1.minute < 60 && r.1.second < 60,
{
    let tz: chrono_tz::Tz = zone.parse().unwrap();
    let local = chrono::DateTime::from_timestamp(ts, 0).unwrap().with_timezone(&tz);
    (
        Date { year: local.year(), month: local.month(), day: local.day() },
        Time { hour: local.hour(), minute: local.minute(), second: local.second() },
    )
}

} // verus!
