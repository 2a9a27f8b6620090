//! Per-year config: the feed and deploy settings, their defaults, and the
//! up-front validation of the settings the renderer relies on.
use vstd::prelude::*;
use vstd::string::StringExecFns;
use crate::deploy::str_is;
use crate::ics::zone::{tz_known, zone_known};
use crate::render::doc::{palette_get, Palette};
use crate::text::{decimal_nat, push_decimal_u64, push_str};

verus! {

/// One ICS calendar feed to overlay on the monthly spreads.
#[derive(Debug, Clone)]
pub struct IcsFeed {
    pub name: String,
    pub url: String,
    /// Swatch color (a theme color name). Omit it to auto-assign a distinct color
    /// from the calendar palette by feed order.
    pub color: Option<String>,
}

/// Calendar swatch palette: theme color names auto-assigned to feeds in order
/// (feed 1 -> cal1, ...). Up to 10 distinct hues; cycles after that.
pub const CAL_PALETTE: [&'static str; 10] = [
    "cal1", "cal2", "cal3", "cal4", "cal5", "cal6", "cal7", "cal8", "cal9", "cal10",
];

/// The swatch colour a feed gets at position `index`: its own colour, else the
/// palette slot `cal<index mod 10 + 1>`.
pub open spec fn feed_color(color: Option<String>, index: int) -> Seq<char> {
    match color {
        Some(c) => c@,
        None => "cal"@ + decimal_nat((index % 10 + 1) as nat),
    }
}

impl IcsFeed {
    /// The swatch color for this feed: its explicit `color`, else an auto-assigned
    /// palette slot by `index` (0-based feed order).
    pub fn color_for(&self, index: usize) -> (r: String)
        ensures
            r@ == feed_color(self.color, index as int),
    {
        match &self.color {
            Some(c) => c.clone(),
            None => {
                let mut s = String::new();
                push_str(&mut s, "cal");
                push_decimal_u64(&mut s, (index % 10 + 1) as u64);
                s
            },
        }
    }
}

/// Where the PDFs go after rendering.
#[derive(Debug, Clone)]
pub struct DeployConfig {
    pub backend: String,
    pub base_folder: String,
}

/// The default deploy backend: keep the PDFs local.
pub fn default_backend() -> (r: String)
    ensures
        r@ == "none"@,
{
    String::from_str("none")
}

impl Default for DeployConfig {
    fn default() -> (r: Self)
        ensures
            r.backend@ == "none"@,
            r.base_folder@ == Seq::<char>::empty(),
    {
        DeployConfig { backend: default_backend(), base_folder: String::new() }
    }
}

/// The default device.
pub fn default_device() -> (r: String)
    ensures
        r@ == "paper-pro-move"@,
{
    String::from_str("paper-pro-move")
}

/// The default first day of the week.
pub fn default_week_start() -> (r: String)
    ensures
        r@ == "sun"@,
{
    String::from_str("sun")
}

/// The default number of collection pages.
pub fn default_collection() -> (r: u32)
    ensures
        r == 20,
{
    20
}

/// The default theme.
pub fn default_theme() -> (r: String)
    ensures
        r@ == "library"@,
{
    String::from_str("library")
}

/// The default number of pages per day.
pub fn default_pages_per_day() -> (r: u32)
    ensures
        r == 1,
{
    1
}

/// Why a config was rejected.
#[derive(Debug, Clone, PartialEq, Eq)]
pub enum ConfigError {
    /// `week_start` is not `"sun"` or `"mon"` (the value given).
    BadWeekStart(String),
    /// `deploy.backend` is not `"none"` or `"rmapi"` (the value given).
    BadBackend(String),
    /// `spacing_mm` is outside 2.0..=10.0.
    SpacingOutOfRange,
    /// `pages_per_day` is 0.
    ZeroPagesPerDay,
    /// `timezone` is not a zone chrono-tz knows (the value given).
    UnknownTimezone(String),
    /// An ICS feed names a colour the theme lacks (feed name, colour).
    UnknownFeedColor(String, String),
}

/// The first feed (by index) with an explicit colour the theme lacks.
pub open spec fn first_bad_feed(feeds: Seq<IcsFeed>, theme: Seq<(String, String)>, from: int) -> Option<int>
    decreases feeds.len() - from,
{
    if from < 0 || from >= feeds.len() {
        None
    } else if feeds[from].color matches Some(c) && palette_get(theme, c@) is None {
        Some(from)
    } else {
        first_bad_feed(feeds, theme, from + 1)
    }
}

/// `r` reports that feed `f` names a colour the theme lacks.
pub open spec fn is_feed_color_error(r: Result<(), ConfigError>, f: IcsFeed) -> bool {
    match r {
        Err(ConfigError::UnknownFeedColor(n, c)) => n@ == f.name@ && match f.color {
            Some(fc) => c@ == fc@,
            None => false,
        },
        _ => false,
    }
}

/// Validate the settings that are checked after the device and theme, in
/// order: `week_start`, `deploy.backend`, the spacing (checked by the caller,
/// which passes whether it is in range), `pages_per_day`, `timezone`, and
/// each feed's explicit colour against the theme. The first failing check
/// gives the error.
pub fn validate_settings(
    week_start: &str,
    backend: &str,
    spacing_ok: bool,
    pages_per_day: u32,
    timezone: &str,
    feeds: &[IcsFeed],
    theme: &Palette,
) -> (r: Result<(), ConfigError>)
    ensures
        week_start@ != "sun"@ && week_start@ != "mon"@ ==> (r matches Err(ConfigError::BadWeekStart(w)) && w@ == week_start@),
        (week_start@ == "sun"@ || week_start@ == "mon"@) && backend@ != "none"@ && backend@ != "rmapi"@ ==> (r matches Err(ConfigError::BadBackend(b)) && b@ == backend@),
        (week_start@ == "sun"@ || week_start@ == "mon"@) && (backend@ == "none"@ || backend@ == "rmapi"@) ==> {
            if !spacing_ok {
                r == Err::<(), ConfigError>(ConfigError::SpacingOutOfRange)
            } else if pages_per_day == 0 {
                r == Err::<(), ConfigError>(ConfigError::ZeroPagesPerDay)
            } else if !tz_known(timezone@) {
                (r matches Err(ConfigError::UnknownTimezone(z)) && z@ == timezone@)
            } else {
                match first_bad_feed(feeds@, theme.entries@, 0) {
                    Some(i) => is_feed_color_error(r, feeds@[i]),
                    None => r is Ok,
                }
            }
        },
{
    if !(str_is(week_start, "sun") || str_is(week_start, "mon")) {
        return Err(ConfigError::BadWeekStart(week_start.to_string()));
    }
    if !(str_is(backend, "none") || str_is(backend, "rmapi")) {
        return Err(ConfigError::BadBackend(backend.to_string()));
    }
    if !spacing_ok {
        return Err(ConfigError::SpacingOutOfRange);
    }
    if pages_per_day == 0 {
        return Err(ConfigError::ZeroPagesPerDay);
    }
    if !zone_known(timezone) {
        return Err(ConfigError::UnknownTimezone(timezone.to_string()));
    }
    let mut i: usize = 0;
    while i < feeds.len()
        invariant
            i <= feeds@.len(),
            week_start@ == "sun"@ || week_start@ == "mon"@,
            backend@ == "none"@ || backend@ == "rmapi"@,
            spacing_ok,
            pages_per_day != 0,
            tz_known(timezone@),
            first_bad_feed(feeds@, theme.entries@, 0) == first_bad_feed(feeds@, theme.entries@, i as int),
        decreases feeds@.len() - i,
    {
        match &feeds[i].color {
            Some(c) => {
                match theme.get(c.as_str()) {
                    None => {
                        return Err(ConfigError::UnknownFeedColor(feeds[i].name.clone(), c.clone()));
                    },
                    Some(_) => {},
                }
            },
            None => {},
        }
        i = i + 1;
    }
    Ok(())
}

} // verus!
