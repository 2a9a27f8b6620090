//! Parse raw `.ics` feed bytes into per-day [`EventOccurrence`]s.
//!
//! Handles all-day events (single, multi-day via exclusive `DTEND`, and
//! `RRULE`-recurring) and timed events, expanding each into one occurrence per
//! day, clipped to a target year. Timed events are converted into the
//! configured timezone so both the wall-clock time and the calendar day are
//! correct for that zone.
//!
//! The `ical` crate splits the feed into calendars, events and properties; it
//! does not decode TEXT escapes, so that is done here. Recurrence rules are
//! expanded by the `rrule` crate.
use vstd::prelude::*;
use chrono::{Datelike, TimeZone, Timelike};
use vstd::string::StringExecFns;
use crate::calendar::{MAX_YEAR, MIN_YEAR};
use crate::text::{ascii_lower, chars_of, copy_strings, eq_ignore_ascii_case, eq_ignore_case, has_prefix_at,
    opt_copy, opt_view, push_char, push_str, string_from, string_views, trim_ws, trimmed};
use super::instant::{date_before, date_ok, date_text, date_time_text, day_index, last_date,
    lemma_next_date, lemma_not_past_last, lemma_pad_days_in_range, lemma_utc_date, next_date,
    push_date_text, push_date_time_text, succ_date, time_ok, utc_date, utc_date_of, utc_seconds,
    utc_timestamp};
use super::order::{in_order, law_sort_permutes, law_sorted_in_order, lemma_sorted_keeps,
    sort_occurrences, sorted_occurrences};
use super::zone::{instant_in_range, local_to_utc, tz_known, utc_to_local, zone_local_mapping,
    zone_local_of, LocalMapping, Zone};
use super::{occurrence_views, Date, EventOccurrence, OccurrenceView, Time};

verus! {

/// One content line of a calendar component, as the `ical` parser reads it:
/// its name, its parameters (each a key with its values) and its value.
#[derive(Debug, Clone)]
pub struct IcsProperty {
    pub name: String,
    pub params: Option<Vec<(String, Vec<String>)>>,
    pub value: Option<String>,
}

/// A `VEVENT` component: its properties in feed order.
#[derive(Debug, Clone)]
pub struct IcsEvent {
    pub properties: Vec<IcsProperty>,
}

/// What a property holds, as plain character sequences.
pub struct PropertyView {
    pub name: Seq<char>,
    pub params: Option<Seq<(Seq<char>, Seq<Seq<char>>)>>,
    pub value: Option<Seq<char>>,
}

/// A parameter (a key and its values) as character sequences.
pub open spec fn param_view(kv: (String, Vec<String>)) -> (Seq<char>, Seq<Seq<char>>) {
    (kv.0@, kv.1@.map_values(|v: String| v@))
}

impl View for IcsProperty {
    type V = PropertyView;

    open spec fn view(&self) -> PropertyView {
        PropertyView {
            name: self.name@,
            params: match self.params {
                Some(ps) => Some(ps@.map_values(|kv: (String, Vec<String>)| param_view(kv))),
                None => None,
            },
            value: opt_view(self.value),
        }
    }
}

impl View for IcsEvent {
    type V = Seq<PropertyView>;

    open spec fn view(&self) -> Seq<PropertyView> {
        self.properties@.map_values(|p: IcsProperty| p@)
    }
}

/// Position of the first element of `s` that satisfies `p`.
pub open spec fn first_where<A>(s: Seq<A>, p: spec_fn(A) -> bool) -> Option<int>
    decreases s.len(),
{
    if s.len() == 0 {
        None
    } else if p(s[0]) {
        Some(0)
    } else {
        match first_where(s.drop_first(), p) {
            Some(i) => Some(i + 1),
            None => None,
        }
    }
}

/// When no element before `i` satisfies `p`, the first one that does is `i`
/// if `s[i]` does, and there is none if `i` is the end.
pub proof fn lemma_first_where<A>(s: Seq<A>, p: spec_fn(A) -> bool, i: int)
    requires
        0 <= i <= s.len(),
        forall|k: int| 0 <= k < i ==> !p(#[trigger] s[k]),
    ensures
        i < s.len() && p(s[i]) ==> first_where(s, p) == Some(i),
        i == s.len() ==> first_where(s, p) is None,
    decreases i,
{
    if i > 0 {
        assert(!p(s[0]));
        let t = s.drop_first();
        assert forall|k: int| 0 <= k < i - 1 implies !p(#[trigger] t[k]) by {
            assert(t[k] == s[k + 1]);
        }
        lemma_first_where(t, p, i - 1);
        if i < s.len() {
            assert(t[i - 1] == s[i]);
        }
    }
}

/// Whether a property is named `name`, ignoring ASCII case.
pub open spec fn name_is(name: Seq<char>) -> spec_fn(PropertyView) -> bool {
    |p: PropertyView| eq_ignore_case(p.name, name)
}

/// Whether a parameter is keyed `key`, ignoring ASCII case.
pub open spec fn key_is(key: Seq<char>) -> spec_fn((Seq<char>, Seq<Seq<char>>)) -> bool {
    |kv: (Seq<char>, Seq<Seq<char>>)| eq_ignore_case(kv.0, key)
}

/// Position of the first property named `name`, ignoring ASCII case.
pub open spec fn find_prop(props: Seq<PropertyView>, name: Seq<char>) -> Option<int> {
    first_where(props, name_is(name))
}

/// Position of the first property of `event` named `name`, ignoring ASCII case.
fn prop(event: &IcsEvent, name: &str) -> (r: Option<usize>)
    ensures
        match r {
            Some(i) => find_prop(event@, name@) == Some(i as int) && i < event@.len(),
            None => find_prop(event@, name@) is None,
        },
{
    let ghost pred = name_is(name@);
    let mut i: usize = 0;
    while i < event.properties.len()
        invariant
            i <= event@.len(),
            pred == name_is(name@),
            event@.len() == event.properties@.len(),
            forall|k: int| 0 <= k < i ==> !pred(#[trigger] event@[k]),
        decreases event.properties@.len() - i,
    {
        assert(event@[i as int] == event.properties@[i as int]@);
        if eq_ignore_ascii_case(event.properties[i].name.as_str(), name) {
            proof {
                assert(pred(event@[i as int]));
                lemma_first_where(event@, pred, i as int);
            }
            return Some(i);
        }
        assert(!pred(event@[i as int]));
        i = i + 1;
    }
    proof {
        lemma_first_where(event@, pred, i as int);
    }
    None
}

/// The first value of the first parameter keyed `key` (ignoring ASCII case),
/// if the property has such a parameter and it has a value.
pub open spec fn param_value(p: PropertyView, key: Seq<char>) -> Option<Seq<char>> {
    match p.params {
        None => None,
        Some(ps) => match first_where(ps, key_is(key)) {
            Some(i) => if ps[i].1.len() > 0 {
                Some(ps[i].1[0])
            } else {
                None
            },
            None => None,
        },
    }
}

/// First parameter value for `key` (case-insensitive) on a property.
#[verifier::spinoff_prover]
fn param(p: &IcsProperty, key: &str) -> (r: Option<String>)
    ensures
        opt_view(r) == param_value(p@, key@),
{
    match &p.params {
        None => None,
        Some(ps) => {
            let ghost pv = ps@.map_values(|kv: (String, Vec<String>)| param_view(kv));
            let ghost pred = key_is(key@);
            assert(p@.params == Some(pv));
            let mut i: usize = 0;
            while i < ps.len()
                invariant
                    i <= ps@.len(),
                    pv == ps@.map_values(|kv: (String, Vec<String>)| param_view(kv)),
                    pred == key_is(key@),
                    p@.params == Some(pv),
                    forall|k: int| 0 <= k < i ==> !pred(#[trigger] pv[k]),
                decreases ps@.len() - i,
            {
                assert(pv[i as int] == param_view(ps@[i as int]));
                if eq_ignore_ascii_case(ps[i].0.as_str(), key) {
                    proof {
                        assert(pred(pv[i as int]));
                        lemma_first_where(pv, pred, i as int);
                    }
                    let vals = &ps[i].1;
                    assert(pv[i as int].1.len() == vals@.len());
                    if vals.len() > 0 {
                        let v = vals[0].clone();
                        assert(pv[i as int].1[0] == vals@[0]@);
                        return Some(v);
                    } else {
                        return None;
                    }
                }
                assert(!pred(pv[i as int]));
                i = i + 1;
            }
            proof {
                lemma_first_where(pv, pred, i as int);
            }
            None
        },
    }
}

/// What an escaped pair `\c` of RFC 5545 TEXT stands for: `\n` and `\N` a
/// newline, `\\` `\,` `\;` the character itself; any other pair is kept as is.
pub open spec fn escape_pair(c: char) -> Seq<char> {
    if c == 'n' || c == 'N' {
        seq!['\n']
    } else if c == '\\' || c == ',' || c == ';' {
        seq![c]
    } else {
        seq!['\\', c]
    }
}

/// RFC 5545 TEXT escaping decoded, reading from the front; a lone trailing
/// backslash stays.
pub open spec fn unescaped(s: Seq<char>) -> Seq<char>
    decreases s.len(),
{
    if s.len() == 0 {
        Seq::empty()
    } else if s[0] == '\\' {
        if s.len() == 1 {
            seq!['\\']
        } else {
            escape_pair(s[1]) + unescaped(s.skip(2))
        }
    } else {
        seq![s[0]] + unescaped(s.skip(1))
    }
}

/// Decode RFC-5545 TEXT escaping: `\n`/`\N` -> newline, `\,` `\;` `\\` literals.
#[verifier::spinoff_prover]
pub fn unescape_text(s: &str) -> (r: String)
    ensures
        r@ == unescaped(s@),
{
    let v = chars_of(s);
    let mut out = String::new();
    let mut i: usize = 0;
    assert(v@.skip(0) == v@);
    assert(out@ + unescaped(v@) == unescaped(v@));
    while i < v.len()
        invariant
            v@ == s@,
            i <= v@.len(),
            out@ + unescaped(v@.skip(i as int)) == unescaped(v@),
        decreases v@.len() - i,
    {
        let c = v[i];
        let ghost rest = v@.skip(i as int);
        assert(rest[0] == c);
        if c == '\\' {
            if i + 1 < v.len() {
                let d = v[i + 1];
                assert(rest[1] == d);
                assert(rest.skip(2) == v@.skip(i + 2));
                if d == 'n' || d == 'N' {
                    push_char(&mut out, '\n');
                } else if d == '\\' || d == ',' || d == ';' {
                    push_char(&mut out, d);
                } else {
                    push_char(&mut out, '\\');
                    push_char(&mut out, d);
                }
                assert(out@ + unescaped(v@.skip(i + 2)) == unescaped(v@));
                i = i + 2;
            } else {
                assert(rest.len() == 1);
                push_char(&mut out, '\\');
                assert(v@.skip(i + 1) == Seq::<char>::empty());
                assert(out@ + unescaped(v@.skip(i + 1)) == unescaped(v@));
                i = i + 1;
            }
        } else {
            assert(rest.skip(1) == v@.skip(i + 1));
            push_char(&mut out, c);
            assert(out@ + unescaped(v@.skip(i + 1)) == unescaped(v@));
            i = i + 1;
        }
    }
    assert(v@.skip(i as int) == Seq::<char>::empty());
    assert(out@ + Seq::<char>::empty() == out@);
    out
}

/// The decoded value of the first property named `name`, if it has a value.
pub open spec fn text_value(props: Seq<PropertyView>, name: Seq<char>) -> Option<Seq<char>> {
    match find_prop(props, name) {
        Some(i) => match props[i].value {
            Some(v) => Some(unescaped(v)),
            None => None,
        },
        None => None,
    }
}

/// A TEXT-typed property value, with iCal escaping decoded.
fn text_prop(event: &IcsEvent, name: &str) -> (r: Option<String>)
    ensures
        opt_view(r) == text_value(event@, name@),
{
    match prop(event, name) {
        Some(i) => {
            assert(event@[i as int] == event.properties@[i as int]@);
            match &event.properties[i].value {
                Some(v) => Some(unescape_text(v.as_str())),
                None => None,
            }
        },
        None => None,
    }
}

/// The raw value of the first property named `name`, if it has one.
pub open spec fn raw_value(props: Seq<PropertyView>, name: Seq<char>) -> Option<Seq<char>> {
    match find_prop(props, name) {
        Some(i) => props[i].value,
        None => None,
    }
}

/// The raw value of the first property of `event` named `name`.
fn raw_prop(event: &IcsEvent, name: &str) -> (r: Option<String>)
    ensures
        opt_view(r) == raw_value(event@, name@),
{
    match prop(event, name) {
        Some(i) => {
            assert(event@[i as int] == event.properties@[i as int]@);
            match &event.properties[i].value {
                Some(v) => Some(v.clone()),
                None => None,
            }
        },
        None => None,
    }
}

/// An attendee address without the common `mailto:` (or `MAILTO:`) prefix.
pub open spec fn strip_mailto(v: Seq<char>) -> Seq<char> {
    if v.len() >= 7 && (v.take(7) == "mailto:"@ || v.take(7) == "MAILTO:"@) {
        v.skip(7)
    } else {
        v
    }
}

/// The decoded values of the `ATTENDEE` properties that have one, in order,
/// each without its `mailto:` prefix.
pub open spec fn attendee_list(props: Seq<PropertyView>) -> Seq<Seq<char>>
    decreases props.len(),
{
    if props.len() == 0 {
        Seq::empty()
    } else {
        let rest = attendee_list(props.drop_last());
        let p = props.last();
        if eq_ignore_case(p.name, "ATTENDEE"@) && p.value is Some {
            rest.push(strip_mailto(unescaped(p.value->0)))
        } else {
            rest
        }
    }
}

/// `v` decoded, without a leading `mailto:` or `MAILTO:`.
fn attendee_address(v: &str) -> (r: String)
    ensures
        r@ == strip_mailto(unescaped(v@)),
{
    let u = unescape_text(v);
    let w = chars_of(u.as_str());
    let lower = chars_of("mailto:");
    let upper = chars_of("MAILTO:");
    proof {
        reveal_strlit("mailto:");
        reveal_strlit("MAILTO:");
    }
    if has_prefix_at(&w, 0, &lower) || has_prefix_at(&w, 0, &upper) {
        assert(w@.take(7) == w@.subrange(0, 7));
        assert(w@.skip(7) == w@.subrange(7, w@.len() as int));
        string_from(&w, 7, w.len())
    } else {
        assert(!(w@.len() >= 7 && (w@.take(7) == "mailto:"@ || w@.take(7) == "MAILTO:"@))) by {
            if w@.len() >= 7 {
                assert(w@.take(7) == w@.subrange(0, 7));
            }
        }
        u
    }
}

/// All ATTENDEE values, decoded (the common `mailto:` prefix is stripped).
fn attendees(event: &IcsEvent) -> (r: Vec<String>)
    ensures
        string_views(r@) == attendee_list(event@),
{
    let mut out: Vec<String> = Vec::new();
    let mut i: usize = 0;
    while i < event.properties.len()
        invariant
            i <= event@.len(),
            event@.len() == event.properties@.len(),
            string_views(out@) == attendee_list(event@.take(i as int)),
        decreases event.properties@.len() - i,
    {
        let p = &event.properties[i];
        assert(event@[i as int] == p@);
        assert(event@.take(i + 1).drop_last() == event@.take(i as int));
        assert(event@.take(i + 1).last() == p@);
        if eq_ignore_ascii_case(p.name.as_str(), "ATTENDEE") {
            match &p.value {
                Some(v) => {
                    let a = attendee_address(v.as_str());
                    out.push(a);
                    assert(string_views(out@) == attendee_list(event@.take(i as int)).push(a@));
                },
                None => {},
            }
        }
        i = i + 1;
    }
    assert(event@.take(i as int) == event@);
    out
}

/// Whether a `DTSTART` property holds a DATE: its `VALUE` parameter says
/// `DATE`, or its value is a bare `YYYYMMDD` (8 bytes, no `T`).
pub open spec fn all_day_start(p: PropertyView) -> bool {
    ||| (param_value(p, "VALUE"@) matches Some(v) && eq_ignore_case(v, "DATE"@))
    ||| (p.value matches Some(v) && utf8_len(v) == 8 && !v.contains('T'))
}

/// Bytes in the UTF-8 encoding of `c`.
pub open spec fn utf8_width(c: char) -> nat {
    let u = c as u32;
    if u < 0x80 {
        1
    } else if u < 0x800 {
        2
    } else if u < 0x10000 {
        3
    } else {
        4
    }
}

/// Bytes in the UTF-8 encoding of `s` (what `str::len` counts).
pub open spec fn utf8_len(s: Seq<char>) -> nat
    decreases s.len(),
{
    if s.len() == 0 {
        0
    } else {
        utf8_len(s.drop_last()) + utf8_width(s.last())
    }
}

/// Whether `v` is `n` bytes long in UTF-8.
fn utf8_len_is(v: &str, n: usize) -> (r: bool)
    ensures
        r == (utf8_len(v@) == n),
{
    let w = chars_of(v);
    let mut total: usize = 0;
    let mut i: usize = 0;
    while i < w.len()
        invariant
            w@ == v@,
            i <= w@.len(),
            total == utf8_len(w@.take(i as int)),
            total <= n,
        decreases w@.len() - i,
    {
        let u = w[i] as u32;
        let width: usize = if u < 0x80 {
            1
        } else if u < 0x800 {
            2
        } else if u < 0x10000 {
            3
        } else {
            4
        };
        assert(w@.take(i + 1).drop_last() == w@.take(i as int));
        if width > n - total {
            proof {
                lemma_utf8_len_prefix(w@, i + 1);
            }
            return false;
        }
        total = total + width;
        i = i + 1;
    }
    assert(w@.take(i as int) == w@);
    total == n
}

/// A prefix is no longer in UTF-8 than the whole.
proof fn lemma_utf8_len_prefix(s: Seq<char>, k: int)
    requires
        0 <= k <= s.len(),
    ensures
        utf8_len(s.take(k)) <= utf8_len(s),
    decreases s.len() - k,
{
    if k < s.len() {
        lemma_utf8_len_prefix(s, k + 1);
        assert(s.take(k + 1).drop_last() == s.take(k));
    } else {
        assert(s.take(k) == s);
    }
}

/// Whether `v` contains `c`.
fn contains_char(v: &str, c: char) -> (r: bool)
    ensures
        r == v@.contains(c),
{
    let w = chars_of(v);
    let mut i: usize = 0;
    while i < w.len()
        invariant
            w@ == v@,
            i <= w@.len(),
            forall|k: int| 0 <= k < i ==> w@[k] != c,
        decreases w@.len() - i,
    {
        if w[i] == c {
            return true;
        }
        i = i + 1;
    }
    false
}

/// True if the DTSTART property is a DATE (`VALUE=DATE`, or an 8-char value with
/// no time component).
fn is_all_day(dtstart: &IcsProperty) -> (r: bool)
    ensures
        r == all_day_start(dtstart@),
{
    if let Some(v) = param(dtstart, "VALUE") {
        if eq_ignore_ascii_case(v.as_str(), "DATE") {
            return true;
        }
    }
    match &dtstart.value {
        Some(v) => utf8_len_is(v.as_str(), 8) && !contains_char(v.as_str(), 'T'),
        None => false,
    }
}

/// The calendars of a feed: each either its events or the parser's error.
pub open spec fn calendars_view(cs: Seq<Result<Vec<IcsEvent>, String>>) -> Seq<Result<Seq<Seq<PropertyView>>, Seq<char>>> {
    cs.map_values(|c: Result<Vec<IcsEvent>, String>| match c {
        Ok(es) => Ok(es@.map_values(|e: IcsEvent| e@)),
        Err(m) => Err(m@),
    })
}

/// What `ical::IcalParser` reads from a feed's bytes: one entry per
/// `VCALENDAR`, either its `VEVENT`s or the error message of the parser.
pub uninterp spec fn ical_read(bytes: Seq<u8>) -> Seq<Result<Seq<Seq<PropertyView>>, Seq<char>>>;

/// Every calendar `ical::IcalParser::new(BufReader::new(bytes))` yields, with
/// each calendar's events copied property by property and each error turned
/// into its message. The parser reads the bytes alone, so the contract names
/// its answer.
#[verifier::external_body]
fn read_calendars(bytes: &[u8]) -> (r: Vec<Result<Vec<IcsEvent>, String>>)
    ensures
        calendars_view(r@) == ical_read(bytes@),
{
    ical::IcalParser::new(std::io::BufReader::new(bytes))
        .map(|cal| {
            cal.map(|c| {
                c.events.into_iter().map(|e| IcsEvent {
                    properties: e.properties.into_iter().map(|p| IcsProperty {
                        name: p.name,
                        params: p.params,
                        value: p.value,
                    }).collect(),
                }).collect()
            }).map_err(|e| e.to_string())
        })
        .collect()
}

/// What `NaiveDate::parse_from_str(s, "%Y%m%d")` reads from `s`.
pub uninterp spec fn ymd_parsed(s: Seq<char>) -> Option<Date>;

/// `NaiveDate::parse_from_str(s, "%Y%m%d").ok()`. The contract names chrono's
/// answer and states that what it returns is a date chrono can hold.
#[verifier::external_body]
fn parse_ymd(s: &str) -> (r: Option<Date>)
    ensures
        r == ymd_parsed(s@),
        r matches Some(d) ==> date_ok(d),
{
    chrono::NaiveDate::parse_from_str(s, "%Y%m%d").ok().map(|d| Date {
        year: d.year(),
        month: d.month(),
        day: d.day(),
    })
}

/// What `NaiveDateTime::parse_from_str(s, "%Y%m%dT%H%M%S")` reads from `s`, to
/// the second.
pub uninterp spec fn ymd_hms_parsed(s: Seq<char>) -> Option<(Date, Time)>;

/// `NaiveDateTime::parse_from_str(s, "%Y%m%dT%H%M%S").ok()`, as a date and a
/// time of day. The contract names chrono's answer and states that it is a
/// valid date and time; a leap second reads as second 59 (chrono keeps it in
/// the sub-second part, which is not carried over).
#[verifier::external_body]
fn parse_ymd_hms(s: &str) -> (r: Option<(Date, Time)>)
    ensures
        r == ymd_hms_parsed(s@),
        r matches Some(x) ==> date_ok(x.0) && time_ok(x.1),
{
    chrono::NaiveDateTime::parse_from_str(s, "%Y%m%dT%H%M%S").ok().map(|n| (
        Date { year: n.year(), month: n.month(), day: n.day() },
        Time { hour: n.hour(), minute: n.minute(), second: n.second() },
    ))
}

/// What the `rrule` crate expands `input` (a `DTSTART` line and an `RRULE`
/// line) into between the instants `after` and `before`, as Unix instants;
/// `None` when it refuses the input. Only named for inputs whose meaning does
/// not depend on the machine (see `rule_input_pinned`).
pub uninterp spec fn rrule_instants(input: Seq<char>, after: int, before: int) -> Option<Seq<i64>>;

/// The index of the first `;` in `s` at or after `j` (`s.len()` if none).
pub open spec fn next_semi(s: Seq<char>, j: int) -> int
    decreases s.len() - j,
{
    if j < 0 || j >= s.len() {
        s.len() as int
    } else if s[j] == ';' {
        j
    } else {
        next_semi(s, j + 1)
    }
}

/// `s` with ASCII capitals in lower case.
pub open spec fn lowered(s: Seq<char>) -> Seq<char> {
    s.map_values(|c: char| ascii_lower(c))
}

/// An `RRULE` value the `rrule` crate reads the same on every machine: one
/// line, and every `UNTIL=` (in any letter case) is followed by a value, up
/// to the next `;`, that ends in `Z` (UTC). The crate reads an `UNTIL`
/// without `Z` in the machine's own time zone.
pub open spec fn until_utc(rule: Seq<char>) -> bool {
    &&& !rule.contains('\n')
    &&& forall|i: int|
        0 <= i && i + 6 <= rule.len() && #[trigger] lowered(rule.subrange(i, i + 6)) == "until="@
            ==> {
            let e = next_semi(rule, i + 6);
            e > i + 6 && rule[e - 1] == 'Z'
        }
}

/// An input to `rrule` whose reading does not depend on the machine: a UTC
/// all-day start, or a start in a zone chrono-tz knows, followed by a rule
/// whose `UNTIL` values are UTC.
pub open spec fn rule_input_pinned(input: Seq<char>) -> bool {
    ||| exists|d: Date, rule: Seq<char>| #[trigger] all_day_rule_input(d, rule) == input && until_utc(trim_ws(rule))
    ||| exists|z: Seq<char>, d: Date, t: Time, rule: Seq<char>|
        #[trigger] timed_rule_input(z, d, t, rule) == input && tz_known(z) && until_utc(trim_ws(rule))
}

/// `input.parse::<RRuleSet>()`, then `.after(a).before(b).all(1000)` with `a`
/// and `b` the instants `after` and `before`, each date returned as its Unix
/// instant. The bounds are only compared with the dates as instants, so they
/// are given in UTC. The contract states what the crate's source shows of
/// every answer: at most 1000 dates, each within the bounds (inclusive). It
/// names the answer only for a pinned input: the crate reads a `DTSTART` or
/// an `UNTIL` written without `Z` or `TZID` in the machine's own time zone,
/// so for other inputs the answer is left open.
#[verifier::external_body]
fn expand_rrule(input: &str, after: i64, before: i64) -> (r: Option<Vec<i64>>)
    requires
        instant_in_range(after as int),
        instant_in_range(before as int),
    ensures
        match r {
            Some(v) => (rule_input_pinned(input@) ==> rrule_instants(input@, after as int, before as int) == Some(v@))
                && v@.len() <= 1000
                && forall|i: int| 0 <= i < v@.len() ==> after <= #[trigger] v@[i] <= before,
            None => rule_input_pinned(input@) ==> rrule_instants(input@, after as int, before as int) is None,
        },
{
    let set: rrule::RRuleSet = input.parse().ok()?;
    let a = rrule::Tz::UTC.timestamp_opt(after, 0).unwrap();
    let b = rrule::Tz::UTC.timestamp_opt(before, 0).unwrap();
    Some(set.after(a).before(b).all(1000).dates.into_iter().map(|d| d.timestamp()).collect())
}

/// Whether an event's `RRULE`, if it has one, reads the same on every machine.
pub open spec fn rule_pinned(ev: Seq<PropertyView>) -> bool {
    match raw_value(ev, "RRULE"@) {
        Some(rule) => until_utc(trim_ws(rule)),
        None => true,
    }
}

/// Whether every event of every readable calendar has a pinned `RRULE`.
pub open spec fn calendars_pinned(cals: Seq<Result<Seq<Seq<PropertyView>>, Seq<char>>>) -> bool {
    forall|c: int, e: int|
        0 <= c < cals.len() && cals[c] is Ok && 0 <= e < cals[c]->Ok_0.len() ==> rule_pinned(#[trigger] cals[c]->Ok_0[e])
}

/// Midnight.
pub open spec fn midnight() -> Time {
    Time { hour: 0, minute: 0, second: 0 }
}

/// The UTC instants that bound recurrence expansion of all-day events for
/// `year`: December 31st of the year before and January 2nd of the year
/// after, at midnight (a day's pad either side).
pub open spec fn utc_bounds(year: int) -> (int, int) {
    (
        utc_seconds(Date { year: (year - 1) as i32, month: 12, day: 31 }, midnight()),
        utc_seconds(Date { year: (year + 1) as i32, month: 1, day: 2 }, midnight()),
    )
}

/// The instant of midnight on `d` in `zone`, when that wall-clock time exists
/// exactly once there and is in range.
pub open spec fn zone_midnight(zone: Seq<char>, d: Date) -> Option<int> {
    match zone_local_mapping(zone, d, midnight()) {
        LocalMapping::Single(x) => if instant_in_range(x as int) {
            Some(x as int)
        } else {
            None
        },
        _ => None,
    }
}

/// The instants that bound recurrence expansion of timed events for `year`:
/// the same pad days as `utc_bounds`, at midnight in `zone`.
pub open spec fn zone_bounds(zone: Seq<char>, year: int) -> Option<(int, int)> {
    match (
        zone_midnight(zone, Date { year: (year - 1) as i32, month: 12, day: 31 }),
        zone_midnight(zone, Date { year: (year + 1) as i32, month: 1, day: 2 }),
    ) {
        (Some(a), Some(b)) => Some((a, b)),
        _ => None,
    }
}

/// The `rrule` input for an all-day event starting on `start`: the start at
/// midnight UTC, then the event's rule.
pub open spec fn all_day_rule_input(start: Date, rule: Seq<char>) -> Seq<char> {
    "DTSTART:"@ + date_text(start) + "T000000Z\nRRULE:"@ + trim_ws(rule)
}

/// The UTC dates of the instants `ts` that fall in `year`, in order.
pub open spec fn utc_days_in_year(ts: Seq<i64>, year: int) -> Seq<Date>
    decreases ts.len(),
{
    if ts.len() == 0 {
        Seq::empty()
    } else {
        let rest = utc_days_in_year(ts.drop_last(), year);
        let d = utc_date(ts.last() as int);
        if d.year == year {
            rest.push(d)
        } else {
            rest
        }
    }
}

/// The dates from `d` up to (not including) `end` that fall in `year`.
pub open spec fn span_days(d: Date, end: Date, year: int) -> Seq<Date>
    decreases day_index(end) - day_index(d),
{
    if date_ok(d) && !last_date(d) && day_index(d) < day_index(end) {
        proof {
            lemma_next_date(d);
        }
        let rest = span_days(next_date(d), end, year);
        if d.year == year {
            seq![d] + rest
        } else {
            rest
        }
    } else {
        Seq::empty()
    }
}

/// A multi-day event covers its start day up to, not including, its end
/// day: every day `span_days` yields lies in that range and in `year`, in
/// increasing order.
pub proof fn law_span_days(d: Date, end: Date, year: int)
    ensures
        forall|i: int| 0 <= i < span_days(d, end, year).len() ==> {
            let x = #[trigger] span_days(d, end, year)[i];
            &&& date_ok(x)
            &&& day_index(d) <= day_index(x) < day_index(end)
            &&& x.year == year
        },
        forall|i: int, j: int| 0 <= i < j < span_days(d, end, year).len() ==> day_index(#[trigger] span_days(d, end, year)[i]) < day_index(#[trigger] span_days(d, end, year)[j]),
    decreases day_index(end) - day_index(d),
{
    if date_ok(d) && !last_date(d) && day_index(d) < day_index(end) {
        lemma_next_date(d);
        law_span_days(next_date(d), end, year);
        let rest = span_days(next_date(d), end, year);
        let s = span_days(d, end, year);
        if d.year == year {
            assert(s == seq![d] + rest);
            assert forall|i: int| 0 <= i < s.len() implies {
                let x = #[trigger] s[i];
                &&& date_ok(x)
                &&& day_index(d) <= day_index(x) < day_index(end)
                &&& x.year == year
            } by {
                if i > 0 {
                    assert(s[i] == rest[i - 1]);
                }
            }
            assert forall|i: int, j: int| 0 <= i < j < s.len() implies day_index(#[trigger] s[i]) < day_index(#[trigger] s[j]) by {
                assert(s[j] == rest[j - 1]);
                if i > 0 {
                    assert(s[i] == rest[i - 1]);
                }
            }
        }
    }
}

/// The days of an all-day event whose `DTSTART` value is `v`: expanded by its
/// rule if it has one, else every day from the start up to its exclusive
/// `DTEND` if it has one, else the start alone; only days in `year`. `None`
/// when a date does not parse or the rule is refused.
pub open spec fn all_day_days(ev: Seq<PropertyView>, v: Seq<char>, year: int) -> Option<Seq<Date>> {
    match ymd_parsed(trim_ws(v)) {
        None => None,
        Some(start) => match raw_value(ev, "RRULE"@) {
            Some(rule) => match rrule_instants(
                all_day_rule_input(start, rule),
                utc_bounds(year).0,
                utc_bounds(year).1,
            ) {
                Some(ts) => Some(utc_days_in_year(ts, year)),
                None => None,
            },
            None => match raw_value(ev, "DTEND"@) {
                Some(e) => match ymd_parsed(trim_ws(e)) {
                    Some(end) => Some(span_days(start, end, year)),
                    None => None,
                },
                None => if start.year == year {
                    Some(seq![start])
                } else {
                    Some(Seq::empty())
                },
            },
        },
    }
}

/// A recurring all-day event's days are its rule's expansion: the UTC days in
/// `year` of the instants the rule yields from the start at midnight UTC,
/// between the year's padded bounds, whatever else the event holds.
pub proof fn law_all_day_rule_expansion(ev: Seq<PropertyView>, v: Seq<char>, year: int, start: Date, rule: Seq<char>)
    requires
        ymd_parsed(trim_ws(v)) == Some(start),
        raw_value(ev, "RRULE"@) == Some(rule),
    ensures
        all_day_days(ev, v, year) == (match rrule_instants(
            "DTSTART:"@ + date_text(start) + "T000000Z\nRRULE:"@ + trim_ws(rule),
            utc_bounds(year).0,
            utc_bounds(year).1,
        ) {
            Some(ts) => Some(utc_days_in_year(ts, year)),
            None => None,
        }),
{
}

/// A `DTEND` does not change the days of a recurring all-day event: two events
/// with the same start and the same rule have the same days, with or
/// without (or with different) end dates.
pub proof fn law_rule_ignores_dtend(ev1: Seq<PropertyView>, ev2: Seq<PropertyView>, v: Seq<char>, year: int)
    requires
        raw_value(ev1, "RRULE"@) is Some,
        raw_value(ev1, "RRULE"@) == raw_value(ev2, "RRULE"@),
    ensures
        all_day_days(ev1, v, year) == all_day_days(ev2, v, year),
{
}

/// The UTC dates in `year` of the instants `ts`, which lie between `after`
/// and `before`.
fn utc_days(ts: &Vec<i64>, year: i32, after: i64, before: i64) -> (r: Vec<Date>)
    requires
        instant_in_range(after as int),
        instant_in_range(before as int),
        forall|i: int| 0 <= i < ts@.len() ==> after <= #[trigger] ts@[i] <= before,
    ensures
        r@ == utc_days_in_year(ts@, year as int),
{
    let mut out: Vec<Date> = Vec::new();
    let mut i: usize = 0;
    while i < ts.len()
        invariant
            i <= ts@.len(),
            instant_in_range(after as int),
            instant_in_range(before as int),
            forall|k: int| 0 <= k < ts@.len() ==> after <= #[trigger] ts@[k] <= before,
            out@ == utc_days_in_year(ts@.take(i as int), year as int),
        decreases ts@.len() - i,
    {
        let x = ts[i];
        assert(after <= ts@[i as int] <= before);
        let d = utc_date_of(x);
        proof {
            lemma_utc_date(x as int, d);
            assert(ts@.take(i + 1).drop_last() == ts@.take(i as int));
            assert(ts@.take(i + 1).last() == x);
        }
        if d.year == year {
            out.push(d);
        }
        i = i + 1;
    }
    assert(ts@.take(i as int) == ts@);
    out
}

/// The dates from `start` up to (not including) `end` that fall in `year`.
fn span(start: Date, end: Date, year: i32) -> (r: Vec<Date>)
    requires
        date_ok(start),
        date_ok(end),
    ensures
        r@ == span_days(start, end, year as int),
{
    let mut out: Vec<Date> = Vec::new();
    let mut d = start;
    assert(out@ + span_days(d, end, year as int) == span_days(start, end, year as int));
    while date_before(d, end)
        invariant
            date_ok(d),
            date_ok(end),
            out@ + span_days(d, end, year as int) == span_days(start, end, year as int),
        decreases day_index(end) - day_index(d),
    {
        proof {
            lemma_not_past_last(d, end);
            lemma_next_date(d);
        }
        let ghost rest = span_days(next_date(d), end, year as int);
        if d.year == year {
            assert(span_days(d, end, year as int) == seq![d] + rest);
            out.push(d);
            assert(out@ + rest == span_days(start, end, year as int));
        } else {
            assert(span_days(d, end, year as int) == rest);
        }
        d = succ_date(d);
    }
    assert(span_days(d, end, year as int) == Seq::<Date>::empty());
    assert(out@ + Seq::<Date>::empty() == out@);
    out
}

/// The in-year days of an all-day event whose `DTSTART` value is `v`.
#[verifier::spinoff_prover]
fn all_day_dates(event: &IcsEvent, v: &str, year: i32) -> (r: Option<Vec<Date>>)
    requires
        MIN_YEAR < year < MAX_YEAR,
    ensures
        rule_pinned(event@) ==> match r {
            Some(ds) => all_day_days(event@, v@, year as int) == Some(ds@),
            None => all_day_days(event@, v@, year as int) is None,
        },
        r matches Some(ds) ==> forall|i: int| 0 <= i < ds@.len() ==> (#[trigger] ds@[i]).year == year,
{
    let w = trimmed(v);
    let start = match parse_ymd(w.as_str()) {
        Some(s) => s,
        None => return None,
    };
    match raw_prop(event, "RRULE") {
        Some(rule) => {
            let mut input = String::new();
            push_str(&mut input, "DTSTART:");
            push_date_text(&mut input, start);
            push_str(&mut input, "T000000Z\nRRULE:");
            let rt = trimmed(rule.as_str());
            push_str(&mut input, rt.as_str());
            assert(input@ == all_day_rule_input(start, rule@));
            assert(rule_pinned(event@) ==> rule_input_pinned(input@));
            let at_midnight = Time { hour: 0, minute: 0, second: 0 };
            proof {
                lemma_pad_days_in_range(year as int);
            }
            let after = utc_timestamp(Date { year: year - 1, month: 12, day: 31 }, at_midnight);
            let before = utc_timestamp(Date { year: year + 1, month: 1, day: 2 }, at_midnight);
            match expand_rrule(input.as_str(), after, before) {
                Some(ts) => {
                    let ds = utc_days(&ts, year, after, before);
                    proof {
                        lemma_utc_days_in_year(ts@, year as int);
                    }
                    Some(ds)
                },
                None => None,
            }
        },
        None => match raw_prop(event, "DTEND") {
            Some(e) => {
                let et = trimmed(e.as_str());
                match parse_ymd(et.as_str()) {
                    Some(end) => {
                        let ds = span(start, end, year);
                        proof {
                            law_span_days(start, end, year as int);
                        }
                        Some(ds)
                    },
                    None => None,
                }
            },
            None => {
                if start.year == year {
                    let mut one: Vec<Date> = Vec::new();
                    one.push(start);
                    assert(one@ == seq![start]);
                    Some(one)
                } else {
                    Some(Vec::new())
                }
            },
        },
    }
}

/// The earliest instant a wall-clock time maps to, if it maps to any.
pub open spec fn earliest(m: LocalMapping) -> Option<i64> {
    match m {
        LocalMapping::Gap => None,
        LocalMapping::Single(x) => Some(x),
        LocalMapping::Ambiguous(a, _) => Some(a),
    }
}

/// The instant a `DATE-TIME` value `v` (`YYYYMMDDTHHMMSS`, optionally
/// `Z`-suffixed) stands for: with `Z`, the wall-clock time in UTC; else in the
/// zone `tzid` names if there is one (`None` if chrono-tz does not know it),
/// else in `zone`; the earliest instant when the time occurs twice, `None`
/// when it does not occur or does not parse.
pub open spec fn resolved_instant(v: Seq<char>, tzid: Option<Seq<char>>, zone: Seq<char>) -> Option<i64> {
    let w = trim_ws(v);
    if w.len() > 0 && w.last() == 'Z' {
        match ymd_hms_parsed(w.drop_last()) {
            Some(x) => Some(utc_seconds(x.0, x.1) as i64),
            None => None,
        }
    } else {
        match ymd_hms_parsed(w) {
            None => None,
            Some(x) => match tzid {
                Some(id) => if tz_known(id) {
                    earliest(zone_local_mapping(id, x.0, x.1))
                } else {
                    None
                },
                None => earliest(zone_local_mapping(zone, x.0, x.1)),
            },
        }
    }
}

/// Resolve a DATE-TIME value (`YYYYMMDDTHHMMSS`, optionally `Z`-suffixed) plus an
/// optional TZID into an absolute UTC instant.
fn resolve_instant(v: &str, tzid: Option<String>, zone: &Zone) -> (r: Option<i64>)
    ensures
        r == resolved_instant(v@, opt_view(tzid), zone.spec_name()),
{
    let w = trimmed(v);
    let wc = chars_of(w.as_str());
    if wc.len() > 0 && wc[wc.len() - 1] == 'Z' {
        let stripped = string_from(&wc, 0, wc.len() - 1);
        assert(stripped@ == wc@.drop_last());
        match parse_ymd_hms(stripped.as_str()) {
            Some(x) => Some(utc_timestamp(x.0, x.1)),
            None => None,
        }
    } else {
        match parse_ymd_hms(w.as_str()) {
            None => None,
            Some(x) => {
                let mapping = match tzid {
                    Some(id) => match Zone::parse(id.as_str()) {
                        Some(z) => local_to_utc(z.name(), x.0, x.1),
                        None => return None,
                    },
                    None => local_to_utc(zone.name(), x.0, x.1),
                };
                match mapping {
                    LocalMapping::Gap => None,
                    LocalMapping::Single(s) => Some(s),
                    LocalMapping::Ambiguous(a, _) => Some(a),
                }
            },
        }
    }
}

/// The `rrule` input for a timed event: its start as wall-clock time in
/// `zone` (`d t`), then the event's rule.
pub open spec fn timed_rule_input(zone: Seq<char>, d: Date, t: Time, rule: Seq<char>) -> Seq<char> {
    "DTSTART;TZID="@ + zone + ":"@ + date_time_text(d, t) + "\nRRULE:"@ + trim_ws(rule)
}

/// The local dates and times in `zone` of the instants `ts` that fall in
/// `year`, in order. (An instant out of range is one no date of a year the
/// expansion accepts can hold.)
pub open spec fn local_days_in_year(ts: Seq<i64>, zone: Seq<char>, year: int) -> Seq<(Date, Time)>
    decreases ts.len(),
{
    if ts.len() == 0 {
        Seq::empty()
    } else {
        let rest = local_days_in_year(ts.drop_last(), zone, year);
        let t = ts.last() as int;
        if instant_in_range(t) && zone_local_of(zone, t).0.year == year {
            rest.push(zone_local_of(zone, t))
        } else {
            rest
        }
    }
}

/// The in-year local days and times of a timed event whose `DTSTART` is `p`
/// with value `v`: expanded by its rule (anchored at the start's wall-clock
/// time in `zone`) if it has one, else the start alone. `None` when the start
/// does not resolve or the rule is refused.
pub open spec fn timed_days(ev: Seq<PropertyView>, p: PropertyView, v: Seq<char>, year: int, zone: Seq<char>) -> Option<Seq<(Date, Time)>> {
    match resolved_instant(v, param_value(p, "TZID"@), zone) {
        None => None,
        Some(start) => match raw_value(ev, "RRULE"@) {
            Some(rule) => if !instant_in_range(start as int) {
                Some(Seq::empty())
            } else {
                let local = zone_local_of(zone, start as int);
                match zone_bounds(zone, year) {
                    Some(b) => match rrule_instants(timed_rule_input(zone, local.0, local.1, rule), b.0, b.1) {
                        Some(ts) => Some(local_days_in_year(ts, zone, year)),
                        None => None,
                    },
                    None => None,
                }
            },
            None => Some(local_days_in_year(seq![start], zone, year)),
        },
    }
}

/// Every occurrence falls in `year` and carries `color`.
pub open spec fn in_feed_year(os: Seq<OccurrenceView>, year: int, color: Seq<char>) -> bool {
    forall|i: int| 0 <= i < os.len() ==> (#[trigger] os[i]).date.year == year && os[i].color == color
}

/// `bounds` is what `zone_bounds` gives for `zone` and `year`.
pub open spec fn bounds_match(bounds: Option<(i64, i64)>, zone: Seq<char>, year: int) -> bool {
    match bounds {
        Some(b) => zone_bounds(zone, year) == Some((b.0 as int, b.1 as int)),
        None => zone_bounds(zone, year) is None,
    }
}

/// Whether expanding the event needs the year's bounds in the zone: it is a
/// timed event whose start resolves and which has a rule.
pub open spec fn needs_zone_bounds(ev: Seq<PropertyView>, zone: Seq<char>) -> bool {
    match find_prop(ev, "DTSTART"@) {
        Some(i) => match ev[i].value {
            Some(v) => !all_day_start(ev[i]) && raw_value(ev, "RRULE"@) is Some && resolved_instant(
                v,
                param_value(ev[i], "TZID"@),
                zone,
            ) is Some,
            None => false,
        },
        None => false,
    }
}

/// Whether some event of a readable calendar needs the year's bounds in the
/// zone.
pub open spec fn feed_needs_zone_bounds(cals: Seq<Result<Seq<Seq<PropertyView>>, Seq<char>>>, zone: Seq<char>) -> bool {
    exists|c: int, e: int|
        0 <= c < cals.len() && cals[c] is Ok && 0 <= e < cals[c]->Ok_0.len() && needs_zone_bounds(
            #[trigger] cals[c]->Ok_0[e],
            zone,
        )
}

/// Whether `ts` is an instant `utc_to_local` accepts.
fn in_range(ts: i64) -> (r: bool)
    ensures
        r == instant_in_range(ts as int),
{
    -8334601142400 <= ts && ts <= 8210266703999
}

/// The local dates and times in `zone` of the instants `ts` that fall in `year`.
fn local_days(ts: &Vec<i64>, zone: &Zone, year: i32) -> (r: Vec<(Date, Time)>)
    ensures
        r@ == local_days_in_year(ts@, zone.spec_name(), year as int),
{
    let mut out: Vec<(Date, Time)> = Vec::new();
    let mut i: usize = 0;
    while i < ts.len()
        invariant
            i <= ts@.len(),
            out@ == local_days_in_year(ts@.take(i as int), zone.spec_name(), year as int),
        decreases ts@.len() - i,
    {
        let x = ts[i];
        proof {
            assert(ts@.take(i + 1).drop_last() == ts@.take(i as int));
            assert(ts@.take(i + 1).last() == x);
        }
        if in_range(x) {
            let local = utc_to_local(zone.name(), x);
            if local.0.year == year {
                out.push(local);
            }
        }
        i = i + 1;
    }
    assert(ts@.take(i as int) == ts@);
    out
}

/// The in-year local days and times of a timed event whose `DTSTART` is `p`
/// with value `v`; `after` and `before` are `zone_bounds(zone, year)`.
#[verifier::spinoff_prover]
fn timed_dates(event: &IcsEvent, p: &IcsProperty, v: &str, year: i32, zone: &Zone, bounds: Option<(i64, i64)>) -> (r: Option<Vec<(Date, Time)>>)
    requires
        bounds_match(bounds, zone.spec_name(), year as int),
        bounds is None ==> !(raw_value(event@, "RRULE"@) is Some && resolved_instant(
            v@,
            param_value(p@, "TZID"@),
            zone.spec_name(),
        ) is Some),
    ensures
        rule_pinned(event@) ==> match r {
            Some(ds) => timed_days(event@, p@, v@, year as int, zone.spec_name()) == Some(ds@),
            None => timed_days(event@, p@, v@, year as int, zone.spec_name()) is None,
        },
        r matches Some(ds) ==> forall|i: int| 0 <= i < ds@.len() ==> (#[trigger] ds@[i]).0.year == year,
{
    let tzid = param(p, "TZID");
    let start = match resolve_instant(v, tzid, zone) {
        Some(s) => s,
        None => return None,
    };
    match raw_prop(event, "RRULE") {
        Some(rule) => {
            if !in_range(start) {
                return Some(Vec::new());
            }
            let local = utc_to_local(zone.name(), start);
            let mut input = String::new();
            push_str(&mut input, "DTSTART;TZID=");
            push_str(&mut input, zone.name());
            push_str(&mut input, ":");
            push_date_time_text(&mut input, local.0, local.1);
            push_str(&mut input, "\nRRULE:");
            let rt = trimmed(rule.as_str());
            push_str(&mut input, rt.as_str());
            assert(input@ == timed_rule_input(zone.spec_name(), local.0, local.1, rule@));
            assert(rule_pinned(event@) ==> rule_input_pinned(input@));
            let (after, before) = match bounds {
                Some(b) => b,
                None => return None,
            };
            match expand_rrule(input.as_str(), after, before) {
                Some(ts) => {
                    let ds = local_days(&ts, zone, year);
                    proof {
                        lemma_local_days_in_year(ts@, zone.spec_name(), year as int);
                    }
                    Some(ds)
                },
                None => None,
            }
        },
        None => {
            let mut one: Vec<i64> = Vec::new();
            one.push(start);
            assert(one@ == seq![start]);
            let ds = local_days(&one, zone, year);
            proof {
                lemma_local_days_in_year(one@, zone.spec_name(), year as int);
            }
            Some(ds)
        },
    }
}

/// The in-year days of an event, each with its local time (`None` for an
/// all-day event); `None` for a malformed event (no `DTSTART` or no value, a
/// date that does not parse, a start that does not resolve, a refused rule).
pub open spec fn event_days(ev: Seq<PropertyView>, year: int, zone: Seq<char>) -> Option<Seq<(Date, Option<Time>)>> {
    match find_prop(ev, "DTSTART"@) {
        None => None,
        Some(i) => match ev[i].value {
            None => None,
            Some(v) => if all_day_start(ev[i]) {
                match all_day_days(ev, v, year) {
                    Some(ds) => Some(ds.map_values(|d: Date| (d, None::<Time>))),
                    None => None,
                }
            } else {
                match timed_days(ev, ev[i], v, year, zone) {
                    Some(ds) => Some(ds.map_values(|x: (Date, Time)| (x.0, Some(x.1)))),
                    None => None,
                }
            },
        },
    }
}

/// An event's details materialised on `date` at `time`, in `color`: its
/// decoded `SUMMARY` (empty when it has none), `LOCATION`, `DESCRIPTION` and
/// attendees.
pub open spec fn occurrence_of(ev: Seq<PropertyView>, color: Seq<char>, date: Date, time: Option<Time>) -> OccurrenceView {
    OccurrenceView {
        date,
        time,
        end_time: None,
        title: match text_value(ev, "SUMMARY"@) {
            Some(t) => t,
            None => Seq::empty(),
        },
        location: text_value(ev, "LOCATION"@),
        description: text_value(ev, "DESCRIPTION"@),
        attendees: attendee_list(ev),
        color,
    }
}

/// An event's in-year occurrences, or `None` if it is malformed.
pub open spec fn event_occurrences(ev: Seq<PropertyView>, color: Seq<char>, year: int, zone: Seq<char>) -> Option<Seq<OccurrenceView>> {
    match event_days(ev, year, zone) {
        Some(ds) => Some(ds.map_values(|x: (Date, Option<Time>)| occurrence_of(ev, color, x.0, x.1))),
        None => None,
    }
}

/// The in-year days of an event with their local times.
#[verifier::spinoff_prover]
fn event_dates(event: &IcsEvent, year: i32, zone: &Zone, bounds: Option<(i64, i64)>) -> (r: Option<Vec<(Date, Option<Time>)>>)
    requires
        MIN_YEAR < year < MAX_YEAR,
        bounds_match(bounds, zone.spec_name(), year as int),
        bounds is None ==> !needs_zone_bounds(event@, zone.spec_name()),
    ensures
        rule_pinned(event@) ==> match r {
            Some(ds) => event_days(event@, year as int, zone.spec_name()) == Some(ds@),
            None => event_days(event@, year as int, zone.spec_name()) is None,
        },
        r matches Some(ds) ==> forall|i: int| 0 <= i < ds@.len() ==> (#[trigger] ds@[i]).0.year == year,
{
    let i = match prop(event, "DTSTART") {
        Some(i) => i,
        None => return None,
    };
    let p = &event.properties[i];
    assert(event@[i as int] == p@);
    let v = match &p.value {
        Some(v) => v,
        None => return None,
    };
    let mut out: Vec<(Date, Option<Time>)> = Vec::new();
    if is_all_day(p) {
        let ds = match all_day_dates(event, v.as_str(), year) {
            Some(ds) => ds,
            None => return None,
        };
        let ghost f = |d: Date| (d, None::<Time>);
        let mut k: usize = 0;
        while k < ds.len()
            invariant
                k <= ds@.len(),
                f == (|d: Date| (d, None::<Time>)),
                out@ == ds@.take(k as int).map_values(f),
            decreases ds@.len() - k,
        {
            out.push((ds[k], None));
            assert(ds@.take(k + 1).map_values(f) == ds@.take(k as int).map_values(f).push(f(ds@[k as int])));
            k = k + 1;
        }
        assert(ds@.take(k as int) == ds@);
    } else {
        let ds = match timed_dates(event, p, v.as_str(), year, zone, bounds) {
            Some(ds) => ds,
            None => return None,
        };
        let ghost f = |x: (Date, Time)| (x.0, Some(x.1));
        let mut k: usize = 0;
        while k < ds.len()
            invariant
                k <= ds@.len(),
                f == (|x: (Date, Time)| (x.0, Some(x.1))),
                out@ == ds@.take(k as int).map_values(f),
            decreases ds@.len() - k,
        {
            let x = ds[k];
            out.push((x.0, Some(x.1)));
            assert(ds@.take(k + 1).map_values(f) == ds@.take(k as int).map_values(f).push(f(ds@[k as int])));
            k = k + 1;
        }
        assert(ds@.take(k as int) == ds@);
    }
    Some(out)
}

/// Expand a single VEVENT into its in-year occurrences.
#[verifier::spinoff_prover]
fn expand_event(event: &IcsEvent, color: &str, year: i32, zone: &Zone, bounds: Option<(i64, i64)>) -> (r: Option<Vec<EventOccurrence>>)
    requires
        MIN_YEAR < year < MAX_YEAR,
        bounds_match(bounds, zone.spec_name(), year as int),
        bounds is None ==> !needs_zone_bounds(event@, zone.spec_name()),
    ensures
        rule_pinned(event@) ==> match r {
            Some(os) => event_occurrences(event@, color@, year as int, zone.spec_name()) == Some(occurrence_views(os@)),
            None => event_occurrences(event@, color@, year as int, zone.spec_name()) is None,
        },
        r matches Some(os) ==> in_feed_year(occurrence_views(os@), year as int, color@),
{
    let days = match event_dates(event, year, zone, bounds) {
        Some(ds) => ds,
        None => return None,
    };
    let title = match text_prop(event, "SUMMARY") {
        Some(t) => t,
        None => String::new(),
    };
    let location = text_prop(event, "LOCATION");
    let description = text_prop(event, "DESCRIPTION");
    let people = attendees(event);
    let ghost f = |x: (Date, Option<Time>)| occurrence_of(event@, color@, x.0, x.1);
    let mut out: Vec<EventOccurrence> = Vec::new();
    let mut k: usize = 0;
    while k < days.len()
        invariant
            k <= days@.len(),
            f == (|x: (Date, Option<Time>)| occurrence_of(event@, color@, x.0, x.1)),
            title@ == (match text_value(event@, "SUMMARY"@) {
                Some(t) => t,
                None => Seq::<char>::empty(),
            }),
            opt_view(location) == text_value(event@, "LOCATION"@),
            opt_view(description) == text_value(event@, "DESCRIPTION"@),
            string_views(people@) == attendee_list(event@),
            occurrence_views(out@) == days@.take(k as int).map_values(f),
        decreases days@.len() - k,
    {
        let x = days[k];
        let o = EventOccurrence {
            date: x.0,
            time: x.1,
            end_time: None,
            title: title.clone(),
            location: opt_copy(&location),
            description: opt_copy(&description),
            attendees: copy_strings(&people),
            color: String::from_str(color),
        };
        assert(o@ == f(x));
        out.push(o);
        assert(occurrence_views(out@) == days@.take(k as int).map_values(f).push(o@));
        assert(days@.take(k + 1).map_values(f) == days@.take(k as int).map_values(f).push(f(days@[k as int])));
        k = k + 1;
    }
    assert(days@.take(k as int) == days@);
    assert forall|i: int| 0 <= i < occurrence_views(out@).len() implies (#[trigger] occurrence_views(out@)[i]).date.year == year
        && occurrence_views(out@)[i].color == color@ by {
        assert(occurrence_views(out@)[i] == f(days@[i]));
    }
    Some(out)
}

/// The occurrences of a calendar's events, event by event, malformed events
/// skipped.
pub open spec fn events_occurrences(evs: Seq<Seq<PropertyView>>, color: Seq<char>, year: int, zone: Seq<char>) -> Seq<OccurrenceView>
    decreases evs.len(),
{
    if evs.len() == 0 {
        Seq::empty()
    } else {
        let rest = events_occurrences(evs.drop_last(), color, year, zone);
        match event_occurrences(evs.last(), color, year, zone) {
            Some(os) => rest + os,
            None => rest,
        }
    }
}

/// The occurrences of a feed's calendars in feed order, or the parser's
/// message for the first calendar it could not read.
pub open spec fn feed_occurrences(cals: Seq<Result<Seq<Seq<PropertyView>>, Seq<char>>>, color: Seq<char>, year: int, zone: Seq<char>) -> Result<Seq<OccurrenceView>, Seq<char>>
    decreases cals.len(),
{
    if cals.len() == 0 {
        Ok(Seq::empty())
    } else {
        match cals[0] {
            Err(m) => Err(m),
            Ok(evs) => match feed_occurrences(cals.drop_first(), color, year, zone) {
                Err(m) => Err(m),
                Ok(rest) => Ok(events_occurrences(evs, color, year, zone) + rest),
            },
        }
    }
}

/// The occurrences of every event of the calendars, in feed order.
#[verifier::spinoff_prover]
fn collect_occurrences(cals: &Vec<Result<Vec<IcsEvent>, String>>, color: &str, year: i32, zone: &Zone, bounds: Option<(i64, i64)>) -> (r: Result<Vec<EventOccurrence>, String>)
    requires
        MIN_YEAR < year < MAX_YEAR,
        bounds_match(bounds, zone.spec_name(), year as int),
        bounds is None ==> !feed_needs_zone_bounds(calendars_view(cals@), zone.spec_name()),
    ensures
        r matches Ok(os) ==> in_feed_year(occurrence_views(os@), year as int, color@),
        calendars_pinned(calendars_view(cals@)) ==> match r {
            Ok(os) => feed_occurrences(calendars_view(cals@), color@, year as int, zone.spec_name()) == Ok::<Seq<OccurrenceView>, Seq<char>>(occurrence_views(os@)),
            Err(m) => feed_occurrences(calendars_view(cals@), color@, year as int, zone.spec_name()) == Err::<Seq<OccurrenceView>, Seq<char>>(m@),
        },
{
    let ghost cv = calendars_view(cals@);
    let ghost zn = zone.spec_name();
    let ghost pinned = calendars_pinned(cv);
    let mut out: Vec<EventOccurrence> = Vec::new();
    let mut i: usize = 0;
    assert(cv.skip(0) == cv);
    while i < cals.len()
        invariant
            MIN_YEAR < year < MAX_YEAR,
            bounds_match(bounds, zn, year as int),
            bounds is None ==> !feed_needs_zone_bounds(cv, zn),
            zn == zone.spec_name(),
            cv == calendars_view(cals@),
            i <= cals@.len(),
            pinned == calendars_pinned(cv),
            in_feed_year(occurrence_views(out@), year as int, color@),
            pinned ==> feed_occurrences(cv, color@, year as int, zn) == match feed_occurrences(cv.skip(i as int), color@, year as int, zn) {
                Err(m) => Err(m),
                Ok(rest) => Ok(occurrence_views(out@) + rest),
            },
        decreases cals@.len() - i,
    {
        let ghost tail = cv.skip(i as int);
        assert(tail[0] == cv[i as int]);
        assert(tail.drop_first() == cv.skip(i + 1));
        match &cals[i] {
            Err(m) => {
                return Err(m.clone());
            },
            Ok(evs) => {
                let ghost ev = evs@.map_values(|e: IcsEvent| e@);
                let ghost before_cal = occurrence_views(out@);
                assert(cv[i as int] == Ok::<Seq<Seq<PropertyView>>, Seq<char>>(ev));
                proof {
                    if pinned {
                        assert forall|e: int| 0 <= e < ev.len() implies rule_pinned(ev[e]) by {
                            assert(cv[i as int]->Ok_0[e] == ev[e]);
                        }
                    }
                    if bounds is None {
                        assert forall|e: int| 0 <= e < ev.len() implies !needs_zone_bounds(ev[e], zn) by {
                            assert(cv[i as int]->Ok_0[e] == ev[e]);
                        }
                    }
                }
                let mut j: usize = 0;
                while j < evs.len()
                    invariant
                        MIN_YEAR < year < MAX_YEAR,
                        bounds_match(bounds, zn, year as int),
                        bounds is None ==> forall|e: int| 0 <= e < ev.len() ==> !needs_zone_bounds(ev[e], zn),
                        zn == zone.spec_name(),
                        j <= evs@.len(),
                        ev == evs@.map_values(|e: IcsEvent| e@),
                        pinned ==> forall|e: int| 0 <= e < ev.len() ==> rule_pinned(ev[e]),
                        in_feed_year(occurrence_views(out@), year as int, color@),
                        pinned ==> occurrence_views(out@) == before_cal + events_occurrences(ev.take(j as int), color@, year as int, zn),
                    decreases evs@.len() - j,
                {
                    assert(ev.take(j + 1).drop_last() == ev.take(j as int));
                    assert(ev.take(j + 1).last() == evs@[j as int]@);
                    assert(ev[j as int] == evs@[j as int]@);
                    assert(pinned ==> rule_pinned(evs@[j as int]@));
                    assert(bounds is None ==> !needs_zone_bounds(evs@[j as int]@, zn));
                    match expand_event(&evs[j], color, year, zone, bounds) {
                        Some(mut os) => {
                            let ghost old_out = out@;
                            let ghost added = os@;
                            out.append(&mut os);
                            assert(out@ == old_out + added);
                            assert(occurrence_views(out@) == occurrence_views(old_out) + occurrence_views(added));
                            assert forall|q: int| 0 <= q < occurrence_views(out@).len() implies (#[trigger] occurrence_views(out@)[q]).date.year == year
                                && occurrence_views(out@)[q].color == color@ by {
                                if q < old_out.len() {
                                    assert(occurrence_views(out@)[q] == occurrence_views(old_out)[q]);
                                } else {
                                    assert(occurrence_views(out@)[q] == occurrence_views(added)[q - old_out.len()]);
                                }
                            }
                        },
                        None => {},
                    }
                    j = j + 1;
                }
                assert(ev.take(j as int) == ev);
                assert(cv[i as int] == Ok::<Seq<Seq<PropertyView>>, Seq<char>>(ev));
                proof { if pinned {
                    let here = events_occurrences(ev, color@, year as int, zn);
                    assert(occurrence_views(out@) == before_cal + here);
                    match feed_occurrences(cv.skip(i + 1), color@, year as int, zn) {
                        Err(m) => {
                            assert(feed_occurrences(tail, color@, year as int, zn) == Err::<Seq<OccurrenceView>, Seq<char>>(m));
                        },
                        Ok(rest) => {
                            assert(feed_occurrences(tail, color@, year as int, zn) == Ok::<Seq<OccurrenceView>, Seq<char>>(here + rest));
                            assert(before_cal + (here + rest) == (before_cal + here) + rest);
                        },
                    }
                } }
            },
        }
        i = i + 1;
    }
    assert(cv.skip(i as int) == Seq::<Result<Seq<Seq<PropertyView>>, Seq<char>>>::empty());
    assert(occurrence_views(out@) + Seq::<OccurrenceView>::empty() == occurrence_views(out@));
    Ok(out)
}

/// Why a feed yields no occurrences.
#[derive(Debug, Clone, PartialEq, Eq)]
pub enum IcsError {
    /// The parser could not read a `VCALENDAR` of the feed; holds its message.
    Feed(String),
    /// The feed's events cannot be expanded for this year: the day before it
    /// or the day after it is not a date chrono holds, or the feed has a
    /// recurring timed event and midnight on one of those days is not exactly
    /// one instant in the zone. Holds the year.
    UnboundedYear(i32),
}

/// `zone_bounds`, computed.
fn zone_pad_bounds(zone: &Zone, year: i32) -> (r: Option<(i64, i64)>)
    requires
        MIN_YEAR < year < MAX_YEAR,
    ensures
        match r {
            Some(b) => zone_bounds(zone.spec_name(), year as int) == Some((b.0 as int, b.1 as int)),
            None => zone_bounds(zone.spec_name(), year as int) is None,
        },
{
    let at_midnight = Time { hour: 0, minute: 0, second: 0 };
    let first = local_to_utc(zone.name(), Date { year: year - 1, month: 12, day: 31 }, at_midnight);
    let last = local_to_utc(zone.name(), Date { year: year + 1, month: 1, day: 2 }, at_midnight);
    match (first, last) {
        (LocalMapping::Single(a), LocalMapping::Single(b)) => {
            if in_range(a) && in_range(b) {
                Some((a, b))
            } else {
                None
            }
        },
        _ => None,
    }
}

/// What `parse_feed` answers for a feed whose calendars read as `cals`: the
/// occurrences of every well-formed event, sorted, or the parser's message.
pub open spec fn feed_result(cals: Seq<Result<Seq<Seq<PropertyView>>, Seq<char>>>, color: Seq<char>, year: int, zone: Seq<char>) -> Result<Seq<OccurrenceView>, Seq<char>> {
    match feed_occurrences(cals, color, year, zone) {
        Ok(os) => Ok(sorted_occurrences(os)),
        Err(m) => Err(m),
    }
}

/// The view of `parse_feed`'s answer.
pub open spec fn result_view(r: Result<Vec<EventOccurrence>, IcsError>) -> Result<Seq<OccurrenceView>, Seq<char>> {
    match r {
        Ok(v) => Ok(occurrence_views(v@)),
        Err(IcsError::Feed(m)) => Err(m@),
        Err(IcsError::UnboundedYear(_)) => Err(Seq::empty()),
    }
}

/// Parse a full ICS feed into per-day occurrences for `year`, in timezone `tz`.
///
/// `color` is stamped onto every produced occurrence. Individual malformed
/// events are skipped rather than failing the whole feed; a calendar the
/// parser cannot read fails it. A recurring timed event is expanded between
/// the zone's midnights a day outside the year, so those must exist when the
/// feed has one.
pub fn parse_feed(bytes: &[u8], color: &str, year: i32, tz: &Zone) -> (r: Result<Vec<EventOccurrence>, IcsError>)
    requires
        MIN_YEAR < year < MAX_YEAR,
        zone_bounds(tz.spec_name(), year as int) is Some || !feed_needs_zone_bounds(ical_read(bytes@), tz.spec_name()),
    ensures
        r matches Ok(_) || r matches Err(IcsError::Feed(_)),
        r matches Ok(v) ==> in_order(occurrence_views(v@)) && in_feed_year(occurrence_views(v@), year as int, color@),
        calendars_pinned(ical_read(bytes@)) ==> result_view(r) == feed_result(ical_read(bytes@), color@, year as int, tz.spec_name()),
{
    let bounds = zone_pad_bounds(tz, year);
    let cals = read_calendars(bytes);
    match collect_occurrences(&cals, color, year, tz, bounds) {
        Ok(occs) => {
            let sorted = sort_occurrences(occs);
            proof {
                let all = occurrence_views(occs@);
                let p = |o: OccurrenceView| o.date.year == year && o.color == color@;
                assert forall|i: int| 0 <= i < all.len() implies p(#[trigger] all[i]) by {}
                lemma_sorted_keeps(all, p);
                law_sorted_in_order(all);
                let os = sorted_occurrences(all);
                assert forall|i: int| 0 <= i < os.len() implies (#[trigger] os[i]).date.year == year && os[i].color == color@ by {
                    assert(p(os[i]));
                }
            }
            Ok(sorted)
        },
        Err(m) => Err(IcsError::Feed(m)),
    }
}

/// Whether expanding `event` needs the year's bounds in `zone` (see
/// `needs_zone_bounds`).
fn event_needs_zone_bounds(event: &IcsEvent, zone: &Zone) -> (b: bool)
    ensures
        b == needs_zone_bounds(event@, zone.spec_name()),
{
    let i = match prop(event, "DTSTART") {
        Some(i) => i,
        None => return false,
    };
    let p = &event.properties[i];
    assert(event@[i as int] == p@);
    let v = match &p.value {
        Some(v) => v,
        None => return false,
    };
    if is_all_day(p) {
        return false;
    }
    match raw_prop(event, "RRULE") {
        None => false,
        Some(_) => resolve_instant(v.as_str(), param(p, "TZID"), zone).is_some(),
    }
}

/// Whether some event of a readable calendar of `cals` needs the year's
/// bounds in `zone`.
fn feed_needs_bounds(cals: &Vec<Result<Vec<IcsEvent>, String>>, zone: &Zone) -> (b: bool)
    ensures
        b == feed_needs_zone_bounds(calendars_view(cals@), zone.spec_name()),
{
    let ghost cv = calendars_view(cals@);
    let ghost zn = zone.spec_name();
    let mut i: usize = 0;
    while i < cals.len()
        invariant
            i <= cals@.len(),
            cv == calendars_view(cals@),
            zn == zone.spec_name(),
            forall|c: int, e: int|
                0 <= c < i && cv[c] is Ok && 0 <= e < cv[c]->Ok_0.len() ==> !needs_zone_bounds(#[trigger] cv[c]->Ok_0[e], zn),
        decreases cals@.len() - i,
    {
        match &cals[i] {
            Err(_) => {},
            Ok(evs) => {
                let mut j: usize = 0;
                while j < evs.len()
                    invariant
                        i < cals@.len(),
                        j <= evs@.len(),
                        cv == calendars_view(cals@),
                        zn == zone.spec_name(),
                        cals@[i as int] == Ok::<Vec<IcsEvent>, String>(*evs),
                        forall|c: int, e: int|
                            0 <= c < i && cv[c] is Ok && 0 <= e < cv[c]->Ok_0.len() ==> !needs_zone_bounds(#[trigger] cv[c]->Ok_0[e], zn),
                        forall|e: int| 0 <= e < j ==> !needs_zone_bounds(#[trigger] cv[i as int]->Ok_0[e], zn),
                    decreases evs@.len() - j,
                {
                    assert(cv[i as int]->Ok_0[j as int] == evs@[j as int]@);
                    if event_needs_zone_bounds(&evs[j], zone) {
                        return true;
                    }
                    j = j + 1;
                }
            },
        }
        i = i + 1;
    }
    false
}

/// Whether `parse_feed` can read the feed for `year` in `zone`: the year
/// lies strictly inside the calendar, and the zone's bounding midnights exist
/// if some recurring timed event needs them.
pub open spec fn year_bounded(bytes: Seq<u8>, zone: Seq<char>, year: int) -> bool {
    &&& MIN_YEAR < year < MAX_YEAR
    &&& zone_bounds(zone, year) is Some || !feed_needs_zone_bounds(ical_read(bytes), zone)
}

/// `parse_feed` for any year: `UnboundedYear` when the feed cannot be read
/// for `year` in `tz` (see `year_bounded`), else what `parse_feed` answers.
pub fn parse_feed_checked(bytes: &[u8], color: &str, year: i32, tz: &Zone) -> (r: Result<Vec<EventOccurrence>, IcsError>)
    ensures
        r == Err::<Vec<EventOccurrence>, IcsError>(IcsError::UnboundedYear(year)) <==> !year_bounded(bytes@, tz.spec_name(), year as int),
        r matches Ok(v) ==> in_order(occurrence_views(v@)) && in_feed_year(occurrence_views(v@), year as int, color@),
        year_bounded(bytes@, tz.spec_name(), year as int) && calendars_pinned(ical_read(bytes@)) ==> result_view(r) == feed_result(ical_read(bytes@), color@, year as int, tz.spec_name()),
{
    if year <= MIN_YEAR || year >= MAX_YEAR {
        return Err(IcsError::UnboundedYear(year));
    }
    match zone_pad_bounds(tz, year) {
        Some(_) => parse_feed(bytes, color, year, tz),
        None => {
            let cals = read_calendars(bytes);
            if feed_needs_bounds(&cals, tz) {
                Err(IcsError::UnboundedYear(year))
            } else {
                parse_feed(bytes, color, year, tz)
            }
        },
    }
}

proof fn lemma_utc_days_in_year(ts: Seq<i64>, year: int)
    ensures
        forall|i: int| 0 <= i < utc_days_in_year(ts, year).len() ==> (#[trigger] utc_days_in_year(ts, year)[i]).year == year,
    decreases ts.len(),
{
    if ts.len() > 0 {
        lemma_utc_days_in_year(ts.drop_last(), year);
        let rest = utc_days_in_year(ts.drop_last(), year);
        let d = utc_date(ts.last() as int);
        if d.year == year {
            assert forall|i: int| 0 <= i < rest.push(d).len() implies (#[trigger] rest.push(d)[i]).year == year by {
                if i < rest.len() {
                    assert(rest.push(d)[i] == rest[i]);
                }
            }
        }
    }
}

proof fn lemma_local_days_in_year(ts: Seq<i64>, zone: Seq<char>, year: int)
    ensures
        forall|i: int| 0 <= i < local_days_in_year(ts, zone, year).len() ==> (#[trigger] local_days_in_year(ts, zone, year)[i]).0.year == year,
    decreases ts.len(),
{
    if ts.len() > 0 {
        lemma_local_days_in_year(ts.drop_last(), zone, year);
        let rest = local_days_in_year(ts.drop_last(), zone, year);
        let t = ts.last() as int;
        if instant_in_range(t) && zone_local_of(zone, t).0.year == year {
            let x = zone_local_of(zone, t);
            assert forall|i: int| 0 <= i < rest.push(x).len() implies (#[trigger] rest.push(x)[i]).0.year == year by {
                if i < rest.len() {
                    assert(rest.push(x)[i] == rest[i]);
                }
            }
        }
    }
}

/// Every occurrence of an event falls in `year` and carries `color`.
#[verifier::spinoff_prover]
proof fn lemma_event_in_year(ev: Seq<PropertyView>, color: Seq<char>, year: int, zone: Seq<char>)
    ensures
        event_occurrences(ev, color, year, zone) matches Some(os) ==> forall|i: int| 0 <= i < os.len() ==> (#[trigger] os[i]).date.year == year && os[i].color == color,
{
    match find_prop(ev, "DTSTART"@) {
        None => {},
        Some(k) => match ev[k].value {
            None => {},
            Some(v) => {
                if all_day_start(ev[k]) {
                    match ymd_parsed(trim_ws(v)) {
                        None => {},
                        Some(start) => match raw_value(ev, "RRULE"@) {
                            Some(rule) => match rrule_instants(all_day_rule_input(start, rule), utc_bounds(year).0, utc_bounds(year).1) {
                                Some(ts) => lemma_utc_days_in_year(ts, year),
                                None => {},
                            },
                            None => match raw_value(ev, "DTEND"@) {
                                Some(e) => match ymd_parsed(trim_ws(e)) {
                                    Some(end) => law_span_days(start, end, year),
                                    None => {},
                                },
                                None => {},
                            },
                        },
                    }
                } else {
                    match resolved_instant(v, param_value(ev[k], "TZID"@), zone) {
                        None => {},
                        Some(start) => match raw_value(ev, "RRULE"@) {
                            Some(rule) => {
                                let local = zone_local_of(zone, start as int);
                                match zone_bounds(zone, year) {
                                    Some(b) => match rrule_instants(timed_rule_input(zone, local.0, local.1, rule), b.0, b.1) {
                                        Some(ts) => lemma_local_days_in_year(ts, zone, year),
                                        None => {},
                                    },
                                    None => {},
                                }
                            },
                            None => lemma_local_days_in_year(seq![start], zone, year),
                        },
                    }
                }
            },
        },
    }
}

proof fn lemma_events_in_year(evs: Seq<Seq<PropertyView>>, color: Seq<char>, year: int, zone: Seq<char>)
    ensures
        forall|i: int| 0 <= i < events_occurrences(evs, color, year, zone).len() ==> (#[trigger] events_occurrences(evs, color, year, zone)[i]).date.year == year
            && events_occurrences(evs, color, year, zone)[i].color == color,
    decreases evs.len(),
{
    if evs.len() > 0 {
        let rest = events_occurrences(evs.drop_last(), color, year, zone);
        lemma_events_in_year(evs.drop_last(), color, year, zone);
        lemma_event_in_year(evs.last(), color, year, zone);
        match event_occurrences(evs.last(), color, year, zone) {
            Some(os) => {
                assert forall|i: int| 0 <= i < (rest + os).len() implies (#[trigger] (rest + os)[i]).date.year == year && (rest + os)[i].color == color by {
                    if i >= rest.len() {
                        assert((rest + os)[i] == os[i - rest.len()]);
                    } else {
                        assert((rest + os)[i] == rest[i]);
                    }
                }
            },
            None => {},
        }
    }
}

proof fn lemma_feed_in_year(cals: Seq<Result<Seq<Seq<PropertyView>>, Seq<char>>>, color: Seq<char>, year: int, zone: Seq<char>)
    ensures
        feed_occurrences(cals, color, year, zone) matches Ok(os) ==> forall|i: int| 0 <= i < os.len() ==> (#[trigger] os[i]).date.year == year && os[i].color == color,
    decreases cals.len(),
{
    if cals.len() > 0 {
        lemma_feed_in_year(cals.drop_first(), color, year, zone);
        match cals[0] {
            Err(_) => {},
            Ok(evs) => match feed_occurrences(cals.drop_first(), color, year, zone) {
                Err(_) => {},
                Ok(rest) => {
                    lemma_events_in_year(evs, color, year, zone);
                    let here = events_occurrences(evs, color, year, zone);
                    assert forall|i: int| 0 <= i < (here + rest).len() implies (#[trigger] (here + rest)[i]).date.year == year && (here + rest)[i].color == color by {
                        if i >= here.len() {
                            assert((here + rest)[i] == rest[i - here.len()]);
                        } else {
                            assert((here + rest)[i] == here[i]);
                        }
                    }
                },
            },
        }
    }
}

/// What `parse_feed` returns for a feed it reads: every occurrence falls in
/// the target year and carries the feed's colour, the occurrences are in
/// order (by date, then all-day before timed, then time of day, then title),
/// and they are exactly the occurrences of the feed's well-formed events,
/// each as often as the feed yields it.
#[verifier::spinoff_prover]
pub proof fn law_feed_occurrences(cals: Seq<Result<Seq<Seq<PropertyView>>, Seq<char>>>, color: Seq<char>, year: int, zone: Seq<char>)
    ensures
        feed_result(cals, color, year, zone) matches Ok(os) ==> {
            &&& forall|i: int| 0 <= i < os.len() ==> (#[trigger] os[i]).date.year == year && os[i].color == color
            &&& in_order(os)
            &&& feed_occurrences(cals, color, year, zone) matches Ok(all) && os.to_multiset() == all.to_multiset()
        },
{
    match feed_occurrences(cals, color, year, zone) {
        Ok(all) => {
            lemma_feed_in_year(cals, color, year, zone);
            let p = |o: OccurrenceView| o.date.year == year && o.color == color;
            assert forall|i: int| 0 <= i < all.len() implies p(#[trigger] all[i]) by {}
            lemma_sorted_keeps(all, p);
            let os = sorted_occurrences(all);
            assert forall|i: int| 0 <= i < os.len() implies (#[trigger] os[i]).date.year == year && os[i].color == color by {
                assert(p(os[i]));
            }
            law_sorted_in_order(all);
            law_sort_permutes(all);
        },
        Err(_) => {},
    }
}

} // verus!
