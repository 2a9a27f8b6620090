//! Per-page emitters. Each struct holds one page's data; `render()` gives the
//! page as HTML (a `<section class="page">` styled by the notebook CSS), and
//! `typst()` gives the same page as a Typst fragment that calls the preamble
//! helpers (the `#let`s the Typst renderer prepends), already wrapped in a
//! `*-page(...)` helper so that renderer just concatenates the fragments.
use vstd::prelude::*;
use crate::render::doc::{esc_html, esc_markup, esc_str, html_escaped, markup_escaped, str_escaped};
use crate::text::{decimal, decimal_nat, push_decimal_i64, push_decimal_u64, push_str, string_views};

verus! {

/// `"{month_num}.{day_pad} {weekday}"`, with the text parts markup-escaped.
pub open spec fn date_label_spec(month_num: int, day_pad: Seq<char>, weekday: Seq<char>) -> Seq<char> {
    decimal_nat(month_num as nat) + "."@ + markup_escaped(day_pad) + " "@ + markup_escaped(weekday)
}

/// Build a `month.day weekday` date label, e.g. `5.02 Sat`.
pub fn date_label(month_num: u32, day_pad: &str, weekday: &str) -> (r: String)
    ensures
        r@ == date_label_spec(month_num as int, day_pad@, weekday@),
{
    let mut out = String::new();
    push_decimal_u64(&mut out, month_num as u64);
    push_str(&mut out, ".");
    let d = esc_markup(day_pad);
    push_str(&mut out, d.as_str());
    push_str(&mut out, " ");
    let w = esc_markup(weekday);
    push_str(&mut out, w.as_str());
    out
}

/// The journal cover: full-bleed indigo gradient, year + title bottom-left. A
/// blank cover (collection template) shows a write-in rule instead of a title.
pub struct Cover<'a> {
    pub year: i32,
    pub title: &'a str,
    pub blank_title: bool,
}

/// The cover's title line: a write-in rule when blank, else the escaped title.
pub open spec fn cover_title_spec(title: Seq<char>, blank: bool) -> Seq<char> {
    if blank {
        "#box(width: 70%, height: 22pt, stroke: (bottom: 1pt + nav.transparentize(40%)))[]"@
    } else {
        "#text(font: \"Fraunces 72pt\", size: 24pt, weight: 600, fill: nav)["@ + markup_escaped(
            title,
        ) + "]"@
    }
}

/// The cover page fragment.
pub open spec fn cover_spec(year: int, title: Seq<char>, blank: bool) -> Seq<char> {
    "#cover-page[\n#v(1fr)\n#text(font: \"Lora\", size: 9pt, fill: nav, tracking: 2.25pt)["@
        + decimal(year) + "]\n#v(5pt)\n"@ + cover_title_spec(title, blank)
        + "\n#v(8pt, weak: false)\n]\n"@
}

impl Cover<'_> {
    /// The cover page: the year, then the title (or a blank write-in rule).
    pub fn typst(&self) -> (r: String)
        ensures
            r@ == cover_spec(self.year as int, self.title@, self.blank_title),
    {
        let mut out = String::new();
        push_str(
            &mut out,
            "#cover-page[\n#v(1fr)\n#text(font: \"Lora\", size: 9pt, fill: nav, tracking: 2.25pt)[",
        );
        push_decimal_i64(&mut out, self.year as i64);
        push_str(&mut out, "]\n#v(5pt)\n");
        if self.blank_title {
            push_str(
                &mut out,
                "#box(width: 70%, height: 22pt, stroke: (bottom: 1pt + nav.transparentize(40%)))[]",
            );
        } else {
            push_str(&mut out, "#text(font: \"Fraunces 72pt\", size: 24pt, weight: 600, fill: nav)[");
            let t = esc_markup(self.title);
            push_str(&mut out, t.as_str());
            push_str(&mut out, "]");
        }
        push_str(&mut out, "\n#v(8pt, weak: false)\n]\n");
        out
    }
}

/// A blank dot-grid page (collection pages, extra per-day pages).
pub struct DotGrid;

impl DotGrid {
    /// A page with nothing but the dot grid.
    pub fn typst(&self) -> (r: String)
        ensures
            r@ == "#dot-page[]\n"@,
    {
        String::from_str("#dot-page[]\n")
    }
}

/// The monthly Tasks page: dot grid with a heading.
pub struct Tasks;

impl Tasks {
    /// The Tasks heading on a dot-grid page.
    pub fn typst(&self) -> (r: String)
        ensures
            r@ == "#dot-page[\n#text(font: \"Fraunces 72pt\", size: head-fs, weight: 600, fill: primary)[Tasks]\n]\n"@,
    {
        String::from_str(
            "#dot-page[\n#text(font: \"Fraunces 72pt\", size: head-fs, weight: 600, fill: primary)[Tasks]\n]\n",
        )
    }
}

/// One Future Log month block.
pub open spec fn future_log_block(name: Seq<char>) -> Seq<char> {
    "#block(width: 100%, height: (page-h - toolbar-pt - margin-pt) / 3, inset: (top: 4pt), stroke: (bottom: 0.6pt + ink), spacing: 0pt, fill: dot-tile)[\n#text(font: \"Fraunces 72pt\", size: 12pt, weight: 600, fill: primary)["@
        + markup_escaped(name) + "]\n]\n"@
}

/// The month blocks for `names`, in order.
pub open spec fn future_log_blocks(names: Seq<Seq<char>>) -> Seq<char>
    decreases names.len(),
{
    if names.len() == 0 {
        Seq::empty()
    } else {
        future_log_blocks(names.drop_last()) + future_log_block(names.last())
    }
}

/// The character views of a list of string slices.
pub open spec fn str_views(v: Seq<&str>) -> Seq<Seq<char>> {
    v.map_values(|s: &str| s@)
}

/// The Future Log: up to three month blocks per page, each with its own dot grid
/// and a hairline divider beneath.
pub struct FutureLog<'a> {
    pub months: &'a [&'a str],
}

impl FutureLog<'_> {
    /// One plain page holding a block per month.
    pub fn typst(&self) -> (r: String)
        ensures
            r@ == "#plain-page[\n"@ + future_log_blocks(str_views(self.months@)) + "]\n"@,
    {
        let mut blocks = String::new();
        let mut i: usize = 0;
        while i < self.months.len()
            invariant
                i <= self.months@.len(),
                blocks@ == future_log_blocks(str_views(self.months@).take(i as int)),
            decreases self.months@.len() - i,
        {
            push_str(
                &mut blocks,
                "#block(width: 100%, height: (page-h - toolbar-pt - margin-pt) / 3, inset: (top: 4pt), stroke: (bottom: 0.6pt + ink), spacing: 0pt, fill: dot-tile)[\n#text(font: \"Fraunces 72pt\", size: 12pt, weight: 600, fill: primary)[",
            );
            let n = esc_markup(self.months[i]);
            push_str(&mut blocks, n.as_str());
            push_str(&mut blocks, "]\n]\n");
            assert(str_views(self.months@).take(i + 1).drop_last() == str_views(self.months@).take(
                i as int,
            ));
            i = i + 1;
        }
        assert(str_views(self.months@).take(i as int) == str_views(self.months@));
        let mut out = String::new();
        push_str(&mut out, "#plain-page[\n");
        push_str(&mut out, blocks.as_str());
        push_str(&mut out, "]\n");
        out
    }
}

/// One row of the month index: a day with its weekday, week-start flag and
/// event count.
#[derive(Clone, Debug)]
pub struct DayRow {
    pub day: u32,
    pub weekday: &'static str,
    pub week_start: bool,
    pub event_count: usize,
}

/// The event-count badge of a month-index row, `badge_h` points high, or
/// nothing when the day has no events.
pub open spec fn index_badge(day: int, event_count: int, badge_h: Seq<char>) -> Seq<char> {
    if event_count > 0 {
        " #h(6pt) #cbadge("@ + decimal_nat(event_count as nat) + ", label(\"agenda-"@ + decimal_nat(day as nat)
            + "\"), h: "@ + badge_h + "pt)"@
    } else {
        Seq::empty()
    }
}

/// One row of the month index, placed `top` points down and `sp` points
/// high: the day number (in the primary colour on a week start, else the
/// accent) and weekday, linking to the day page, then the event badge.
pub open spec fn index_row(d: DayRow, top: Seq<char>, sp: Seq<char>, badge_h: Seq<char>) -> Seq<char> {
    "#place(top + left, dy: "@ + top + "pt)[#block(width: 100%, height: "@ + sp
        + "pt)[#align(horizon)[#box(fill: paper, width: 44pt)[#link(label(\"day-"@ + decimal_nat(d.day as nat)
        + "\"))[#box(width: 16pt)[#align(right)[#text(font: \"Hanken Grotesk\", size: num-fs, weight: 700, fill: "@
        + (if d.week_start { "primary"@ } else { "accent"@ }) + ")["@ + decimal_nat(d.day as nat)
        + "]]] #h(6pt) #text(font: \"Hanken Grotesk\", size: wd-fs, fill: muted)["@ + markup_escaped(d.weekday@)
        + "]]]"@ + index_badge(d.day as int, d.event_count as int, badge_h) + "]]]\n"@
}

/// The rows of the month index, each at its offset in `tops`.
pub open spec fn index_rows(days: Seq<DayRow>, tops: Seq<Seq<char>>, sp: Seq<char>, badge_h: Seq<char>) -> Seq<char>
    decreases days.len(),
{
    if days.len() == 0 || tops.len() < days.len() {
        Seq::empty()
    } else {
        let k = days.len() - 1;
        index_rows(days.drop_last(), tops.take(k), sp, badge_h) + index_row(days[k], tops[k], sp, badge_h)
    }
}

/// The month index page: the month and year over its day rows.
pub open spec fn month_index_spec(month_name: Seq<char>, year: int, days: Seq<DayRow>, tops: Seq<Seq<char>>, sp: Seq<char>, badge_h: Seq<char>) -> Seq<char> {
    "#month-page[\n#place(top + left, dy: 4pt)[#box(fill: paper, inset: (x: 4pt))[#text(font: \"Fraunces 72pt\", size: head-fs, weight: 600, fill: primary)["@
        + markup_escaped(month_name) + " "@ + decimal(year) + "]] #label(\"monthly\")]\n"@ + index_rows(days, tops, sp, badge_h)
        + "]\n"@
}

fn push_index_badge(out: &mut String, day: u32, event_count: usize, badge_h: &str)
    ensures
        final(out)@ == old(out)@ + index_badge(day as int, event_count as int, badge_h@),
{
    if event_count > 0 {
        push_str(out, " #h(6pt) #cbadge(");
        push_decimal_u64(out, event_count as u64);
        push_str(out, ", label(\"agenda-");
        push_decimal_u64(out, day as u64);
        push_str(out, "\"), h: ");
        push_str(out, badge_h);
        push_str(out, "pt)");
    }
}

#[verifier::spinoff_prover]
fn push_index_row(out: &mut String, d: &DayRow, top: &str, sp: &str, badge_h: &str)
    ensures
        final(out)@ == old(out)@ + index_row(*d, top@, sp@, badge_h@),
{
    push_str(out, "#place(top + left, dy: ");
    push_str(out, top);
    push_str(out, "pt)[#block(width: 100%, height: ");
    push_str(out, sp);
    push_str(out, "pt)[#align(horizon)[#box(fill: paper, width: 44pt)[#link(label(\"day-");
    push_decimal_u64(out, d.day as u64);
    push_str(
        out,
        "\"))[#box(width: 16pt)[#align(right)[#text(font: \"Hanken Grotesk\", size: num-fs, weight: 700, fill: ",
    );
    if d.week_start {
        push_str(out, "primary");
    } else {
        push_str(out, "accent");
    }
    push_str(out, ")[");
    push_decimal_u64(out, d.day as u64);
    push_str(out, "]]] #h(6pt) #text(font: \"Hanken Grotesk\", size: wd-fs, fill: muted)[");
    let w = esc_markup(d.weekday);
    push_str(out, w.as_str());
    push_str(out, "]]]");
    push_index_badge(out, d.day, d.event_count, badge_h);
    push_str(out, "]]]\n");
}

/// The month index page as Typst. The caller lays the rows out: `tops[i]`
/// is row `i`'s offset from the page top, `sp` the row height and `badge_h`
/// the badge height, each a number of points as text.
pub fn month_index(month_name: &str, year: i32, days: &Vec<DayRow>, tops: &Vec<String>, sp: &str, badge_h: &str) -> (r: String)
    requires
        tops@.len() == days@.len(),
    ensures
        r@ == month_index_spec(month_name@, year as int, days@, string_views(tops@), sp@, badge_h@),
{
    let mut out = String::new();
    push_str(
        &mut out,
        "#month-page[\n#place(top + left, dy: 4pt)[#box(fill: paper, inset: (x: 4pt))[#text(font: \"Fraunces 72pt\", size: head-fs, weight: 600, fill: primary)[",
    );
    let n = esc_markup(month_name);
    push_str(&mut out, n.as_str());
    push_str(&mut out, " ");
    push_decimal_i64(&mut out, year as i64);
    push_str(&mut out, "]] #label(\"monthly\")]\n");
    let ghost head = out@;
    let ghost tv = string_views(tops@);
    let mut i: usize = 0;
    while i < days.len()
        invariant
            i <= days@.len(),
            tops@.len() == days@.len(),
            tv == string_views(tops@),
            out@ == head + index_rows(days@.take(i as int), tv.take(i as int), sp@, badge_h@),
        decreases days@.len() - i,
    {
        let d = &days[i];
        proof {
            assert(days@.take(i + 1).drop_last() =~= days@.take(i as int));
            assert(tv.take(i + 1).take(i as int) =~= tv.take(i as int));
            assert(days@.take(i + 1)[i as int] == days@[i as int]);
            assert(tv.take(i + 1)[i as int] == tops@[i as int]@);
        }
        push_index_row(&mut out, d, tops[i].as_str(), sp, badge_h);
        i = i + 1;
    }
    assert(days@.take(i as int) =~= days@);
    assert(tv.take(i as int) =~= tv);
    push_str(&mut out, "]\n");
    out
}

/// One line of the bullet-journal key.
pub open spec fn legend_line(sym: Seq<char>, lbl: Seq<char>) -> Seq<char> {
    "text(weight: 600, fill: primary)["@ + markup_escaped(sym) + "], ["@ + markup_escaped(lbl)
        + "],\n"@
}

/// The second reference page: how to use the journal.
pub open spec fn using_page() -> Seq<char> {
    "#plain-page[\n#block(below: 8pt)[#text(font: \"Fraunces 72pt\", size: 14pt, weight: 600, fill: primary)[Using this journal]]\n#set par(leading: 0.55em, spacing: 0.9em)\n#strong[Start a month:] set up the day list and the Tasks page, then migrate open items forward from last month and the Future Log.\n\n#strong[End a month:] review each day and the Tasks page. Complete (×), migrate (>) unfinished tasks to next month, or schedule (<) them into the Future Log. Drop what no longer matters.\n]\n"@
}

/// The two reference pages: the symbol key, then how to use the journal.
pub open spec fn reference_spec() -> Seq<char> {
    "#plain-page[\n#block(below: 8pt)[#text(font: \"Fraunces 72pt\", size: 14pt, weight: 600, fill: primary)[Key]]\n#grid(columns: (16pt, auto), column-gutter: 0pt, row-gutter: 0.7em,\n"@
        + legend_line("•"@, "Task"@) + legend_line("×"@, "Task complete"@) + legend_line(
        ">"@,
        "Migrated"@,
    ) + legend_line("<"@, "Scheduled"@) + legend_line("○"@, "Event"@) + legend_line(
        "—"@,
        "Note"@,
    ) + legend_line("★"@, "Priority"@) + legend_line("="@, "Feeling / mood"@) + ")\n]\n"@
        + using_page()
}

fn push_legend_line(out: &mut String, sym: &str, lbl: &str)
    ensures
        final(out)@ == old(out)@ + legend_line(sym@, lbl@),
{
    push_str(out, "text(weight: 600, fill: primary)[");
    let s = esc_markup(sym);
    push_str(out, s.as_str());
    push_str(out, "], [");
    let l = esc_markup(lbl);
    push_str(out, l.as_str());
    push_str(out, "],\n");
}

/// The static reference notebook: a key of bullet-journal symbols and a short
/// how-to. Two plain pages.
pub struct Reference;

impl Reference {
    /// The key page and the how-to page.
    pub fn typst(&self) -> (r: String)
        ensures
            r@ == reference_spec(),
    {
        let mut out = String::new();
        push_str(
            &mut out,
            "#plain-page[\n#block(below: 8pt)[#text(font: \"Fraunces 72pt\", size: 14pt, weight: 600, fill: primary)[Key]]\n#grid(columns: (16pt, auto), column-gutter: 0pt, row-gutter: 0.7em,\n",
        );
        push_legend_line(&mut out, "•", "Task");
        push_legend_line(&mut out, "×", "Task complete");
        push_legend_line(&mut out, ">", "Migrated");
        push_legend_line(&mut out, "<", "Scheduled");
        push_legend_line(&mut out, "○", "Event");
        push_legend_line(&mut out, "—", "Note");
        push_legend_line(&mut out, "★", "Priority");
        push_legend_line(&mut out, "=", "Feeling / mood");
        push_str(&mut out, ")\n]\n");
        push_str(
            &mut out,
            "#plain-page[\n#block(below: 8pt)[#text(font: \"Fraunces 72pt\", size: 14pt, weight: 600, fill: primary)[Using this journal]]\n#set par(leading: 0.55em, spacing: 0.9em)\n#strong[Start a month:] set up the day list and the Tasks page, then migrate open items forward from last month and the Future Log.\n\n#strong[End a month:] review each day and the Tasks page. Complete (×), migrate (>) unfinished tasks to next month, or schedule (<) them into the Future Log. Drop what no longer matters.\n]\n",
        );
        out
    }
}

/// The red event-count badge linking to a day's events, or nothing when the
/// day has none.
pub open spec fn badge_spec(day: int, event_count: int) -> Seq<char> {
    if event_count > 0 {
        "#cbadge("@ + decimal_nat(event_count as nat) + ", label(\"agenda-"@ + decimal_nat(day as nat)
            + "\"))"@
    } else {
        Seq::empty()
    }
}

/// The day page fragment.
pub open spec fn daily_page_spec(day: int, day_pad: Seq<char>, month_num: int, weekday: Seq<char>, event_count: int) -> Seq<char> {
    "#dot-page[\n#box(width: 100%)[#link(label(\"monthly\"))[#box(fill: paper, inset: (left: 3pt, right: 3pt, top: 1pt, bottom: 2pt), stroke: (bottom: 0.75pt + primary))[#text(font: \"Fraunces 72pt\", size: 13pt, weight: 600, fill: primary)["@
        + date_label_spec(month_num, day_pad, weekday) + "]] #label(\"day-"@ + decimal_nat(
        day as nat,
    ) + "\")#h(1fr)"@ + badge_spec(day, event_count) + "]\n]\n"@
}

/// A single day page: a dot grid with a date header (link back to the month
/// index) and an optional event-count badge linking to the day's event list.
pub struct DailyPage<'a> {
    pub day: u32,
    pub day_pad: String,
    pub month_num: u32,
    pub weekday: &'a str,
    pub event_count: usize,
}

impl DailyPage<'_> {
    /// The day page.
    pub fn typst(&self) -> (r: String)
        ensures
            r@ == daily_page_spec(
                self.day as int,
                self.day_pad@,
                self.month_num as int,
                self.weekday@,
                self.event_count as int,
            ),
    {
        let mut out = String::new();
        push_str(
            &mut out,
            "#dot-page[\n#box(width: 100%)[#link(label(\"monthly\"))[#box(fill: paper, inset: (left: 3pt, right: 3pt, top: 1pt, bottom: 2pt), stroke: (bottom: 0.75pt + primary))[#text(font: \"Fraunces 72pt\", size: 13pt, weight: 600, fill: primary)[",
        );
        let date = date_label(self.month_num, self.day_pad.as_str(), self.weekday);
        push_str(&mut out, date.as_str());
        push_str(&mut out, "]] #label(\"day-");
        push_decimal_u64(&mut out, self.day as u64);
        push_str(&mut out, "\")#h(1fr)");
        if self.event_count > 0 {
            push_str(&mut out, "#cbadge(");
            push_decimal_u64(&mut out, self.event_count as u64);
            push_str(&mut out, ", label(\"agenda-");
            push_decimal_u64(&mut out, self.day as u64);
            push_str(&mut out, "\"))");
        }
        push_str(&mut out, "]\n]\n");
        out
    }
}


/// One event as the agenda shows it.
#[derive(Clone, Debug)]
pub struct AgendaEvent {
    /// Position in the day's event list (the `evt-{idx}` anchor).
    pub idx: usize,
    /// "All Day" or "HH:MM" (start).
    pub label: String,
    /// End time "HH:MM" for timed events with an end; rendered as a start–end range.
    pub end_label: Option<String>,
    pub title: String,
    pub location: Option<String>,
    pub description: Option<String>,
    pub attendees: Vec<String>,
    /// Theme color name (looked up in the preamble's `theme-col` dict).
    pub color: String,
    pub is_all_day: bool,
}

/// One calendar day that has events.
#[derive(Clone, Debug)]
pub struct AgendaDay {
    pub day: u32,
    pub weekday: &'static str,
    pub events: Vec<AgendaEvent>,
}

/// `items` joined with `sep` between consecutive items.
pub open spec fn join(items: Seq<Seq<char>>, sep: Seq<char>) -> Seq<char>
    decreases items.len(),
{
    if items.len() == 0 {
        Seq::empty()
    } else if items.len() == 1 {
        items[0]
    } else {
        join(items.drop_last(), sep) + sep + items.last()
    }
}

/// A "Where"/"Notes"/"Who" line under an event.
pub open spec fn meta_line(prefix: Seq<char>, val: Seq<char>) -> Seq<char> {
    "#linebreak()#text(font: \"Hanken Grotesk\", size: 9pt, fill: muted)["@ + prefix + ": "@
        + markup_escaped(val) + "]"@
}

/// The "Where" line of an event, when it has a location.
pub open spec fn where_line(e: AgendaEvent) -> Seq<char> {
    match e.location {
        Some(l) => meta_line("Where"@, l@),
        None => Seq::empty(),
    }
}

/// The "Notes" line of an event, when it has a description.
pub open spec fn notes_line(e: AgendaEvent) -> Seq<char> {
    match e.description {
        Some(d) => meta_line("Notes"@, d@),
        None => Seq::empty(),
    }
}

/// The "Who" line of an event, when it has attendees.
pub open spec fn who_line(e: AgendaEvent) -> Seq<char> {
    if e.attendees@.len() > 0 {
        meta_line("Who"@, join(string_views(e.attendees@), ", "@))
    } else {
        Seq::empty()
    }
}

/// The meta lines of an event: where, notes, and who, each only when present.
pub open spec fn event_meta(e: AgendaEvent) -> Seq<char> {
    where_line(e) + notes_line(e) + who_line(e)
}

/// An event's time: "All Day", "HH:MM", or "HH:MM–HH:MM" when it has an end.
pub open spec fn event_time(e: AgendaEvent) -> Seq<char> {
    match e.end_label {
        Some(end) => markup_escaped(e.label@) + "–"@ + markup_escaped(end@),
        None => markup_escaped(e.label@),
    }
}

/// One event entry of a day's events page.
pub open spec fn event_entry(e: AgendaEvent) -> Seq<char> {
    "#block(inset: (left: 8pt), above: 3pt, below: 6pt)[#text(size: 10pt, fill: ink)[#swatch(\""@
        + str_escaped(e.color@) + "\")#h(4pt)#strong["@ + event_time(e) + "]#h(0.6em)"@
        + markup_escaped(e.title@) + "]"@ + event_meta(e) + "]\n"@
}

/// The entries of `events`, in order.
pub open spec fn event_entries(events: Seq<AgendaEvent>) -> Seq<char>
    decreases events.len(),
{
    if events.len() == 0 {
        Seq::empty()
    } else {
        event_entries(events.drop_last()) + event_entry(events.last())
    }
}

/// The day-events page fragment.
pub open spec fn day_events_spec(
    month_num: int,
    day: int,
    day_pad: Seq<char>,
    weekday: Seq<char>,
    events: Seq<AgendaEvent>,
    continued: bool,
    first_page: bool,
) -> Seq<char> {
    "#plain-page[\n#block(below: 6pt)[#link(label(\"day-"@ + decimal_nat(day as nat)
        + "\"))[#text(font: \"Fraunces 72pt\", size: 16pt, weight: 600, fill: primary)["@
        + date_label_spec(month_num, day_pad, weekday) + "]]"@ + (if continued {
        " #text(font: \"Fraunces 72pt\", size: 16pt, fill: primary)[· cont.]"@
    } else {
        Seq::empty()
    }) + (if first_page {
        " #label(\"agenda-"@ + decimal_nat(day as nat) + "\")"@
    } else {
        Seq::empty()
    }) + "]\n"@ + event_entries(events) + "]\n"@
}

fn push_joined(out: &mut String, items: &Vec<String>, sep: &str)
    ensures
        final(out)@ == old(out)@ + join(string_views(items@), sep@),
{
    let mut i: usize = 0;
    let ghost start = out@;
    while i < items.len()
        invariant
            i <= items@.len(),
            out@ == start + join(string_views(items@).take(i as int), sep@),
        decreases items@.len() - i,
    {
        let ghost vs = string_views(items@).take(i + 1);
        assert(vs.drop_last() == string_views(items@).take(i as int));
        if i > 0 {
            push_str(out, sep);
        }
        push_str(out, items[i].as_str());
        i = i + 1;
    }
    assert(string_views(items@).take(i as int) == string_views(items@));
}

fn push_meta(out: &mut String, prefix: &str, val: &str)
    ensures
        final(out)@ == old(out)@ + meta_line(prefix@, val@),
{
    push_str(out, "#linebreak()#text(font: \"Hanken Grotesk\", size: 9pt, fill: muted)[");
    push_str(out, prefix);
    push_str(out, ": ");
    let v = esc_markup(val);
    push_str(out, v.as_str());
    push_str(out, "]");
}

fn push_event_meta(out: &mut String, e: &AgendaEvent)
    ensures
        final(out)@ == old(out)@ + event_meta(*e),
{
    let ghost start = out@;
    match &e.location {
        Some(loc) => push_meta(out, "Where", loc.as_str()),
        None => {},
    }
    let ghost a = out@;
    match &e.description {
        Some(d) => push_meta(out, "Notes", d.as_str()),
        None => {},
    }
    let ghost b = out@;
    if e.attendees.len() > 0 {
        let mut who = String::new();
        push_joined(&mut who, &e.attendees, ", ");
        assert(who@ == join(string_views(e.attendees@), ", "@));
        push_meta(out, "Who", who.as_str());
    }
    proof {
        assert(a == start + where_line(*e));
        assert(b == a + notes_line(*e));
        assert(out@ == b + who_line(*e));
        assert(out@ == start + (where_line(*e) + notes_line(*e) + who_line(*e)));
    }
}

fn push_event_time(out: &mut String, e: &AgendaEvent)
    ensures
        final(out)@ == old(out)@ + event_time(*e),
{
    let l = esc_markup(e.label.as_str());
    push_str(out, l.as_str());
    match &e.end_label {
        Some(end) => {
            push_str(out, "–");
            let x = esc_markup(end.as_str());
            push_str(out, x.as_str());
        },
        None => {},
    }
}

fn push_event_entry(out: &mut String, e: &AgendaEvent)
    ensures
        final(out)@ == old(out)@ + event_entry(*e),
{
    push_str(
        out,
        "#block(inset: (left: 8pt), above: 3pt, below: 6pt)[#text(size: 10pt, fill: ink)[#swatch(\"",
    );
    let c = esc_str(e.color.as_str());
    push_str(out, c.as_str());
    push_str(out, "\")#h(4pt)#strong[");
    push_event_time(out, e);
    push_str(out, "]#h(0.6em)");
    let t = esc_markup(e.title.as_str());
    push_str(out, t.as_str());
    push_str(out, "]");
    push_event_meta(out, e);
    push_str(out, "]\n");
}

/// One page of a single day's events: each event shown in full (time, title,
/// Where/Notes/Who). `events` holds only the events on THIS page; the
/// continuation/first-page flags come from the day's page plan.
pub struct DayEvents<'a> {
    pub month_num: u32,
    pub day: u32,
    pub day_pad: String,
    pub weekday: &'a str,
    /// The agenda lines on this page (each links to its details entry).
    pub agenda: &'a [AgendaEvent],
    /// The events shown in full on this page.
    pub details: &'a [AgendaEvent],
    pub show_agenda_heading: bool,
    pub show_details_heading: bool,
    pub continued: bool,
    pub first_page: bool,
}

impl DayEvents<'_> {
    /// The events page as Typst: a running date header linking back to the
    /// day page (with a continuation marker after the first page, and the
    /// agenda link target on the first), then one entry per detailed event.
    pub fn typst(&self) -> (r: String)
        ensures
            r@ == day_events_spec(
                self.month_num as int,
                self.day as int,
                self.day_pad@,
                self.weekday@,
                self.details@,
                self.continued,
                self.first_page,
            ),
    {
        let mut events = String::new();
        let mut i: usize = 0;
        while i < self.details.len()
            invariant
                i <= self.details@.len(),
                events@ == event_entries(self.details@.take(i as int)),
            decreases self.details@.len() - i,
        {
            assert(self.details@.take(i + 1).drop_last() == self.details@.take(i as int));
            push_event_entry(&mut events, &self.details[i]);
            i = i + 1;
        }
        assert(self.details@.take(i as int) == self.details@);
        let mut out = String::new();
        push_str(&mut out, "#plain-page[\n#block(below: 6pt)[#link(label(\"day-");
        push_decimal_u64(&mut out, self.day as u64);
        push_str(
            &mut out,
            "\"))[#text(font: \"Fraunces 72pt\", size: 16pt, weight: 600, fill: primary)[",
        );
        let date = date_label(self.month_num, self.day_pad.as_str(), self.weekday);
        push_str(&mut out, date.as_str());
        push_str(&mut out, "]]");
        if self.continued {
            push_str(&mut out, " #text(font: \"Fraunces 72pt\", size: 16pt, fill: primary)[· cont.]");
        }
        if self.first_page {
            push_str(&mut out, " #label(\"agenda-");
            push_decimal_u64(&mut out, self.day as u64);
            push_str(&mut out, "\")");
        }
        push_str(&mut out, "]\n");
        push_str(&mut out, events.as_str());
        push_str(&mut out, "]\n");
        out
    }
}


// ---------------------------------------------------------------------------
// HTML pages
// ---------------------------------------------------------------------------

fn push_html(out: &mut String, s: &str)
    ensures
        final(out)@ == old(out)@ + html_escaped(s@),
{
    let e = esc_html(s);
    push_str(out, e.as_str());
}

/// `"{month_num}.{day_pad} {weekday}"`, with the text parts HTML-escaped.
pub open spec fn date_label_html(month_num: int, day_pad: Seq<char>, weekday: Seq<char>) -> Seq<char> {
    decimal_nat(month_num as nat) + "."@ + html_escaped(day_pad) + " "@ + html_escaped(weekday)
}

fn push_date_label_html(out: &mut String, month_num: u32, day_pad: &str, weekday: &str)
    ensures
        final(out)@ == old(out)@ + date_label_html(month_num as int, day_pad@, weekday@),
{
    push_decimal_u64(out, month_num as u64);
    push_str(out, ".");
    push_html(out, day_pad);
    push_str(out, " ");
    push_html(out, weekday);
}

/// The cover page: the year, then the title, or a blank write-in rule.
pub open spec fn cover_html(year: int, title: Seq<char>, blank: bool) -> Seq<char> {
    "<section class=\"page\"><div class=\"cover\"><div class=\"year\">"@ + decimal(year) + "</div>"@
        + (if blank {
        "<div class=\"title-blank\"></div>"@
    } else {
        "<div class=\"title\">"@ + html_escaped(title) + "</div>"@
    }) + "</div></section>\n"@
}

impl Cover<'_> {
    /// The cover page as HTML.
    pub fn render(&self) -> (r: String)
        ensures
            r@ == cover_html(self.year as int, self.title@, self.blank_title),
    {
        let mut out = String::new();
        push_str(&mut out, "<section class=\"page\"><div class=\"cover\"><div class=\"year\">");
        push_decimal_i64(&mut out, self.year as i64);
        push_str(&mut out, "</div>");
        if self.blank_title {
            push_str(&mut out, "<div class=\"title-blank\"></div>");
        } else {
            push_str(&mut out, "<div class=\"title\">");
            push_html(&mut out, self.title);
            push_str(&mut out, "</div>");
        }
        push_str(&mut out, "</div></section>\n");
        out
    }
}

impl DotGrid {
    /// A page with nothing but the dot grid, as HTML.
    pub fn render(&self) -> (r: String)
        ensures
            r@ == "<section class=\"page dotpage\"></section>\n"@,
    {
        String::from_str("<section class=\"page dotpage\"></section>\n")
    }
}

impl Tasks {
    /// The Tasks heading on a dot-grid page, as HTML.
    pub fn render(&self) -> (r: String)
        ensures
            r@ == "<section class=\"page dotpage\"><div class=\"h-section\">Tasks</div></section>\n"@,
    {
        String::from_str("<section class=\"page dotpage\"><div class=\"h-section\">Tasks</div></section>\n")
    }
}

/// One Future Log month block, as HTML.
pub open spec fn fl_block_html(name: Seq<char>) -> Seq<char> {
    "<div class=\"fl-block\"><div class=\"h-month\">"@ + html_escaped(name) + "</div></div>"@
}

/// The month blocks for `names`, in order, as HTML.
pub open spec fn fl_blocks_html(names: Seq<Seq<char>>) -> Seq<char>
    decreases names.len(),
{
    if names.len() == 0 {
        Seq::empty()
    } else {
        fl_blocks_html(names.drop_last()) + fl_block_html(names.last())
    }
}

/// The Future Log pages for `names`: three month blocks to a page, the last
/// page holding what is left.
pub open spec fn fl_pages_html(names: Seq<Seq<char>>) -> Seq<char>
    decreases names.len(),
{
    if names.len() == 0 {
        Seq::empty()
    } else {
        let n: int = if names.len() < 3 { names.len() as int } else { 3 };
        "<section class=\"page\">"@ + fl_blocks_html(names.take(n)) + "</section>\n"@ + fl_pages_html(names.skip(n))
    }
}

impl FutureLog<'_> {
    /// The Future Log as HTML pages of up to three month blocks each.
    pub fn render(&self) -> (r: String)
        ensures
            r@ == fl_pages_html(str_views(self.months@)),
    {
        let ghost all = str_views(self.months@);
        let mut out = String::new();
        let mut i: usize = 0;
        assert(all.skip(0) =~= all);
        assert(out@ + fl_pages_html(all) =~= fl_pages_html(all));
        while i < self.months.len()
            invariant
                i <= self.months@.len(),
                all == str_views(self.months@),
                out@ + fl_pages_html(all.skip(i as int)) == fl_pages_html(all),
            decreases self.months@.len() - i,
        {
            let end: usize = if self.months.len() - i < 3 { self.months.len() } else { i + 3 };
            let ghost rest = all.skip(i as int);
            let ghost n: int = (end - i) as int;
            let mut page = String::new();
            push_str(&mut page, "<section class=\"page\">");
            let ghost head = page@;
            let mut j: usize = i;
            while j < end
                invariant
                    i <= j <= end <= self.months@.len(),
                    all == str_views(self.months@),
                    page@ == head + fl_blocks_html(all.subrange(i as int, j as int)),
                decreases end - j,
            {
                assert(all.subrange(i as int, j + 1).drop_last() == all.subrange(i as int, j as int));
                push_str(&mut page, "<div class=\"fl-block\"><div class=\"h-month\">");
                push_html(&mut page, self.months[j]);
                push_str(&mut page, "</div></div>");
                j = j + 1;
            }
            push_str(&mut page, "</section>\n");
            proof {
                assert(rest.take(n) == all.subrange(i as int, end as int));
                assert(rest.skip(n) == all.skip(end as int));
                assert(fl_pages_html(rest) == page@ + fl_pages_html(all.skip(end as int)));
            }
            let ghost before = out@;
            push_str(&mut out, page.as_str());
            assert(out@ + fl_pages_html(all.skip(end as int)) == before + (page@ + fl_pages_html(all.skip(end as int))));
            i = end;
        }
        assert(all.skip(i as int) =~= Seq::<Seq<char>>::empty());
        assert(out@ + Seq::<char>::empty() == out@);
        out
    }
}

/// One line of the bullet-journal key, as HTML.
pub open spec fn legend_html(sym: Seq<char>, lbl: Seq<char>) -> Seq<char> {
    "<div><span class=\"sym\">"@ + html_escaped(sym) + "</span>"@ + html_escaped(lbl) + "</div>"@
}

fn push_legend_html(out: &mut String, sym: &str, lbl: &str)
    ensures
        final(out)@ == old(out)@ + legend_html(sym@, lbl@),
{
    push_str(out, "<div><span class=\"sym\">");
    push_html(out, sym);
    push_str(out, "</span>");
    push_html(out, lbl);
    push_str(out, "</div>");
}

/// The how-to page, as HTML.
pub open spec fn using_page_html() -> Seq<char> {
    "<section class=\"page\"><div class=\"h-section\">Using this journal</div><p><b>Start a month:</b> set up the day list and the Tasks page, then migrate open items forward from last month and the Future Log.</p><p><b>End a month:</b> review each day and the Tasks page. Complete (×), migrate (&gt;) unfinished tasks to next month, or schedule (&lt;) them into the Future Log. Drop what no longer matters.</p></section>\n"@
}

/// The two reference pages, as HTML: the symbol key, then the how-to.
pub open spec fn reference_html() -> Seq<char> {
    "<section class=\"page\"><div class=\"h-section\">Key</div><div class=\"legend\">"@
        + legend_html("•"@, "Task"@) + legend_html("×"@, "Task complete"@) + legend_html(">"@, "Migrated"@)
        + legend_html("<"@, "Scheduled"@) + legend_html("○"@, "Event"@) + legend_html("—"@, "Note"@)
        + legend_html("★"@, "Priority"@) + legend_html("="@, "Feeling / mood"@) + "</div></section>\n"@
        + using_page_html()
}

impl Reference {
    /// The key page and the how-to page, as HTML.
    pub fn render(&self) -> (r: String)
        ensures
            r@ == reference_html(),
    {
        let mut out = String::new();
        push_str(&mut out, "<section class=\"page\"><div class=\"h-section\">Key</div><div class=\"legend\">");
        push_legend_html(&mut out, "•", "Task");
        push_legend_html(&mut out, "×", "Task complete");
        push_legend_html(&mut out, ">", "Migrated");
        push_legend_html(&mut out, "<", "Scheduled");
        push_legend_html(&mut out, "○", "Event");
        push_legend_html(&mut out, "—", "Note");
        push_legend_html(&mut out, "★", "Priority");
        push_legend_html(&mut out, "=", "Feeling / mood");
        push_str(&mut out, "</div></section>\n");
        push_str(
            &mut out,
            "<section class=\"page\"><div class=\"h-section\">Using this journal</div><p><b>Start a month:</b> set up the day list and the Tasks page, then migrate open items forward from last month and the Future Log.</p><p><b>End a month:</b> review each day and the Tasks page. Complete (×), migrate (&gt;) unfinished tasks to next month, or schedule (&lt;) them into the Future Log. Drop what no longer matters.</p></section>\n",
        );
        out
    }
}

/// The day page, as HTML: the date header linking back to the month index,
/// and the event-count pill linking to the day's events when it has any.
pub open spec fn daily_page_html(day: int, day_pad: Seq<char>, month_num: int, weekday: Seq<char>, event_count: int) -> Seq<char> {
    "<section class=\"page dotpage\" id=\"day-"@ + decimal_nat(day as nat) + "\"><a class=\"h-day\" href=\"#monthly\">"@
        + date_label_html(month_num, day_pad, weekday) + "</a>"@ + (if event_count > 0 {
        "<a class=\"pill\" href=\"#agenda-"@ + decimal_nat(day as nat) + "\">"@ + decimal_nat(event_count as nat) + "</a>"@
    } else {
        Seq::empty()
    }) + "</section>\n"@
}

impl DailyPage<'_> {
    /// The day page as HTML.
    pub fn render(&self) -> (r: String)
        ensures
            r@ == daily_page_html(
                self.day as int,
                self.day_pad@,
                self.month_num as int,
                self.weekday@,
                self.event_count as int,
            ),
    {
        let mut out = String::new();
        push_str(&mut out, "<section class=\"page dotpage\" id=\"day-");
        push_decimal_u64(&mut out, self.day as u64);
        push_str(&mut out, "\"><a class=\"h-day\" href=\"#monthly\">");
        push_date_label_html(&mut out, self.month_num, self.day_pad.as_str(), self.weekday);
        push_str(&mut out, "</a>");
        if self.event_count > 0 {
            push_str(&mut out, "<a class=\"pill\" href=\"#agenda-");
            push_decimal_u64(&mut out, self.day as u64);
            push_str(&mut out, "\">");
            push_decimal_u64(&mut out, self.event_count as u64);
            push_str(&mut out, "</a>");
        }
        push_str(&mut out, "</section>\n");
        out
    }
}

/// An event's colour swatch, as HTML.
pub open spec fn swatch_html(color: Seq<char>) -> Seq<char> {
    "<span class=\"swatch\" style=\"background: var(--"@ + html_escaped(color) + ")\"></span>"@
}

/// One agenda line: the event's swatch, start and title, linking to its
/// details entry.
pub open spec fn agenda_line_html(e: AgendaEvent) -> Seq<char> {
    "<a class=\"agenda-line\" href=\"#evt-"@ + decimal_nat(e.idx as nat) + "\">"@ + swatch_html(e.color@)
        + html_escaped(e.label@) + " "@ + html_escaped(e.title@) + "</a>"@
}

/// The agenda lines of `events`, in order.
pub open spec fn agenda_lines_html(events: Seq<AgendaEvent>) -> Seq<char>
    decreases events.len(),
{
    if events.len() == 0 {
        Seq::empty()
    } else {
        agenda_lines_html(events.drop_last()) + agenda_line_html(events.last())
    }
}

/// A "Where"/"Notes"/"Who" line under a detailed event, as HTML.
pub open spec fn meta_html(prefix: Seq<char>, val: Seq<char>) -> Seq<char> {
    "<div class=\"meta\">"@ + prefix + ": "@ + html_escaped(val) + "</div>"@
}

/// The meta lines of an event, as HTML: where, notes and who, each only
/// when present.
pub open spec fn event_meta_html(e: AgendaEvent) -> Seq<char> {
    where_html(e) + notes_html(e) + who_html(e)
}

/// The "Where" line of an event, as HTML, when it has a location.
pub open spec fn where_html(e: AgendaEvent) -> Seq<char> {
    match e.location {
        Some(l) => meta_html("Where"@, l@),
        None => Seq::empty(),
    }
}

/// The "Notes" line of an event, as HTML, when it has a description.
pub open spec fn notes_html(e: AgendaEvent) -> Seq<char> {
    match e.description {
        Some(d) => meta_html("Notes"@, d@),
        None => Seq::empty(),
    }
}

/// The "Who" line of an event, as HTML, when it has attendees.
pub open spec fn who_html(e: AgendaEvent) -> Seq<char> {
    if e.attendees@.len() > 0 {
        meta_html("Who"@, join(string_views(e.attendees@), ", "@))
    } else {
        Seq::empty()
    }
}

/// An event's time, as HTML: the start, then an en dash and the end when it
/// has one.
pub open spec fn event_time_html(e: AgendaEvent) -> Seq<char> {
    match e.end_label {
        Some(end) => html_escaped(e.label@) + "&#8211;"@ + html_escaped(end@),
        None => html_escaped(e.label@),
    }
}

/// One detailed event entry, the target of its agenda line.
pub open spec fn detail_html(e: AgendaEvent) -> Seq<char> {
    "<div class=\"event\" id=\"evt-"@ + decimal_nat(e.idx as nat) + "\">"@ + swatch_html(e.color@) + "<b>"@
        + event_time_html(e) + "</b> "@ + html_escaped(e.title@) + event_meta_html(e) + "</div>"@
}

/// The detailed entries of `events`, in order.
pub open spec fn details_html(events: Seq<AgendaEvent>) -> Seq<char>
    decreases events.len(),
{
    if events.len() == 0 {
        Seq::empty()
    } else {
        details_html(events.drop_last()) + detail_html(events.last())
    }
}

/// The day-events page, as HTML: the running date header linking back to
/// the day page (the agenda link target on the first page, a continuation
/// marker after it), then the agenda lines and the detailed entries, each
/// list under its heading when asked for.
pub open spec fn day_events_html(
    month_num: int,
    day: int,
    day_pad: Seq<char>,
    weekday: Seq<char>,
    agenda: Seq<AgendaEvent>,
    details: Seq<AgendaEvent>,
    show_agenda_heading: bool,
    show_details_heading: bool,
    continued: bool,
    first_page: bool,
) -> Seq<char> {
    day_events_head_html(month_num, day, day_pad, weekday, continued, first_page) + (if show_agenda_heading {
        "<div class=\"h-section\">Agenda</div>"@
    } else {
        Seq::empty()
    }) + agenda_lines_html(agenda) + (if show_details_heading {
        "<div class=\"h-section\">Details</div>"@
    } else {
        Seq::empty()
    }) + details_html(details) + "</section>\n"@
}

/// The opening of a day-events page, as HTML, through its date header.
pub open spec fn day_events_head_html(
    month_num: int,
    day: int,
    day_pad: Seq<char>,
    weekday: Seq<char>,
    continued: bool,
    first_page: bool,
) -> Seq<char> {
    "<section class=\"page\"><div class=\"h-day\""@ + (if first_page {
        " id=\"agenda-"@ + decimal_nat(day as nat) + "\""@
    } else {
        Seq::empty()
    }) + "><a href=\"#day-"@ + decimal_nat(day as nat) + "\">"@ + date_label_html(month_num, day_pad, weekday)
        + "</a>"@ + (if continued {
        " <span class=\"cont\">cont.</span>"@
    } else {
        Seq::empty()
    }) + "</div>"@
}

fn push_swatch_html(out: &mut String, color: &str)
    ensures
        final(out)@ == old(out)@ + swatch_html(color@),
{
    push_str(out, "<span class=\"swatch\" style=\"background: var(--");
    push_html(out, color);
    push_str(out, ")\"></span>");
}

fn push_meta_html(out: &mut String, prefix: &str, val: &str)
    ensures
        final(out)@ == old(out)@ + meta_html(prefix@, val@),
{
    push_str(out, "<div class=\"meta\">");
    push_str(out, prefix);
    push_str(out, ": ");
    push_html(out, val);
    push_str(out, "</div>");
}

fn push_event_meta_html(out: &mut String, e: &AgendaEvent)
    ensures
        final(out)@ == old(out)@ + event_meta_html(*e),
{
    let ghost start = out@;
    match &e.location {
        Some(loc) => push_meta_html(out, "Where", loc.as_str()),
        None => {},
    }
    let ghost a = out@;
    match &e.description {
        Some(d) => push_meta_html(out, "Notes", d.as_str()),
        None => {},
    }
    let ghost b = out@;
    if e.attendees.len() > 0 {
        let mut who = String::new();
        push_joined(&mut who, &e.attendees, ", ");
        assert(who@ == join(string_views(e.attendees@), ", "@));
        push_meta_html(out, "Who", who.as_str());
    }
    proof {
        assert(a == start + where_html(*e));
        assert(b == a + notes_html(*e));
        assert(out@ == b + who_html(*e));
        assert(out@ == start + (where_html(*e) + notes_html(*e) + who_html(*e)));
    }
}

fn push_event_time_html(out: &mut String, e: &AgendaEvent)
    ensures
        final(out)@ == old(out)@ + event_time_html(*e),
{
    push_html(out, e.label.as_str());
    match &e.end_label {
        Some(end) => {
            push_str(out, "&#8211;");
            push_html(out, end.as_str());
        },
        None => {},
    }
}

fn push_detail_html(out: &mut String, e: &AgendaEvent)
    ensures
        final(out)@ == old(out)@ + detail_html(*e),
{
    push_str(out, "<div class=\"event\" id=\"evt-");
    push_decimal_u64(out, e.idx as u64);
    push_str(out, "\">");
    push_swatch_html(out, e.color.as_str());
    push_str(out, "<b>");
    push_event_time_html(out, e);
    push_str(out, "</b> ");
    push_html(out, e.title.as_str());
    push_event_meta_html(out, e);
    push_str(out, "</div>");
}

fn push_day_events_head(out: &mut String, month_num: u32, day: u32, day_pad: &str, weekday: &str, continued: bool, first_page: bool)
    ensures
        final(out)@ == old(out)@ + day_events_head_html(month_num as int, day as int, day_pad@, weekday@, continued, first_page),
{
    let ghost start = out@;
    push_str(out, "<section class=\"page\"><div class=\"h-day\"");
    let ghost a = out@;
    if first_page {
        push_str(out, " id=\"agenda-");
        push_decimal_u64(out, day as u64);
        push_str(out, "\"");
    }
    let ghost b = out@;
    push_str(out, "><a href=\"#day-");
    push_decimal_u64(out, day as u64);
    push_str(out, "\">");
    push_date_label_html(out, month_num, day_pad, weekday);
    push_str(out, "</a>");
    let ghost c = out@;
    if continued {
        push_str(out, " <span class=\"cont\">cont.</span>");
    }
    let ghost d = out@;
    push_str(out, "</div>");
    proof {
        let fp = if first_page { " id=\"agenda-"@ + decimal_nat(day as nat) + "\""@ } else { Seq::<char>::empty() };
        let ct = if continued { " <span class=\"cont\">cont.</span>"@ } else { Seq::<char>::empty() };
        let mid = "><a href=\"#day-"@ + decimal_nat(day as nat) + "\">"@ + date_label_html(month_num as int, day_pad@, weekday@) + "</a>"@;
        assert(b == a + fp);
        assert(c == b + mid);
        assert(d == c + ct);
        assert(out@ == start + ("<section class=\"page\"><div class=\"h-day\""@ + fp + mid + ct + "</div>"@));
    }
}

fn push_agenda_lines_html(out: &mut String, agenda: &[AgendaEvent])
    ensures
        final(out)@ == old(out)@ + agenda_lines_html(agenda@),
{
    let ghost a0 = out@;
    let mut i: usize = 0;
    while i < agenda.len()
        invariant
            i <= agenda@.len(),
            out@ == a0 + agenda_lines_html(agenda@.take(i as int)),
        decreases agenda@.len() - i,
    {
        assert(agenda@.take(i + 1).drop_last() == agenda@.take(i as int));
        let e = &agenda[i];
        push_str(out, "<a class=\"agenda-line\" href=\"#evt-");
        push_decimal_u64(out, e.idx as u64);
        push_str(out, "\">");
        push_swatch_html(out, e.color.as_str());
        push_html(out, e.label.as_str());
        push_str(out, " ");
        push_html(out, e.title.as_str());
        push_str(out, "</a>");
        i = i + 1;
    }
    assert(agenda@.take(i as int) == agenda@);
}

fn push_details_html(out: &mut String, details: &[AgendaEvent])
    ensures
        final(out)@ == old(out)@ + details_html(details@),
{
    let ghost d0 = out@;
    let mut k: usize = 0;
    while k < details.len()
        invariant
            k <= details@.len(),
            out@ == d0 + details_html(details@.take(k as int)),
        decreases details@.len() - k,
    {
        assert(details@.take(k + 1).drop_last() == details@.take(k as int));
        push_detail_html(out, &details[k]);
        k = k + 1;
    }
    assert(details@.take(k as int) == details@);
}

impl DayEvents<'_> {
    /// The events page as HTML.
    pub fn render(&self) -> (r: String)
        ensures
            r@ == day_events_html(
                self.month_num as int,
                self.day as int,
                self.day_pad@,
                self.weekday@,
                self.agenda@,
                self.details@,
                self.show_agenda_heading,
                self.show_details_heading,
                self.continued,
                self.first_page,
            ),
    {
        let mut out = String::new();
        push_day_events_head(&mut out, self.month_num, self.day, self.day_pad.as_str(), self.weekday, self.continued, self.first_page);
        if self.show_agenda_heading {
            push_str(&mut out, "<div class=\"h-section\">Agenda</div>");
        }
        push_agenda_lines_html(&mut out, self.agenda);
        if self.show_details_heading {
            push_str(&mut out, "<div class=\"h-section\">Details</div>");
        }
        push_details_html(&mut out, self.details);
        push_str(&mut out, "</section>\n");
        out
    }
}

} // verus!
