use rmbujo::render::doc::{esc_html, esc_markup, esc_str, theme_bindings, Palette};
use rmbujo::templates::{month_index, AgendaEvent, Cover, DailyPage, DayEvents, DayRow, DotGrid, FutureLog, Reference, Tasks};

#[test]
fn cover_blank_vs_titled() {
    let blank = Cover {
        year: 2026,
        title: "",
        blank_title: true,
    }
    .render();
    assert!(blank.contains("title-blank"));
    assert!(!blank.contains("class=\"title\""));
    let titled = Cover {
        year: 2026,
        title: "Reference",
        blank_title: false,
    }
    .render();
    assert!(titled.contains("Reference"));
}

#[test]
fn tasks_uses_dot_page() {
    let html = Tasks.render();
    // Background dot grid (renders reliably even as a single page), not the old
    // absolutely-positioned overlay that collapsed when rendered in isolation.
    assert!(html.contains("dotpage"));
    assert!(!html.contains("dotgrid--below"));
    assert!(html.contains("Tasks"));
}

#[test]
fn future_log_blocks() {
    let html = FutureLog {
        months: &["January", "February", "March"],
    }
    .render();
    assert_eq!(html.matches("fl-block").count(), 3);
    assert!(html.contains("February"));
}

#[test]
fn reference_legend() {
    let html = Reference.render();
    assert!(html.contains("Feeling / mood"));
    assert_eq!(html.matches("class=\"page\"").count(), 2);
}

fn sample_day_events() -> Vec<AgendaEvent> {
    vec![
        AgendaEvent {
            idx: 0,
            label: "09:00".into(),
            end_label: Some("10:00".into()),
            title: "Standup".into(),
            location: Some("Zoom".into()),
            description: None,
            attendees: vec![],
            color: "accent".into(),
            is_all_day: false,
        },
        AgendaEvent {
            idx: 1,
            label: "12:00".into(),
            end_label: None,
            title: "Lunch".into(),
            location: None,
            description: None,
            attendees: vec!["Sam".into()],
            color: "rust".into(),
            is_all_day: false,
        },
    ]
}

#[test]
fn day_events_first_page_anchor_and_links() {
    let evs = sample_day_events();
    let html = DayEvents {
        month_num: 5,
        day: 5,
        day_pad: "05".into(),
        weekday: "Wed",
        agenda: &evs,
        details: &evs,
        show_agenda_heading: true,
        show_details_heading: true,
        continued: false,
        first_page: true,
    }
    .render();
    assert!(
        html.contains("id=\"agenda-5\""),
        "pill target on first page"
    );
    assert!(
        html.contains("href=\"#day-5\""),
        "header links to daily page"
    );
    assert_eq!(
        html.matches("href=\"#evt-").count(),
        2,
        "agenda lines link to details"
    );
    assert!(html.contains("id=\"evt-0\"") && html.contains("id=\"evt-1\""));
    assert!(html.contains(">Agenda<") && html.contains(">Details<"));
    assert_eq!(
        html.matches("class=\"swatch\"").count(),
        4,
        "2 agenda + 2 detail swatches"
    );
    assert!(html.contains("var(--accent)"));
    assert!(
        html.contains("09:00&#8211;10:00"),
        "details show start-end range"
    );
    // Empty fields omitted; only the populated meta lines render.
    assert!(html.contains("Where: Zoom"));
    assert!(html.contains("Who: Sam"));
    assert_eq!(html.matches("Notes:").count(), 0);
}

#[test]
fn day_events_continuation_omits_anchor_and_headings() {
    let evs = sample_day_events();
    let html = DayEvents {
        month_num: 5,
        day: 5,
        day_pad: "05".into(),
        weekday: "Wed",
        agenda: &[],
        details: &evs,
        show_agenda_heading: false,
        show_details_heading: false,
        continued: true,
        first_page: false,
    }
    .render();
    assert!(
        !html.contains("id=\"agenda-5\""),
        "anchor only on first page"
    );
    assert!(html.contains("cont."), "continuation marker");
    assert!(!html.contains(">Agenda<") && !html.contains(">Details<"));
    assert!(
        html.contains("href=\"#day-5\""),
        "running header still links to daily page"
    );
}

#[test]
fn typst_cover_and_dot_pages() {
    let blank = Cover { year: 2026, title: "", blank_title: true }.typst();
    assert!(blank.contains("#box(width: 70%"));
    assert!(!blank.contains("size: 24pt"));
    assert!(blank.contains("[2026]"));
    assert!(Tasks.typst().starts_with("#dot-page["));
    assert_eq!(DotGrid.typst(), "#dot-page[]\n");
    assert_eq!(DotGrid.render(), "<section class=\"page dotpage\"></section>\n");
}

#[test]
fn typst_future_log_and_reference() {
    let page = FutureLog { months: &["January", "February", "March"] }.typst();
    assert_eq!(page.matches("#block(width: 100%, height:").count(), 3);
    assert!(page.starts_with("#plain-page[\n"));
    assert_eq!(Reference.typst().matches("#plain-page[").count(), 2);
}

#[test]
fn future_log_html_puts_three_months_to_a_page() {
    let months = ["January", "February", "March", "April", "May"];
    let html = FutureLog { months: &months }.render();
    assert_eq!(html.matches("<section class=\"page\">").count(), 2);
    assert_eq!(html.matches("fl-block").count(), 5);
    let second = html.split("<section class=\"page\">").nth(2).unwrap();
    assert!(second.contains("April") && second.contains("May") && !second.contains("March"));
}

#[test]
fn typst_day_events_page() {
    let evs = sample_day_events();
    let page = DayEvents {
        month_num: 5,
        day: 5,
        day_pad: "05".into(),
        weekday: "Wed",
        agenda: &[],
        details: &evs,
        show_agenda_heading: false,
        show_details_heading: false,
        continued: false,
        first_page: true,
    }
    .typst();
    assert!(page.contains("#label(\"agenda-5\")"));
    assert!(page.contains("#link(label(\"day-5\"))"));
    assert_eq!(page.matches("#swatch(").count(), 2);
    assert!(page.contains("09:00–10:00"));
    assert!(page.contains("Where: Zoom") && page.contains("Who: Sam"));
    assert!(page.contains("5.05 Wed"));
}

#[test]
fn daily_page_badge_only_with_events() {
    let quiet = DailyPage { day: 7, day_pad: "07".into(), month_num: 3, weekday: "Sun", event_count: 0 };
    assert!(!quiet.typst().contains("cbadge"));
    assert!(quiet.typst().contains("#label(\"day-7\")"));
    assert!(!quiet.render().contains("pill"));
    assert!(quiet.render().contains("id=\"day-7\""));
    let busy = DailyPage { day: 7, day_pad: "07".into(), month_num: 3, weekday: "Sun", event_count: 12 };
    assert!(busy.typst().contains("#cbadge(12, label(\"agenda-7\"))"));
    assert!(busy.render().contains("<a class=\"pill\" href=\"#agenda-7\">12</a>"));
    assert!(busy.render().contains("3.07 Sun"));
}

#[test]
fn html_escapes_text() {
    assert_eq!(esc_html("a<b & \"c\" 'd'>"), "a&lt;b &amp; &quot;c&quot; &#39;d&#39;&gt;");
    let t = Cover { year: 2027, title: "Q&A <draft>", blank_title: false }.render();
    assert!(t.contains("Q&amp;A &lt;draft&gt;"));
}

#[test]
fn markup_and_string_escapes() {
    assert_eq!(esc_markup("a*b_c#d"), "a\\*b\\_c\\#d");
    assert_eq!(esc_markup("plain text"), "plain text");
    assert_eq!(esc_str("say \"hi\"\\"), "say \\\"hi\\\"\\\\");
    let t = Cover { year: 2027, title: "Q&A [draft]", blank_title: false }.typst();
    assert!(t.contains("Q&A \\[draft\\]"));
}

#[test]
fn theme_colours_fall_back_to_library_defaults() {
    let theme = Palette {
        entries: vec![
            ("brick".to_string(), "#9c3b2e".to_string()),
            ("primary".to_string(), "#111111".to_string()),
        ],
    };
    let b = theme_bindings(&theme);
    assert!(b.starts_with(
        "#let theme-col = (\"brick\": rgb(\"#9c3b2e\"), \"primary\": rgb(\"#111111\"), )\n"
    ));
    assert!(b.contains("#let primary = rgb(\"#111111\")\n"));
    assert!(b.contains("#let paper = rgb(\"#F3F1EA\")\n"));
    assert!(b.ends_with("#let cover-to = rgb(\"#1A1E48\")\n"));
    assert_eq!(b.lines().count(), 10);
}

#[test]
fn month_index_links_days_and_badges_busy_ones() {
    let days: Vec<DayRow> = (1..=31)
        .map(|day| DayRow { day, weekday: "Mon", week_start: day == 3, event_count: if day == 18 { 2 } else { 0 } })
        .collect();
    let tops: Vec<String> = (0..31).map(|i| format!("{}", i * 10)).collect();
    let page = month_index("May", 2027, &days, &tops, "10", "7.5");
    assert_eq!(page.matches("#link(label(\"day-").count(), 31);
    assert!(page.contains("#label(\"monthly\")"));
    assert!(page.contains("[May 2027]"));
    assert_eq!(page.matches("#cbadge(").count(), 1);
    assert!(page.contains("#cbadge(2, label(\"agenda-18\"), h: 7.5pt)"));
    assert!(page.contains("dy: 170pt)"));
    assert!(page.contains("fill: primary)[3]"));
    assert!(page.contains("fill: accent)[4]"));
}
