use rmbujo::calendar::{build_month, build_year, days_in_month, name_of_month, CalendarError, MONTH_NAMES};

#[test]
fn may_2026_basics() {
    let m = build_month(2026, 5, "sun").unwrap();
    assert_eq!(m.name, "May");
    assert_eq!(m.days.len(), 31);
    assert_eq!(m.days[17].day, 18);
    assert_eq!(m.days[17].weekday, "Mon");
}

#[test]
fn february_leap() {
    assert_eq!(build_month(2024, 2, "sun").unwrap().days.len(), 29);
    assert_eq!(build_month(2026, 2, "sun").unwrap().days.len(), 28);
}

#[test]
fn week_start_sunday() {
    let m = build_month(2026, 5, "sun").unwrap();
    let starts: Vec<u32> = m
        .days
        .iter()
        .filter(|d| d.week_start)
        .map(|d| d.day)
        .collect();
    assert_eq!(starts, vec![3, 10, 17, 24, 31]);
}

#[test]
fn week_start_monday() {
    let m = build_month(2026, 5, "mon").unwrap();
    let starts: Vec<u32> = m
        .days
        .iter()
        .filter(|d| d.week_start)
        .map(|d| d.day)
        .collect();
    assert_eq!(starts, vec![4, 11, 18, 25]);
}

#[test]
fn year_has_12_months() {
    let y = build_year(2026, "sun").unwrap();
    assert_eq!(y.len(), 12);
    assert_eq!(MONTH_NAMES[5], "May");
}

#[test]
fn bad_week_start_errors() {
    assert!(build_month(2026, 5, "xyz").is_err());
}

#[test]
fn days_in_month_counts() {
    assert_eq!(days_in_month(2026, 2), 28);
    assert_eq!(days_in_month(2024, 2), 29);
    assert_eq!(days_in_month(2026, 5), 31);
}

#[test]
fn bad_week_start_carries_the_value() {
    match build_month(2026, 5, "tue") {
        Err(CalendarError::BadWeekStart(s)) => assert_eq!(s, "tue"),
        other => panic!("unexpected {other:?}"),
    }
    assert!(build_year(2026, "").is_err());
}

#[test]
fn century_years_follow_the_gregorian_rule() {
    assert_eq!(days_in_month(1900, 2), 28);
    assert_eq!(days_in_month(2000, 2), 29);
    assert_eq!(days_in_month(2100, 2), 28);
    assert_eq!(days_in_month(2026, 12), 31);
    assert_eq!(days_in_month(2026, 4), 30);
}

#[test]
fn weekdays_run_on_across_months() {
    // April 30 2026 is a Thursday, so May 1 is a Friday.
    let y = build_year(2026, "mon").unwrap();
    assert_eq!(y[3].days.last().unwrap().weekday, "Thu");
    assert_eq!(y[4].days[0].weekday, "Fri");
    // Dec 31 2026 is a Thursday; Jan 1 2027 a Friday.
    assert_eq!(y[11].days[30].weekday, "Thu");
    let next = build_month(2027, 1, "mon").unwrap();
    assert_eq!(next.days[0].weekday, "Fri");
    // The 1st never starts a week, even when it falls on the week start.
    let june = build_month(2026, 6, "mon").unwrap();
    assert_eq!(june.days[0].weekday, "Mon");
    assert!(!june.days[0].week_start);
    assert!(june.days[7].week_start);
}

#[test]
fn month_names_in_order() {
    assert_eq!(name_of_month(1), "January");
    assert_eq!(name_of_month(12), "December");
    let y = build_year(2027, "sun").unwrap();
    for (i, m) in y.iter().enumerate() {
        assert_eq!(m.month as usize, i + 1);
        assert_eq!(m.name, MONTH_NAMES[i + 1]);
    }
}
