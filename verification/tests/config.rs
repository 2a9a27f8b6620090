use rmbujo::config::{
    default_backend, default_collection, default_device, default_pages_per_day, default_theme,
    default_week_start, validate_settings, ConfigError, DeployConfig, IcsFeed,
};
use rmbujo::render::doc::{color, hex, Palette};

fn theme() -> Palette {
    Palette {
        entries: vec![
            ("primary".to_string(), "#2b2d6e".to_string()),
            ("brick".to_string(), "#9c3b2e".to_string()),
        ],
    }
}

fn feed(name: &str, color: Option<&str>) -> IcsFeed {
    IcsFeed {
        name: name.into(),
        url: "https://x/h.ics".into(),
        color: color.map(|c| c.into()),
    }
}

#[test]
fn defaults_match_the_documented_values() {
    assert_eq!(default_device(), "paper-pro-move");
    assert_eq!(default_week_start(), "sun");
    assert_eq!(default_collection(), 20);
    assert_eq!(default_theme(), "library");
    assert_eq!(default_pages_per_day(), 1);
    assert_eq!(default_backend(), "none");
    let d = DeployConfig::default();
    assert_eq!(d.backend, "none");
    assert_eq!(d.base_folder, "");
}

#[test]
fn settings_accept_defaults() {
    let r = validate_settings("sun", "none", true, 1, "America/Toronto", &[], &theme());
    assert_eq!(r, Ok(()));
    let r = validate_settings("mon", "rmapi", true, 3, "UTC", &[feed("H", Some("brick")), feed("W", None)], &theme());
    assert_eq!(r, Ok(()));
}

#[test]
fn settings_reject_each_bad_field_in_order() {
    assert_eq!(
        validate_settings("xyz", "ftp", false, 0, "Nowhere", &[], &theme()),
        Err(ConfigError::BadWeekStart("xyz".into()))
    );
    assert_eq!(
        validate_settings("sun", "ftp", false, 0, "Nowhere", &[], &theme()),
        Err(ConfigError::BadBackend("ftp".into()))
    );
    assert_eq!(
        validate_settings("sun", "none", false, 0, "Nowhere", &[], &theme()),
        Err(ConfigError::SpacingOutOfRange)
    );
    assert_eq!(
        validate_settings("sun", "none", true, 0, "Nowhere", &[], &theme()),
        Err(ConfigError::ZeroPagesPerDay)
    );
    assert_eq!(
        validate_settings("sun", "none", true, 1, "Nowhere", &[], &theme()),
        Err(ConfigError::UnknownTimezone("Nowhere".into()))
    );
    assert_eq!(
        validate_settings(
            "sun",
            "none",
            true,
            1,
            "UTC",
            &[feed("A", Some("brick")), feed("B", Some("teal")), feed("C", Some("mauve"))],
            &theme()
        ),
        Err(ConfigError::UnknownFeedColor("B".into(), "teal".into()))
    );
}

#[test]
fn feed_colors_cycle_through_the_palette() {
    let f = feed("x", None);
    assert_eq!(f.color_for(0), "cal1");
    assert_eq!(f.color_for(9), "cal10");
    assert_eq!(f.color_for(10), "cal1");
    assert_eq!(f.color_for(23), "cal4");
    assert_eq!(feed("y", Some("brick")).color_for(5), "brick");
}

#[test]
fn theme_lookup_falls_back() {
    let t = theme();
    assert_eq!(hex(&t, "brick", "#000"), "#9c3b2e");
    assert_eq!(hex(&t, "nope", "#000"), "#000");
    assert_eq!(color(&t, "primary", "black"), "#2b2d6e");
    assert_eq!(color(&t, "ink", "black"), "black");
    assert_eq!(t.get("brick").map(|s| s.as_str()), Some("#9c3b2e"));
}
