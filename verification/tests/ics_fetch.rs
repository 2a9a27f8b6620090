use rmbujo::ics::fetch::{
    after_failed_fetch, cache_file_name, first_source, normalize_url, slug, FeedSource,
    FetchFallback,
};

#[test]
fn webcal_becomes_https() {
    assert_eq!(normalize_url("webcal://host/p"), "https://host/p");
    assert_eq!(normalize_url("https://host/p"), "https://host/p");
    assert_eq!(normalize_url("http://host/p"), "http://host/p");
}

#[test]
fn webcal_prefix_only_at_the_start() {
    assert_eq!(normalize_url("webcal://"), "https://");
    assert_eq!(normalize_url("xwebcal://h"), "xwebcal://h");
    assert_eq!(normalize_url("webcal:/h"), "webcal:/h");
    assert_eq!(normalize_url(""), "");
}

#[test]
fn slug_lowercases_and_dashes() {
    assert_eq!(slug("Holidays"), "holidays");
    assert_eq!(slug("Work Cal #2"), "work-cal--2");
    assert_eq!(slug("Ünï"), "-n-");
    assert_eq!(cache_file_name("My Feed"), "my-feed.ics");
}

#[test]
fn cache_first_unless_refreshing() {
    // Warm cache, no refresh: served without a fetch.
    assert_eq!(first_source(false, true), FeedSource::Cache);
    // Cold cache, or an explicit refresh: fetch.
    assert_eq!(first_source(false, false), FeedSource::Network);
    assert_eq!(first_source(true, true), FeedSource::Network);
    assert_eq!(first_source(true, false), FeedSource::Network);
}

#[test]
fn failed_fetch_falls_back_to_stale_cache() {
    assert_eq!(after_failed_fetch(true), FetchFallback::StaleCache);
    assert_eq!(after_failed_fetch(false), FetchFallback::Fail);
}
