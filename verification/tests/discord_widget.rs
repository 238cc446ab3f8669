use komorebi_bar::discord::Discord;
use komorebi_bar::discord::DiscordConfig;
use komorebi_bar::discord::LabelPrefix;

fn widget(interval: u64, prefix: LabelPrefix, keyword: &str, now_ms: u64) -> Discord {
    Discord::from_config(
        DiscordConfig {
            enable: true,
            data_refresh_interval: Some(interval),
            label_prefix: Some(prefix),
            window_filter_keyword: Some(keyword.to_string()),
        },
        now_ms,
    )
}

#[test]
fn parse_count_round_trip_small() {
    let w = widget(2, LabelPrefix::IconAndText, "Discord", 0);
    assert_eq!(w.parse_notification_count("(5) Discord | general"), 5);
    assert_eq!(w.parse_notification_count("(0) Discord"), 0);
    assert_eq!(w.parse_notification_count("(12) rest text"), 12);
}

#[test]
fn parse_count_round_trip_generated() {
    let w = widget(2, LabelPrefix::IconAndText, "Discord", 0);
    for n in [0u32, 1, 9, 10, 99, 100, 1234, 65535, 1000000, u32::MAX] {
        let title = format!("({}) rest text", n);
        assert_eq!(w.parse_notification_count(&title), n);
    }
}

#[test]
fn parse_count_degradation() {
    let w = widget(2, LabelPrefix::IconAndText, "Discord", 0);
    assert_eq!(w.parse_notification_count("no leading paren"), 0);
    assert_eq!(w.parse_notification_count("(abc) text"), 0);
    assert_eq!(w.parse_notification_count("(5 unterminated"), 0);
    assert_eq!(w.parse_notification_count(""), 0);
    assert_eq!(w.parse_notification_count("()"), 0);
    assert_eq!(w.parse_notification_count("(4294967296) overflow"), 0);
    assert_eq!(w.parse_notification_count("(12x3) mixed"), 0);
}

#[test]
fn refresh_gating_at_most_one_scan_within_interval() {
    // interval 2 s; a call less than 2 s after the last refresh must not scan.
    let mut w = widget(2, LabelPrefix::Icon, "Discord", 0);
    // 1.0 s after construction: FRESH, the scan argument is ignored.
    let out = w.output(1000, Some("(7) Discord".to_string()));
    assert_eq!(out, "");
    // 2.001 s after construction: STALE, a new scan is consumed.
    let out = w.output(2001, Some("(7) Discord".to_string()));
    assert_eq!(out, "7");
    // 1.499 s later: FRESH again, the new scan is ignored.
    let out = w.output(3500, Some("(9) Discord".to_string()));
    assert_eq!(out, "7");
    // strictly more than 2 s later: STALE, refreshes.
    let out = w.output(5502, Some("(9) Discord".to_string()));
    assert_eq!(out, "9");
}

#[test]
fn label_mode_formatting() {
    // TextOnly with a cached count of 3 -> "DISC 3"; with 0 -> "DISC".
    let mut w = widget(0, LabelPrefix::Text, "Discord", 0);
    assert_eq!(w.output(1, Some("(3) Discord".to_string())), "DISC 3");
    assert_eq!(w.output(2, Some("Discord".to_string())), "DISC");

    // IconOnly with 3 -> "3"; with 0 -> "".
    let mut w = widget(0, LabelPrefix::Icon, "Discord", 0);
    assert_eq!(w.output(1, Some("(3) Discord".to_string())), "3");
    assert_eq!(w.output(2, Some("Discord".to_string())), "");

    // IconAndText formats like TextOnly; Hidden like IconOnly.
    let mut w = widget(0, LabelPrefix::IconAndText, "Discord", 0);
    assert_eq!(w.output(1, Some("(3) Discord".to_string())), "DISC 3");
    let mut w = widget(0, LabelPrefix::Hidden, "Discord", 0);
    assert_eq!(w.output(1, Some("(3) Discord".to_string())), "3");
}

#[test]
fn scanner_miss_returns_none_and_resets_count() {
    let mut w = widget(0, LabelPrefix::Icon, "Discord", 0);
    let titles = vec![
        "(4) Discord | general".to_string(),
        "editor".to_string(),
    ];
    let found = w.find_window_title(&titles);
    assert_eq!(found, Some("(4) Discord | general".to_string()));
    assert_eq!(w.output(1, found), "4");

    // No title matches: the scanner returns none, and the next refresh
    // resets the previously nonzero count to zero.
    let titles = vec!["editor".to_string(), "terminal".to_string()];
    let found = w.find_window_title(&titles);
    assert_eq!(found, None);
    assert_eq!(w.output(2, found), "");
}

#[test]
fn scanner_last_match_wins() {
    let w = widget(2, LabelPrefix::Icon, "Discord", 0);
    let titles = vec![
        "(1) Discord | a".to_string(),
        "unrelated".to_string(),
        "(2) Discord | b".to_string(),
    ];
    assert_eq!(w.find_window_title(&titles), Some("(2) Discord | b".to_string()));
}

#[test]
fn scanner_matching_is_case_sensitive() {
    let w = widget(2, LabelPrefix::Icon, "Discord", 0);
    let titles = vec!["discord (lower case)".to_string()];
    assert_eq!(w.find_window_title(&titles), None);
}

#[test]
fn concurrent_scan_isolation() {
    // Two independent instances with distinct keywords looking at the same
    // window list: each observes only its own match.
    let mut a = widget(0, LabelPrefix::Icon, "Alpha", 0);
    let mut b = widget(0, LabelPrefix::Icon, "Beta", 0);
    let titles = vec![
        "(1) Alpha | chat".to_string(),
        "(2) Beta | chat".to_string(),
        "other window".to_string(),
    ];
    // Interleaved: both scan before either consumes its result.
    let found_a = a.find_window_title(&titles);
    let found_b = b.find_window_title(&titles);
    assert_eq!(found_a, Some("(1) Alpha | chat".to_string()));
    assert_eq!(found_b, Some("(2) Beta | chat".to_string()));
    assert_eq!(a.output(1, found_a), "1");
    assert_eq!(b.output(1, found_b), "2");
}

#[test]
fn from_config_applies_defaults() {
    let w = Discord::from_config(
        DiscordConfig {
            enable: true,
            data_refresh_interval: None,
            label_prefix: None,
            window_filter_keyword: None,
        },
        77,
    );
    assert!(w.enable);
    assert_eq!(w.data_refresh_interval, 2);
    assert!(matches!(w.label_prefix, LabelPrefix::IconAndText));
    assert_eq!(w.window_filter_keyword, "Discord");
    assert_eq!(w.last_updated, 77);
    assert_eq!(w.notification_count, 0);
}

#[test]
fn number_rendering() {
    assert_eq!(komorebi_bar::text::u32_to_string(0), "0");
    assert_eq!(komorebi_bar::text::u32_to_string(7), "7");
    assert_eq!(komorebi_bar::text::u32_to_string(40), "40");
    assert_eq!(komorebi_bar::text::u32_to_string(u32::MAX), "4294967295");
}

#[test]
fn containment_is_exact() {
    assert!(komorebi_bar::text::title_contains("(3) Discord | x", "Discord"));
    assert!(komorebi_bar::text::title_contains("Discord", "Discord"));
    assert!(!komorebi_bar::text::title_contains("Disc", "Discord"));
    assert!(!komorebi_bar::text::title_contains("DISCORD", "Discord"));
    assert!(komorebi_bar::text::title_contains("anything", ""));
}
