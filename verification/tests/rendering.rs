use statworks::github::GitHubSummary;
use statworks::render::{format_fixed4, render_error_card, render_summary_card, u64_to_dec};
use statworks::theme::{theme_from_query, Theme};
use statworks::{
    build_segments_from_summary, finish_error, finish_success, plan_after_value_lookup,
    plan_request, status_is_success, summary_aria_label, summary_stat_rows, summary_title,
    upstream_error_message, value_cache_key, LookupPlan, RequestPlan, UpstreamError, KV_TTL_SECS,
};

fn summary(languages: Vec<(String, u64)>) -> GitHubSummary {
    GitHubSummary {
        languages,
        stars_total: 12,
        commits: 34,
        pull_requests: 5,
        issues: 6,
    }
}

fn theme() -> Theme {
    theme_from_query(None, None)
}

#[test]
fn theme_defaults_apply() {
    let t = theme_from_query(None, None);
    assert_eq!(t.background_color, "#F6F1D1");
    assert_eq!(t.text_color, "#0B2027");
}

#[test]
fn theme_overrides_are_trimmed() {
    let t = theme_from_query(Some("  #ffffff  ".to_string()), Some("#000000".to_string()));
    assert_eq!(t.background_color, "#ffffff");
    assert_eq!(t.text_color, "#000000");
}

#[test]
fn blank_theme_override_falls_back_to_default() {
    let t = theme_from_query(Some("   ".to_string()), Some("".to_string()));
    assert_eq!(t.background_color, "#F6F1D1");
    assert_eq!(t.text_color, "#0B2027");
}

#[test]
fn one_override_leaves_the_other_default() {
    let t = theme_from_query(None, Some("#123456".to_string()));
    assert_eq!(t.background_color, "#F6F1D1");
    assert_eq!(t.text_color, "#123456");
}

#[test]
fn all_zero_byte_sizes_yield_no_segments() {
    let s = summary(vec![("Rust".to_string(), 0), ("Go".to_string(), 0)]);
    assert!(build_segments_from_summary(&s, 5, 40, 20).is_empty());
}

#[test]
fn two_language_segments_have_exact_geometry() {
    let s = summary(vec![("Rust".to_string(), 80), ("Go".to_string(), 20)]);
    let segs = build_segments_from_summary(&s, 5, 40, 20);
    assert_eq!(segs.len(), 2);

    assert_eq!(segs[0].name, "Rust");
    assert_eq!(segs[0].color, "#DEA584");
    assert_eq!(segs[0].percent_text, "80.0%");
    assert_eq!(segs[0].dasharray, "201.0619 251.3274");
    assert_eq!(segs[0].dashoffset, "-0.0000");
    assert_eq!(segs[0].legend_dy, 0);

    assert_eq!(segs[1].name, "Go");
    assert_eq!(segs[1].color, "#E34C26");
    assert_eq!(segs[1].percent_text, "20.0%");
    assert_eq!(segs[1].dasharray, "50.2655 251.3274");
    assert_eq!(segs[1].dashoffset, "-201.0619");
    assert_eq!(segs[1].legend_dy, 20);
}

#[test]
fn empty_language_list_yields_no_segments() {
    let s = summary(Vec::new());
    assert!(build_segments_from_summary(&s, 5, 40, 20).is_empty());
}

#[test]
fn top_n_limits_the_drawn_segments() {
    let s = summary(vec![
        ("A".to_string(), 50),
        ("B".to_string(), 30),
        ("C".to_string(), 20),
    ]);
    let segs = build_segments_from_summary(&s, 2, 40, 20);
    assert_eq!(segs.len(), 2);
    assert_eq!(segs[0].name, "A");
    assert_eq!(segs[1].name, "B");
    assert_eq!(segs[0].percent_text, "50.0%");
    assert_eq!(segs[1].percent_text, "30.0%");
}

#[test]
fn palette_falls_back_after_seven_colors() {
    let mut langs = Vec::new();
    for i in 0..8u64 {
        langs.push((format!("L{}", i), 8 - i));
    }
    let s = summary(langs);
    let segs = build_segments_from_summary(&s, 8, 40, 20);
    assert_eq!(segs.len(), 8);
    assert_eq!(segs[0].color, "#DEA584");
    assert_eq!(segs[6].color, "#16A085");
    assert_eq!(segs[7].color, "#95A5A6");
    assert_eq!(segs[7].legend_dy, 140);
}

#[test]
fn stat_rows_carry_the_counters_in_order() {
    let s = summary(vec![("Rust".to_string(), 80), ("Go".to_string(), 20)]);
    let rows = summary_stat_rows(&s);
    assert_eq!(rows.len(), 5);
    assert_eq!((rows[0].label.as_str(), rows[0].value.as_str(), rows[0].dy), ("Stars", "12", 0));
    assert_eq!(
        (rows[1].label.as_str(), rows[1].value.as_str(), rows[1].dy),
        ("Commits (year)", "34", 20)
    );
    assert_eq!(
        (rows[2].label.as_str(), rows[2].value.as_str(), rows[2].dy),
        ("Pull Requests", "5", 40)
    );
    assert_eq!((rows[3].label.as_str(), rows[3].value.as_str(), rows[3].dy), ("Issues", "6", 60));
    assert_eq!(
        (rows[4].label.as_str(), rows[4].value.as_str(), rows[4].dy),
        ("Languages", "2", 80)
    );
}

#[test]
fn summary_card_holds_the_fixed_layout() {
    let s = summary(vec![("Rust".to_string(), 80)]);
    let segs = build_segments_from_summary(&s, 5, 40, 20);
    let rows = summary_stat_rows(&s);
    let card = render_summary_card(
        theme(),
        summary_title(&"alice".to_string()),
        rows,
        segs,
        summary_aria_label(&"alice".to_string()),
    );
    assert_eq!(card.title, "alice GitHub Stats");
    assert_eq!(card.aria_label, "GitHub stats for alice");
    assert_eq!(card.width, 400);
    assert_eq!(card.height, 160);
    assert_eq!(card.pie_r, 40);
    assert_eq!(card.stat_label_opacity, "0.7");
    assert_eq!(card.top_languages_title, "Top Languages");
    assert_eq!(card.pie_base_stroke, "#e1e4e8");
    assert!(card.show_pie);
}

#[test]
fn error_card_has_one_message_row_and_no_pie() {
    let card = render_error_card(theme(), "user is required".to_string());
    assert_eq!(card.title, "Error");
    assert_eq!(card.aria_label, "Error");
    assert_eq!(card.stats_rows.len(), 1);
    assert_eq!(card.stats_rows[0].label, "Message");
    assert_eq!(card.stats_rows[0].value, "user is required");
    assert_eq!(card.stats_rows[0].dy, 0);
    assert!(card.lang_segments.is_empty());
    assert!(!card.show_pie);
}

#[test]
fn cache_key_is_user_and_theme_colors() {
    let key = value_cache_key(&"alice".to_string(), &theme());
    assert_eq!(key, "summary:alice:#F6F1D1:#0B2027");
}

#[test]
fn missing_user_renders_uncached_error() {
    match plan_request(&None, &theme()) {
        RequestPlan::MissingUser(msg) => assert_eq!(msg, "user is required"),
        RequestPlan::Lookup(_) => panic!("expected the missing-user path"),
    }
}

#[test]
fn request_with_user_looks_up_the_value_cache() {
    match plan_request(&Some("alice".to_string()), &theme()) {
        RequestPlan::Lookup(key) => assert_eq!(key, "summary:alice:#F6F1D1:#0B2027"),
        RequestPlan::MissingUser(_) => panic!("expected a lookup"),
    }
}

#[test]
fn successful_render_round_trips_through_the_value_cache() {
    let key = "summary:alice:#F6F1D1:#0B2027".to_string();
    let d = finish_success(&key, "<svg>alice</svg>".to_string());
    assert!(d.store_edge);
    assert_eq!(d.cache_control, "public, s-maxage=86400, stale-while-revalidate=3600");
    assert_eq!(d.content_type, "image/svg+xml");
    let write = d.value_store.expect("a successful render is stored");
    assert_eq!(write.key, key);
    assert_eq!(write.value, "<svg>alice</svg>");
    assert_eq!(write.ttl_secs, KV_TTL_SECS);
    assert_eq!(KV_TTL_SECS, 21600);

    match plan_after_value_lookup(Some(write.value)) {
        LookupPlan::Respond(d2) => {
            assert_eq!(d2.body, d.body);
            assert!(d2.store_edge);
            assert!(d2.value_store.is_none());
        }
        LookupPlan::FetchSummary => panic!("a hit must not fetch again"),
    }
}

#[test]
fn value_cache_miss_fetches_upstream() {
    match plan_after_value_lookup(None) {
        LookupPlan::FetchSummary => {}
        LookupPlan::Respond(_) => panic!("a miss must fetch"),
    }
}

#[test]
fn error_render_is_never_cached() {
    let d = finish_error("<svg>error</svg>".to_string());
    assert!(!d.store_edge);
    assert!(d.value_store.is_none());
    assert_eq!(d.cache_control, "no-store");
}

#[test]
fn upstream_error_messages_carry_status_and_body() {
    let status = UpstreamError::Status(404, "Not Found".to_string());
    assert_eq!(upstream_error_message(&status), "GitHub API error 404: Not Found");
    let transport = UpstreamError::Transport("connection reset".to_string());
    assert_eq!(upstream_error_message(&transport), "connection reset");
}

#[test]
fn status_success_range_is_two_hundreds() {
    assert!(status_is_success(200));
    assert!(status_is_success(299));
    assert!(!status_is_success(199));
    assert!(!status_is_success(300));
    assert!(!status_is_success(404));
}

#[test]
fn decimal_and_fixed_point_formatting() {
    assert_eq!(u64_to_dec(0), "0");
    assert_eq!(u64_to_dec(907), "907");
    assert_eq!(format_fixed4(0), "0.0000");
    assert_eq!(format_fixed4(12345), "1.2345");
    assert_eq!(format_fixed4(100), "0.0100");
    assert_eq!(format_fixed4(2513274), "251.3274");
}
