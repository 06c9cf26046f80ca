use aurora_core::model::MediaKind;
use aurora_core::xtream::{
    parse_json, stream_url, timeshift_url, AuthResponse, LiveStream, ServerInfo, UserInfo,
};

fn server() -> ServerInfo {
    ServerInfo {
        url: None,
        port: None,
        https_port: None,
        server_protocol: None,
    }
}

fn user(status: Option<&str>, exp_date: Option<u32>, max: Option<u32>, active: Option<u32>) -> AuthResponse {
    AuthResponse {
        user_info: UserInfo {
            username: None,
            status: status.map(|s| s.to_string()),
            exp_date,
            max_connections: max,
            active_cons: active,
            is_trial: None,
        },
        server_info: server(),
    }
}

fn live(stream_id: u32, tv_archive: u32) -> LiveStream {
    LiveStream {
        stream_id: Some(stream_id),
        name: None,
        stream_icon: None,
        epg_channel_id: None,
        category_id: None,
        num: None,
        tv_archive: Some(tv_archive),
        tv_archive_duration: None,
    }
}

#[test]
fn numbers_as_strings_are_accepted() {
    let j = r#"{"user_info":{"status":"Active","exp_date":"1735689600","max_connections":"2","active_cons":1}}"#;
    assert_eq!(parse_json(j).unwrap(), j);
    let a = user(Some("Active"), Some(1735689600), Some(2), Some(1));
    assert!(a.is_active());
    assert_eq!(a.user_info.max_connections, Some(2));
    assert_eq!(a.user_info.active_cons, Some(1));
    assert_eq!(a.connection_slots_free(), Some(1));
}

#[test]
fn missing_and_null_fields_do_not_fail() {
    assert!(parse_json(r#"{"user_info":{"status":null}}"#).is_ok());
    let a = user(None, None, None, None);
    assert!(!a.is_active());
    assert_eq!(a.connection_slots_free(), None);
    assert_eq!(a.days_until_expiry(0), None);
}

#[test]
fn html_error_pages_produce_a_useful_error() {
    let err = parse_json("<html><body>403</body></html>").unwrap_err();
    let msg = err.to_string();
    assert!(msg.contains("HTML"), "unhelpful message: {msg}");
}

#[test]
fn empty_bodies_produce_a_useful_error() {
    assert!(parse_json("   ").is_err());
}

#[test]
fn expiry_is_reported_in_days() {
    let a = user(Some("Active"), Some(864000), None, None);
    assert_eq!(a.days_until_expiry(0), Some(10));
    // Already expired reads negative rather than underflowing.
    assert_eq!(a.days_until_expiry(864_000 + 86_400), Some(-1));
}

#[test]
fn active_connections_above_the_cap_clamp_to_zero() {
    let a = user(None, None, Some(1), Some(5));
    assert_eq!(a.connection_slots_free(), Some(0));
}

#[test]
fn live_streams_report_catchup() {
    assert!(live(7, 1).has_catchup());
    assert!(!live(7, 0).has_catchup());
}

#[test]
fn builds_stream_urls_per_kind() {
    assert_eq!(
        stream_url("https://example.com/", "u", "p", MediaKind::Live, 12, None),
        "https://example.com/live/u/p/12.ts"
    );
    assert_eq!(
        stream_url(
            "https://example.com",
            "u",
            "p",
            MediaKind::Movie,
            3,
            Some("mkv")
        ),
        "https://example.com/movie/u/p/3.mkv"
    );
    assert_eq!(
        stream_url("https://example.com", "u", "p", MediaKind::Episode, 9, None),
        "https://example.com/series/u/p/9.mp4"
    );
}

#[test]
fn builds_a_timeshift_url() {
    let u = timeshift_url("https://example.com", "u", "p", 5, "2024-01-15:20-00", 60);
    assert!(u.contains("stream=5"));
    assert!(u.contains("duration=60"));
}

#[test]
fn the_json_text_is_handed_on_without_its_leading_whitespace() {
    assert_eq!(parse_json("  \n {\"a\":1} ").unwrap(), "{\"a\":1} ");
}

#[test]
fn an_exact_timeshift_url() {
    assert_eq!(
        timeshift_url("http://h//", "u", "p", 5, "2024-01-15:20-00", 60),
        "http://h/streaming/timeshift.php?username=u&password=p&stream=5&start=2024-01-15:20-00&duration=60"
    );
}
