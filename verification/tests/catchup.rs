use aurora_core::catchup::{expand, is_available, url_for, Mode, Request};

/// 2026-03-14 09:26:53 UTC, so every component is distinguishable.
const START: i64 = 1_773_480_413;
const STOP: i64 = START + 3600;
const NOW: i64 = START + 7200;

fn req<'a>(stream_url: &'a str, mode: Mode, source: Option<&'a str>) -> Request<'a> {
    Request {
        stream_url,
        mode,
        source,
        start: START,
        stop: STOP,
        now: NOW,
    }
}

#[test]
fn modes_are_recognised_by_the_spellings_playlists_use() {
    assert_eq!(Mode::parse("xc"), Some(Mode::Xtream));
    assert_eq!(Mode::parse("Xtream-Codes"), Some(Mode::Xtream));
    assert_eq!(Mode::parse("append"), Some(Mode::Append));
    assert_eq!(Mode::parse("flussonic"), Some(Mode::Flussonic));
    assert_eq!(Mode::parse(" SHIFT "), Some(Mode::Shift));
    // The oldest and commonest spelling; players have always read it as `?utc=`.
    assert_eq!(Mode::parse("default"), Some(Mode::Shift));
    assert_eq!(Mode::parse("something-else"), None);
    assert_eq!(Mode::parse(""), None);
}

#[test]
fn shift_appends_the_utc_pair() {
    let url = url_for(&req("http://h/live/s.ts", Mode::Shift, None)).unwrap();
    assert_eq!(url, format!("http://h/live/s.ts?utc={START}&lutc={NOW}"));
}

#[test]
fn a_url_that_already_has_a_query_keeps_it() {
    let url = url_for(&req("http://h/s.ts?token=abc", Mode::Shift, None)).unwrap();
    assert!(url.starts_with("http://h/s.ts?token=abc&utc="), "{url}");
    assert_eq!(
        url.matches('?').count(),
        1,
        "only one query separator: {url}"
    );
}

#[test]
fn flussonic_replaces_the_playlist_segment() {
    assert_eq!(
        url_for(&req("http://h/mychannel/index.m3u8", Mode::Flussonic, None)).unwrap(),
        format!("http://h/mychannel/timeshift_abs-{START}.m3u8")
    );
    // Other segment names are equally common.
    assert_eq!(
        url_for(&req("http://h/ch/mono.m3u8", Mode::Flussonic, None)).unwrap(),
        format!("http://h/ch/timeshift_abs-{START}.m3u8")
    );
    // And a URL that stops at the stream name gets the segment added.
    assert_eq!(
        url_for(&req("http://h/mychannel", Mode::Flussonic, None)).unwrap(),
        format!("http://h/mychannel/timeshift_abs-{START}.m3u8")
    );
}

#[test]
fn flussonic_keeps_an_auth_query() {
    let url = url_for(&req(
        "http://h/ch/index.m3u8?token=abc",
        Mode::Flussonic,
        None,
    ))
    .unwrap();
    assert_eq!(
        url,
        format!("http://h/ch/timeshift_abs-{START}.m3u8?token=abc")
    );
}

#[test]
fn xtream_recovers_the_credentials_from_the_stream_url() {
    let url = url_for(&req(
        "http://panel.example.com:8080/live/alice/hunter2/1234.ts",
        Mode::Xtream,
        None,
    ))
    .unwrap();
    assert!(url.starts_with("http://panel.example.com:8080/streaming/timeshift.php?"));
    assert!(url.contains("username=alice"), "{url}");
    assert!(url.contains("password=hunter2"), "{url}");
    assert!(url.contains("stream=1234"), "{url}");
    // Xtream's own date format, not a unix stamp.
    assert!(url.contains("start=2026-03-14:09-26"), "{url}");
    assert!(url.contains("duration=60"), "{url}");
}

#[test]
fn xtream_also_reads_a_url_without_the_live_segment() {
    let url = url_for(&req("http://h/alice/hunter2/9.m3u8", Mode::Xtream, None)).unwrap();
    assert!(url.contains("stream=9"), "{url}");
    assert!(url.contains("username=alice"), "{url}");
}

#[test]
fn a_stream_url_xtream_cannot_be_read_from_yields_no_guess() {
    // Better no button than a URL built from invented credentials.
    assert_eq!(
        url_for(&req("http://h/stream.ts", Mode::Xtream, None)),
        None
    );
    assert_eq!(url_for(&req("not-a-url", Mode::Xtream, None)), None);
}

#[test]
fn an_empty_stream_url_is_never_a_catch_up_url() {
    assert_eq!(url_for(&req("", Mode::Shift, None)), None);
    assert_eq!(
        url_for(&req("   ", Mode::Flussonic, Some("?utc=${start}"))),
        None
    );
}

#[test]
fn a_source_template_overrides_the_mode() {
    // The provider described its own server; that beats any convention.
    let url = url_for(&req(
        "http://h/live/s.ts",
        Mode::Flussonic,
        Some("?utc=${start}&dur=${duration}"),
    ))
    .unwrap();
    assert_eq!(url, format!("http://h/live/s.ts?utc={START}&dur=3600"));
}

#[test]
fn a_source_that_is_a_whole_url_is_used_as_is() {
    let url = url_for(&req(
        "http://h/live/s.ts",
        Mode::Append,
        Some("http://archive.example.com/play?t=${start}"),
    ))
    .unwrap();
    assert_eq!(url, format!("http://archive.example.com/play?t={START}"));
}

#[test]
fn a_source_that_is_a_path_fragment_is_appended() {
    let url = url_for(&req(
        "http://h/live/chan",
        Mode::Append,
        Some("/archive-${start}-${duration}.m3u8"),
    ))
    .unwrap();
    assert_eq!(url, format!("http://h/live/chan/archive-{START}-3600.m3u8"));
}

#[test]
fn a_source_beginning_with_an_ampersand_joins_an_existing_query() {
    let url = url_for(&req(
        "http://h/s.ts?token=abc",
        Mode::Append,
        Some("&utc=${start}"),
    ))
    .unwrap();
    assert_eq!(url, format!("http://h/s.ts?token=abc&utc={START}"));
}

#[test]
fn every_placeholder_spelling_expands() {
    let r = req("http://h/s", Mode::Shift, None);
    // Both bracket styles, in one template, as playlists really do.
    let got = expand(
        "${start}|{utc}|${end}|${duration}|${offset}|{lutc}|${timestamp}",
        &r,
    );
    assert_eq!(
        got,
        format!("{START}|{START}|{STOP}|3600|7200|{NOW}|{START}")
    );
}

#[test]
fn date_component_placeholders_are_zero_padded() {
    let r = req("http://h/s", Mode::Shift, None);
    assert_eq!(
        expand("${start-year}-${start-month}-${start-day}", &r),
        "2026-03-14"
    );
    assert_eq!(
        expand("${start-hour}:${start-minute}:${start-second}", &r),
        "09:26:53"
    );
    // The terse spelling means the same thing.
    assert_eq!(expand("{Y}{m}{d}-{H}{M}{S}", &r), "20260314-092653");
}

#[test]
fn a_long_token_is_not_eaten_by_a_short_one_sharing_its_prefix() {
    let r = req("http://h/s", Mode::Shift, None);
    // `${d}` is a prefix of `${duration}`; expanding it first would leave "14uration".
    assert_eq!(expand("${duration}", &r), "3600");
    assert_eq!(expand("${d}", &r), "14");
    // And `${start}` is a prefix of `${start-day}`.
    assert_eq!(expand("${start-day}", &r), "14");
    assert_eq!(expand("${start}", &r), START.to_string());
}

#[test]
fn an_unknown_placeholder_is_left_alone() {
    let r = req("http://h/s", Mode::Shift, None);
    // Better a URL the provider can reject than one silently missing a parameter.
    assert_eq!(expand("${nonsense}", &r), "${nonsense}");
}

#[test]
fn availability_respects_the_providers_window() {
    let now = 1_000_000;
    let day = 86_400;
    // Inside a seven-day window.
    assert!(is_available(now - 3 * day, now, 7));
    assert!(is_available(now - 7 * day, now, 7));
    // Past it.
    assert!(!is_available(now - 8 * day, now, 7));
}

#[test]
fn a_programme_that_has_not_aired_has_nothing_to_catch_up_on() {
    let now = 1_000_000;
    assert!(!is_available(now + 3600, now, 7));
}

#[test]
fn an_unstated_window_is_not_a_refusal() {
    // A channel is only flagged for catch-up at all if the provider said so; days=0
    // means it did not say how far back, not that there is none.
    let now = 1_000_000;
    assert!(is_available(now - 90 * 86_400, now, 0));
}
