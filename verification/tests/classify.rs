use aurora_core::classify::classify;
use aurora_core::model::MediaKind;

#[test]
fn url_segments_win() {
    assert_eq!(
        classify("Anything", "https://example.com/series/u/p/1.mkv", None),
        MediaKind::Episode
    );
    assert_eq!(
        classify("Anything", "https://example.com/movie/u/p/1.mkv", None),
        MediaKind::Movie
    );
    assert_eq!(
        classify("Anything", "https://example.com/live/u/p/1.ts", Some("VOD")),
        MediaKind::Live
    );
}

#[test]
fn episode_marker_beats_group() {
    assert_eq!(
        classify(
            "Breaking Bad S01E02",
            "https://example.com/x.mkv",
            Some("Movies")
        ),
        MediaKind::Episode
    );
}

#[test]
fn group_hints_apply() {
    assert_eq!(
        classify("Some Film", "https://example.com/x", Some("VOD | Action")),
        MediaKind::Movie
    );
    assert_eq!(
        classify("Some Show", "https://example.com/x", Some("Series | Drama")),
        MediaKind::Episode
    );
}

#[test]
fn extension_implies_vod() {
    assert_eq!(
        classify("Movie", "https://example.com/a/b.mkv", None),
        MediaKind::Movie
    );
}

#[test]
fn ts_streams_default_to_live() {
    assert_eq!(
        classify("BBC One", "https://example.com/a/b.ts", None),
        MediaKind::Live
    );
    assert_eq!(
        classify("BBC One", "https://example.com/a/b.m3u8", None),
        MediaKind::Live
    );
}

#[test]
fn query_strings_do_not_defeat_extension_matching() {
    assert_eq!(
        classify("Film", "https://example.com/a/b.mp4?token=abc", None),
        MediaKind::Movie
    );
}

#[test]
fn a_fragment_ends_the_path_too() {
    assert_eq!(
        classify("Film", "https://example.com/a/b.MKV#t=10", None),
        MediaKind::Movie
    );
    assert_eq!(
        classify("Film", "https://example.com/a/b?x=1.mkv", None),
        MediaKind::Live
    );
}
