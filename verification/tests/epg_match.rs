use aurora_core::epg_match::{coverage, edit_distance_at_most, EpgIndex, MatchMethod};
use aurora_core::model::EpgChannel;

fn ch(id: &str, names: &[&str]) -> EpgChannel {
    EpgChannel {
        id: id.into(),
        display_names: names.iter().map(|s| s.to_string()).collect(),
        icon: None,
    }
}

fn index() -> EpgIndex {
    EpgIndex::build(&[
        ch("cnn.us", &["CNN"]),
        ch("bbcone.uk", &["BBC One", "BBC 1"]),
        ch("discovery.uk", &["Discovery Channel"]),
    ])
}

#[test]
fn exact_tvg_id_wins() {
    let m = index().resolve(Some("cnn.us"), "Whatever", None).unwrap();
    assert_eq!(m.method, MatchMethod::ExactId);
    assert_eq!(m.epg_channel_id, "cnn.us");
    assert_eq!(m.confidence, 100);
}

#[test]
fn tvg_id_match_is_case_insensitive() {
    assert!(index().resolve(Some("CNN.US"), "x", None).is_some());
}

#[test]
fn falls_back_to_normalized_name() {
    let m = index().resolve(None, "US| CNN HD", None).unwrap();
    assert_eq!(m.method, MatchMethod::NormalizedName);
    assert_eq!(m.epg_channel_id, "cnn.us");
}

#[test]
fn matches_any_display_name_alias() {
    assert_eq!(
        index()
            .resolve(None, "BBC 1 FHD", None)
            .unwrap()
            .epg_channel_id,
        "bbcone.uk"
    );
}

#[test]
fn manual_mapping_overrides_everything() {
    let m = index()
        .resolve(Some("cnn.us"), "CNN", Some("my.custom.id"))
        .unwrap();
    assert_eq!(m.method, MatchMethod::Manual);
    assert_eq!(m.epg_channel_id, "my.custom.id");
}

#[test]
fn fuzzy_catches_a_single_typo() {
    let m = index().resolve(None, "Discovry Channel", None).unwrap();
    assert_eq!(m.method, MatchMethod::Fuzzy);
    assert_eq!(m.epg_channel_id, "discovery.uk");
}

#[test]
fn fuzzy_does_not_confuse_numbered_siblings() {
    // "Sky 1" vs "Sky 2" differ by one edit but must never cross-match:
    // short keys are excluded from the fuzzy pass entirely.
    let idx = EpgIndex::build(&[ch("sky1.uk", &["Sky 1"]), ch("sky2.uk", &["Sky 2"])]);
    let m = idx.resolve(None, "Sky 3", None);
    assert!(m.is_none(), "unexpectedly matched: {m:?}");
}

#[test]
fn unknown_channels_return_none() {
    assert!(index()
        .resolve(None, "Totally Unknown Network", None)
        .is_none());
}

#[test]
fn coverage_counts_and_lists_the_gaps() {
    let idx = index();
    let report = coverage(
        &idx,
        &[
            ("CNN", Some("cnn.us")),
            ("BBC One", None),
            ("Some Local Channel", None),
        ],
    );
    assert_eq!(report.total, 3);
    assert_eq!(report.matched, 2);
    assert_eq!(report.unmatched, vec!["Some Local Channel"]);
    let percent = report.matched as f32 * 100.0 / report.total as f32;
    assert!((percent - 66.67).abs() < 0.1);
}

#[test]
fn edit_distance_bails_out_early() {
    assert_eq!(edit_distance_at_most("abc", "abc", 1), Some(0));
    assert_eq!(edit_distance_at_most("abc", "abd", 1), Some(1));
    assert_eq!(edit_distance_at_most("abc", "xyz", 1), None);
}
