use aurora_core::markers::{classify_title, MarkerKind, MarkerSource};

#[test]
fn kind_and_source_round_trip_through_strings() {
    for k in [MarkerKind::Intro, MarkerKind::Recap, MarkerKind::Credits] {
        assert_eq!(MarkerKind::parse(k.as_str()), Some(k));
    }
    for s in [
        MarkerSource::Chapters,
        MarkerSource::User,
        MarkerSource::Learned,
    ] {
        assert_eq!(MarkerSource::parse(s.as_str()), Some(s));
    }
    assert_eq!(MarkerKind::parse("nonsense"), None);
}

#[test]
fn a_user_marker_outranks_a_learned_one_and_chapters_outrank_both() {
    assert!(MarkerSource::Chapters.trust() > MarkerSource::User.trust());
    assert!(MarkerSource::User.trust() > MarkerSource::Learned.trust());
    assert_eq!(MarkerKind::Intro.label(), MarkerKind::Intro.label());
}

#[test]
fn chapter_titles_are_read_as_whole_words() {
    assert_eq!(classify_title("Opening Titles"), Some(MarkerKind::Intro));
    assert_eq!(classify_title("Previously On..."), Some(MarkerKind::Recap));
    assert_eq!(classify_title("End Credits"), Some(MarkerKind::Credits));
    // A recap wins over an intro when a title says both.
    assert_eq!(classify_title("Previously / Opening"), Some(MarkerKind::Recap));
    // Substrings are not words.
    assert_eq!(classify_title("Introduction to the Case"), None);
    assert_eq!(classify_title("Chapter 3"), None);
    assert_eq!(classify_title("  --  "), None);
    assert_eq!(classify_title("OUTRO"), Some(MarkerKind::Credits));
}
