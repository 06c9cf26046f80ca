use aurora_core::parental::{is_allowed, looks_adult, min_age, AgeLimit};

#[test]
fn maps_the_common_systems_onto_ages() {
    for (cert, age) in [
        ("U", 0),
        ("G", 0),
        ("TV-Y", 0),
        ("PG", 6),
        ("TV-PG", 6),
        ("PG-13", 12),
        ("12A", 12),
        ("TV-14", 12),
        ("15", 15),
        ("R", 17),
        ("TV-MA", 17),
        ("NC-17", 17),
        ("18", 18),
        ("FSK18", 18),
    ] {
        assert_eq!(min_age(cert), Some(age), "{cert}");
    }
}

#[test]
fn accepts_bare_numbers_and_plus_forms() {
    assert_eq!(min_age("16"), Some(16));
    assert_eq!(min_age("16+"), Some(16));
    assert_eq!(min_age("6+"), Some(6));
}

#[test]
fn is_case_and_punctuation_insensitive() {
    assert_eq!(min_age("pg-13"), min_age("PG13"));
    assert_eq!(min_age(" tv_ma "), min_age("TV-MA"));
    assert_eq!(min_age("Rated R"), Some(17));
}

#[test]
fn unrated_is_unknown_not_safe() {
    for cert in ["NR", "Unrated", "", "   ", "completely made up"] {
        assert_eq!(min_age(cert), None, "{cert:?}");
    }
}

#[test]
fn an_unset_limit_allows_everything() {
    assert!(is_allowed(Some("18"), None, false));
    assert!(is_allowed(None, None, false));
}

#[test]
fn a_limit_blocks_content_above_it() {
    let kids = Some(AgeLimit(12));
    assert!(is_allowed(Some("PG"), kids, false));
    assert!(
        is_allowed(Some("PG-13"), kids, false),
        "12 is at the limit, not above it"
    );
    assert!(!is_allowed(Some("R"), kids, false));
    assert!(!is_allowed(Some("18"), kids, false));
}

#[test]
fn unrated_content_is_blocked_by_default_under_a_limit() {
    let kids = Some(AgeLimit(12));
    assert!(!is_allowed(None, kids, false));
    assert!(!is_allowed(Some("NR"), kids, false));
    assert!(is_allowed(None, kids, true));
}

#[test]
fn everyone_rated_content_passes_the_strictest_limit() {
    assert!(is_allowed(Some("U"), Some(AgeLimit::everyone()), false));
    assert!(!is_allowed(Some("PG"), Some(AgeLimit::everyone()), false));
}

#[test]
fn detects_adult_categories() {
    for group in [
        "XXX",
        "Adult Movies",
        "FOR ADULTS ONLY",
        "Erotic",
        "18+ Channels",
    ] {
        assert!(looks_adult(Some(group)), "{group}");
    }
    for group in ["Kids", "Documentary", "News", "Sports"] {
        assert!(!looks_adult(Some(group)), "{group}");
    }
    assert!(!looks_adult(None));
}

#[test]
fn an_adult_limit_allows_everything_rated() {
    assert!(is_allowed(Some("18"), Some(AgeLimit::adult()), false));
    assert!(is_allowed(Some("NC-17"), Some(AgeLimit::adult()), false));
}
