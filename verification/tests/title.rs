use aurora_core::title::{
    clean_movie_title, detect_quality, fold_diacritics, match_key, quality_rank, split_country_prefix,
};

#[test]
fn quality_ranks_best_first_whatever_the_spelling() {
    assert!(quality_rank(Some("4K")) > quality_rank(Some("FHD")));
    assert!(quality_rank(Some("FHD")) > quality_rank(Some("HD")));
    assert!(quality_rank(Some("HD")) > quality_rank(Some("SD")));
    assert!(quality_rank(Some("SD")) > quality_rank(None));
    assert_eq!(quality_rank(Some("1080p")), quality_rank(Some("FHD")));
    assert_eq!(quality_rank(Some("2160p")), quality_rank(Some("4K")));
    assert_eq!(quality_rank(Some("uhd")), quality_rank(Some("4K")));
    assert_eq!(quality_rank(Some("720")), quality_rank(Some("HD")));
}

#[test]
fn an_unrecognised_quality_ranks_as_unknown_not_as_best() {
    assert_eq!(quality_rank(Some("")), 0);
    assert_eq!(quality_rank(Some("VIP")), 0);
    assert_eq!(quality_rank(Some("H265")), 0);
}

#[test]
fn strips_scene_release_noise() {
    let c = clean_movie_title("Inception.2010.1080p.WEB-DL.x265-MULTI");
    assert_eq!(c.title, "Inception");
    assert_eq!(c.year, Some(2010));
    assert_eq!(c.quality.as_deref(), Some("FHD"));
}

#[test]
fn handles_parenthesised_year() {
    let c = clean_movie_title("The Matrix (1999) [4K] REMUX");
    assert_eq!(c.title, "The Matrix");
    assert_eq!(c.year, Some(1999));
}

#[test]
fn keeps_numeric_titles_intact() {
    let c = clean_movie_title("2012");
    assert_eq!(c.title, "2012");
}

#[test]
fn keeps_numeric_title_with_real_year() {
    let c = clean_movie_title("2012 (2009) 1080p");
    assert_eq!(c.title, "2012");
    assert_eq!(c.year, Some(2009));
}

#[test]
fn never_returns_empty_title() {
    let c = clean_movie_title("1080p x265");
    assert!(!c.title.is_empty());
}

#[test]
fn splits_country_prefixes() {
    assert_eq!(
        split_country_prefix("US| CNN HD"),
        ("CNN HD".into(), Some("US".into()))
    );
    assert_eq!(
        split_country_prefix("FR - TF1"),
        ("TF1".into(), Some("FR".into()))
    );
    assert_eq!(
        split_country_prefix("[DE] RTL"),
        ("RTL".into(), Some("DE".into()))
    );
}

#[test]
fn splits_the_star_prefix_a_real_panel_writes_every_channel_with() {
    assert_eq!(
        split_country_prefix("US \u{2605} QVC HD"),
        ("QVC HD".into(), Some("US".into()))
    );
    assert_eq!(
        split_country_prefix("ALB \u{2605} Klan HD"),
        ("Klan HD".into(), Some("ALB".into()))
    );
    assert_eq!(
        split_country_prefix("EXYU \u{2605} RTS 1"),
        ("RTS 1".into(), Some("EXYU".into()))
    );
    let (name, code) = split_country_prefix("\u{2605} Sports HD");
    assert_eq!(name, "\u{2605} Sports HD");
    assert_eq!(code, None);
}

#[test]
fn a_star_prefixed_channel_matches_the_same_channel_without_one() {
    assert_eq!(match_key("US \u{2605} CNN HD"), match_key("CNN"));
    assert_eq!(match_key("FR \u{2605} TF1"), match_key("TF1 FHD"));
}

#[test]
fn does_not_eat_a_real_name_that_looks_like_a_prefix() {
    let (name, code) = split_country_prefix("BBC One");
    assert_eq!(name, "BBC One");
    assert_eq!(code, None);
}

#[test]
fn match_key_collapses_channel_variants() {
    let k = match_key("CNN");
    assert_eq!(match_key("US| CNN HD"), k);
    assert_eq!(match_key("CNN FHD"), k);
    assert_eq!(match_key("cnn.us"), format!("{k}us"));
}

#[test]
fn match_key_folds_diacritics() {
    assert_eq!(match_key("Télé 5"), match_key("Tele 5"));
}

#[test]
fn match_key_is_never_empty() {
    assert!(!match_key("HD").is_empty());
    assert!(!match_key("4K").is_empty());
}

#[test]
fn detects_quality_tiers() {
    assert_eq!(detect_quality("Sky Sports UHD").as_deref(), Some("4K"));
    assert_eq!(detect_quality("BBC One HD").as_deref(), Some("HD"));
    assert_eq!(detect_quality("BBC One"), None);
}

#[test]
fn folds_the_latin_diacritics_and_leaves_the_rest() {
    assert_eq!(fold_diacritics("Amélie Ñandú łódź ß"), "Amelie Ñandu lodz ß");
}

#[test]
fn an_extension_and_a_first_year_at_the_start_are_handled() {
    let c = clean_movie_title("  Some.Film.2019.MKV ");
    assert_eq!(c.title, "Some Film");
    assert_eq!(c.year, Some(2019));
    assert_eq!(c.quality, None);
}
