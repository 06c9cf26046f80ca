use aurora_core::error::CoreError;
use aurora_core::model::PlaylistEntry;
use aurora_core::rules::{presets, Action, Field, Match, Rule, RuleSet};

fn entry(name: &str, group: Option<&str>) -> PlaylistEntry {
    let mut e = PlaylistEntry::new(name, "https://example.com/s.ts");
    e.group = group.map(str::to_string);
    e
}

#[test]
fn contains_is_case_insensitive_by_default() {
    let rs = RuleSet::compile(&[Rule::new(
        Field::Name,
        Match::Contains,
        "sport",
        Action::Favorite,
    )])
    .unwrap();
    let mut e = entry("Sky SPORTS Main Event", None);
    assert!(rs.apply(&mut e).favorite);
}

#[test]
fn case_sensitivity_can_be_required() {
    let mut rule = Rule::new(Field::Name, Match::Contains, "sport", Action::Favorite);
    rule.case_sensitive = true;
    let rs = RuleSet::compile(&[rule]).unwrap();
    let mut e = entry("Sky SPORTS", None);
    assert!(!rs.apply(&mut e).favorite);
}

#[test]
fn regroup_and_renumber() {
    let rs = RuleSet::compile(&[
        Rule::new(Field::Name, Match::Contains, "bbc", Action::SetGroup("UK".into())),
        Rule::new(Field::Name, Match::Equals, "BBC One", Action::SetNumber(101)),
    ])
    .unwrap();
    let mut e = entry("BBC One", Some("Misc"));
    rs.apply(&mut e);
    assert_eq!(e.group.as_deref(), Some("UK"));
    assert_eq!(e.number, Some(101));
}

#[test]
fn regex_rename_supports_captures() {
    let rs = RuleSet::compile(&[Rule::new(
        Field::Name,
        Match::Regex,
        r"^(\w+)\s*\|\s*(.+)$",
        Action::Rename("$2 ($1)".into()),
    )])
    .unwrap();
    let mut e = entry("US | CNN", None);
    rs.apply(&mut e);
    assert_eq!(e.name, "CNN (US)");
}

#[test]
fn strip_removes_only_the_match() {
    let rs = RuleSet::compile(&[presets::strip_quality_suffix()]).unwrap();
    let mut e = entry("Discovery Channel FHD", None);
    rs.apply(&mut e);
    assert_eq!(e.name, "Discovery Channel");
}

#[test]
fn strip_does_not_touch_mid_name_words() {
    let rs = RuleSet::compile(&[presets::strip_quality_suffix()]).unwrap();
    // "HD" here is not a trailing tag, so the anchored pattern must leave it alone.
    let mut e = entry("HD Cinema Classics", None);
    rs.apply(&mut e);
    assert_eq!(e.name, "HD Cinema Classics");
}

#[test]
fn hide_adult_preset_fires_on_group() {
    let rs = RuleSet::compile(&[presets::hide_adult()]).unwrap();
    let mut e = entry("Some Channel", Some("XXX | Adult"));
    assert!(rs.apply(&mut e).hidden);

    let mut ok = entry("Kids TV", Some("Children"));
    assert!(!rs.apply(&mut ok).hidden);
}

#[test]
fn hide_247_preset_matches_common_spellings() {
    let rs = RuleSet::compile(&[presets::hide_247()]).unwrap();
    for name in ["24/7 Friends", "24-7 Movies", "24 7 Comedy"] {
        let mut e = entry(name, None);
        assert!(rs.apply(&mut e).hidden, "should hide {name}");
    }
    let mut keep = entry("Channel 24", None);
    assert!(!rs.apply(&mut keep).hidden);
}

#[test]
fn rules_apply_in_order_and_compose() {
    let rs = RuleSet::compile(&[
        presets::strip_quality_suffix(),
        Rule::new(Field::Name, Match::Equals, "BBC One", Action::Favorite),
    ])
    .unwrap();
    let mut e = entry("BBC One HD", None);
    let out = rs.apply(&mut e);
    assert_eq!(e.name, "BBC One");
    // The second rule sees the renamed value.
    assert!(out.favorite);
    assert_eq!(out.fired.len(), 2);
}

#[test]
fn disabled_rules_do_nothing() {
    let mut rule = presets::hide_adult();
    rule.enabled = false;
    let rs = RuleSet::compile(&[rule]).unwrap();
    let mut e = entry("X", Some("XXX"));
    assert!(!rs.apply(&mut e).hidden);
}

#[test]
fn an_invalid_regex_is_a_clear_error_not_a_panic() {
    let err = RuleSet::compile(&[Rule::new(
        Field::Name,
        Match::Regex,
        "([unclosed",
        Action::Hide,
    )])
    .unwrap_err();
    assert!(matches!(err, CoreError::Rule { .. }));
}

#[test]
fn missing_optional_fields_never_match() {
    let rs = RuleSet::compile(&[Rule::new(
        Field::Language,
        Match::Contains,
        "en",
        Action::Hide,
    )])
    .unwrap();
    let mut e = entry("No language set", None);
    assert!(!rs.apply(&mut e).hidden);
}

#[test]
fn a_new_rule_is_named_after_its_field_and_pattern() {
    let rule = Rule::new(Field::Name, Match::Contains, "Sport", Action::Hide);
    assert_eq!(rule.id, "name-sport");
    assert!(rule.enabled && !rule.case_sensitive);
    assert_eq!(presets::all().len(), 3);
}

#[test]
fn a_plain_strip_ignores_case_and_closes_the_gap() {
    let rs = RuleSet::compile(&[Rule::new(Field::Name, Match::Contains, "vip", Action::StripFromName)]).unwrap();
    let mut e = entry("VIP  CNN vip News", None);
    let out = rs.apply(&mut e);
    assert_eq!(e.name, "CNN News");
    assert!(out.renamed);
    assert_eq!(out.fired, vec!["name-vip"]);
}

#[test]
fn a_case_sensitive_strip_removes_only_the_exact_text() {
    let mut rule = Rule::new(Field::Name, Match::Contains, "HD", Action::StripFromName);
    rule.case_sensitive = true;
    let rs = RuleSet::compile(&[rule]).unwrap();
    let mut e = entry("BBC HD hd", None);
    rs.apply(&mut e);
    assert_eq!(e.name, "BBC hd");
}

#[test]
fn starts_and_ends_with_compare_the_ends() {
    let rs = RuleSet::compile(&[
        Rule::new(Field::Url, Match::StartsWith, "HTTPS://", Action::Favorite),
        Rule::new(Field::Name, Match::EndsWith, "news", Action::Hide),
    ])
    .unwrap();
    let mut e = entry("World News", None);
    let out = rs.apply(&mut e);
    assert!(out.favorite && out.hidden);
    assert!(!out.renamed && !out.regrouped);
    assert_eq!(rs.len(), 2);
    assert!(!rs.is_empty());
}

#[test]
fn the_error_names_the_bad_pattern() {
    let err = RuleSet::compile(&[Rule::new(Field::Name, Match::Regex, "a(", Action::Hide)]).unwrap_err();
    match err {
        CoreError::Rule { pattern, reason } => {
            assert_eq!(pattern, "a(");
            assert!(!reason.is_empty());
        }
        other => panic!("unexpected error {other:?}"),
    }
}
