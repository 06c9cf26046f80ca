use aurora_core::version::{bump_for, Bump, Version};

#[test]
fn a_plain_triple_parses() {
    assert_eq!(Version::parse("0.1.0"), Some(Version::new(0, 1, 0)));
    assert_eq!(Version::parse("12.34.56"), Some(Version::new(12, 34, 56)));
}

#[test]
fn a_tag_keeps_its_v_out_of_the_numbers() {
    assert_eq!(Version::parse("v0.2.0"), Some(Version::new(0, 2, 0)));
    assert_eq!(Version::parse("V0.2.0"), Some(Version::new(0, 2, 0)));
    assert_eq!(Version::parse("  v1.0.0\n"), Some(Version::new(1, 0, 0)));
}

#[test]
fn anything_that_is_not_three_numbers_is_rejected() {
    for raw in [
        "",
        "v",
        "1",
        "1.2",
        "1.2.3.4",
        "1.2.x",
        "1..2",
        "a.b.c",
        "1.2.-3",
        "1.2.+3",
        "0.2.0-rc1",
        "0.2.0+build7",
    ] {
        assert_eq!(Version::parse(raw), None, "{raw:?} should not parse");
    }
}

#[test]
fn ordering_is_numeric_not_lexicographic() {
    assert!(Version::parse("0.10.0").unwrap() > Version::parse("0.9.0").unwrap());
    assert!(Version::parse("0.2.0").unwrap() > Version::parse("0.1.9").unwrap());
    assert!(Version::parse("1.0.0").unwrap() > Version::parse("0.99.99").unwrap());
    assert!(Version::parse("0.1.10").unwrap() > Version::parse("0.1.9").unwrap());
    assert_eq!(
        Version::parse("0.1.0").unwrap(),
        Version::parse("v0.1.0").unwrap()
    );
}

#[test]
fn a_patch_moves_only_the_last_number() {
    assert_eq!(
        Version::new(0, 1, 0).bumped(Bump::Patch),
        Version::new(0, 1, 1)
    );
}

#[test]
fn a_feature_moves_the_middle_number_and_clears_the_last() {
    assert_eq!(
        Version::new(0, 1, 7).bumped(Bump::Minor),
        Version::new(0, 2, 0)
    );
}

#[test]
fn a_feature_anywhere_in_the_batch_wins() {
    let subjects = [
        "fix(settings): wire Add provider to the wizard",
        "feat(dvr): record a whole series",
        "ci: cache the bundler",
    ];
    assert_eq!(bump_for(&subjects), Bump::Minor);
}

#[test]
fn fixes_and_chores_are_patches() {
    assert_eq!(bump_for(&["fix: stop the crash"]), Bump::Patch);
    assert_eq!(bump_for(&["ci: build faster"]), Bump::Patch);
    assert_eq!(bump_for(&["docs: explain the updater"]), Bump::Patch);
    assert_eq!(
        bump_for(&["refactor(db): split the repo module"]),
        Bump::Patch
    );
}

#[test]
fn a_build_with_nothing_conventional_in_it_still_gets_a_number() {
    assert_eq!(bump_for(&["merged main", "wip"]), Bump::Patch);
    assert_eq!(bump_for(&[]), Bump::Patch);
}

#[test]
fn the_word_feature_in_prose_is_not_a_feature_commit() {
    assert_eq!(
        bump_for(&["fix: add the feature flag we forgot"]),
        Bump::Patch
    );
    assert_eq!(
        bump_for(&["docs: describe the feat of strength"]),
        Bump::Patch
    );
    assert_eq!(bump_for(&["defeat the flake"]), Bump::Patch);
}

#[test]
fn a_scope_does_not_hide_the_type() {
    assert_eq!(bump_for(&["feat(playlist): bulk edit"]), Bump::Minor);
    assert_eq!(bump_for(&["feat(a-b/c 1): thing"]), Bump::Minor);
}

#[test]
fn a_breaking_change_is_a_feature_not_a_major() {
    assert_eq!(bump_for(&["feat!: rename every command"]), Bump::Minor);
    assert_eq!(bump_for(&["fix(db)!: drop the legacy column"]), Bump::Minor);
    assert_eq!(
        Version::new(0, 4, 2).bumped(bump_for(&["feat!: x"])),
        Version::new(0, 5, 0)
    );
}

#[test]
fn a_bracket_in_prose_is_not_a_scope() {
    // The commit type is private; the bump it decides shows the same thing.
    assert_eq!(bump_for(&["feat(unclosed: thing"]), Bump::Patch);
    assert_eq!(bump_for(&["we (finally) shipped: the thing"]), Bump::Patch);
}

#[test]
fn display_round_trips_through_parse() {
    for v in [
        Version::new(0, 0, 0),
        Version::new(0, 1, 0),
        Version::new(1, 20, 300),
    ] {
        assert_eq!(Version::parse(&v.to_string()), Some(v));
    }
}

#[test]
fn the_largest_numbers_print_and_parse() {
    let v = Version::new(u32::MAX, 0, 4_000_000_000);
    assert_eq!(v.to_string(), "4294967295.0.4000000000");
    assert_eq!(Version::parse("4294967296.0.0"), None);
}

#[test]
fn versions_order_by_their_numbers() {
    assert!(Version::parse("0.10.0") > Version::parse("0.9.0"));
    assert_eq!(Version::parse("0.1.0"), Version::parse("v0.1.0"));
    assert!(Version::parse("nonsense") < Version::parse("0.0.0"));
    assert!(Version::new(1, 2, 3) < Version::new(1, 2, 4));
    assert!(Version::new(2, 0, 0) > Version::new(1, 99, 99));
    assert_eq!(Version::new(1, 2, 3).partial_cmp(&Version::new(1, 2, 3)), Some(std::cmp::Ordering::Equal));
}

#[test]
fn a_breaking_marker_after_a_scope_is_a_feature() {
    assert_eq!(bump_for(&["fix(db)!: x"]), Bump::Minor);
    assert_eq!(bump_for(&["FEAT(ui): y"]), Bump::Minor);
    assert_eq!(bump_for(&["fix: add the feature flag we forgot"]), Bump::Patch);
    assert_eq!(bump_for(&["feat(unclosed: z"]), Bump::Patch);
    assert_eq!(bump_for(&[]), Bump::Patch);
}
