use aurora_core::fsname::{recording_filename, safe_filename, MAX_STEM_LEN};

#[test]
fn reserved_characters_become_separators_not_deletions() {
    assert_eq!(safe_filename("Ratched: Season 1"), "Ratched Season 1");
    assert_eq!(safe_filename("Who? What!"), "Who What!");
    assert_eq!(safe_filename("AC/DC Live"), "AC DC Live");
}

#[test]
fn runs_of_whitespace_collapse() {
    assert_eq!(safe_filename("A  ::  B"), "A B");
}

#[test]
fn control_characters_are_removed() {
    assert_eq!(safe_filename("News\u{7}at\u{1}Ten"), "News at Ten");
}

#[test]
fn trailing_dots_and_spaces_are_stripped() {
    // Windows would open "Show" when you asked for "Show..." — better not to create
    // a name whose meaning changes on the way to disk.
    assert_eq!(safe_filename("Show..."), "Show");
    assert_eq!(safe_filename("Show   "), "Show");
    assert_eq!(safe_filename(" .Show. "), "Show");
}

#[test]
fn reserved_device_names_are_escaped() {
    assert_eq!(safe_filename("CON"), "CON_");
    assert_eq!(safe_filename("nul"), "nul_");
    // Reserved even with an extension attached.
    assert_eq!(safe_filename("COM1.ts"), "COM1.ts_");
    // Not reserved when it is only part of a longer name.
    assert_eq!(safe_filename("Contact"), "Contact");
}

#[test]
fn a_title_of_only_illegal_characters_still_produces_a_name() {
    assert_eq!(safe_filename("///"), "untitled");
    assert_eq!(safe_filename(""), "untitled");
    assert_eq!(safe_filename("   "), "untitled");
}

#[test]
fn long_titles_are_truncated_on_a_character_boundary() {
    let out = safe_filename(&"é".repeat(400));
    assert_eq!(out.chars().count(), MAX_STEM_LEN);
}

#[test]
fn non_ascii_titles_survive() {
    assert_eq!(safe_filename("Züri Brännt"), "Züri Brännt");
    assert_eq!(safe_filename("日本のニュース"), "日本のニュース");
}

#[test]
fn episode_numbers_disambiguate_recordings() {
    assert_eq!(
        recording_filename("The Show", Some(2), Some(7), 1_700_000_000),
        "The Show - S02E07 - 1700000000.ts"
    );
    assert_eq!(
        recording_filename("The News", None, None, 1_700_000_000),
        "The News - 1700000000.ts"
    );
}

#[test]
fn two_airings_of_the_same_untitled_programme_do_not_collide() {
    let a = recording_filename("Film", None, None, 100);
    let b = recording_filename("Film", None, None, 200);
    assert_ne!(a, b);
}

#[test]
fn every_name_is_one_windows_accepts() {
    for title in ["a<b>c:d\"e/f\\g|h?i*j", " . ", "CON.", "trailing dots...", "tab\there", "\u{1}"] {
        let name = safe_filename(title);
        assert!(!name.is_empty(), "{title:?}");
        assert!(name.chars().count() <= MAX_STEM_LEN + 1, "{title:?}");
        assert!(
            !name.chars().any(|c| "<>:\"/\\|?*".contains(c) || (c as u32) < 0x20),
            "{title:?} gave {name:?}"
        );
        let last = name.chars().last().unwrap();
        assert!(last != '.' && !last.is_whitespace(), "{title:?} gave {name:?}");
    }
}

#[test]
fn a_name_is_tidy_at_both_ends_and_never_a_device() {
    for title in [" .. con .. ", "...", "CON", "com1", "a  b", "  Lpt9.ts  ", ". x .", "aux:"] {
        let name = safe_filename(title);
        assert!(!name.is_empty());
        let first = name.chars().next().unwrap();
        let last = name.chars().last().unwrap();
        assert!(first != '.' && !first.is_whitespace(), "{name:?}");
        assert!(last != '.' && !last.is_whitespace(), "{name:?}");
        assert!(!name.contains("  "), "{name:?}");
        let upper = name.to_ascii_uppercase();
        let reserved = ["CON", "PRN", "AUX", "NUL"].contains(&upper.as_str())
            || ((upper.starts_with("COM") || upper.starts_with("LPT"))
                && upper.len() == 4
                && ('1'..='9').contains(&upper.chars().nth(3).unwrap()));
        assert!(!reserved, "{name:?}");
    }
}
