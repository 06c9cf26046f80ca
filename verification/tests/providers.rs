use aurora_core::providers::{failed_check, playlist_verdict};

#[test]
fn a_playlist_with_entries_is_found_and_its_first_warning_kept() {
    let r = playlist_verdict(3, Some((7, "missing URL")));
    assert!(r.ok);
    assert_eq!(r.message, "Found 3 entries");
    assert_eq!(r.detail.as_deref(), Some("line 7: missing URL"));
    assert!(!r.is_trial && r.expires_at.is_none());
}

#[test]
fn an_empty_playlist_is_not_ok() {
    let r = playlist_verdict(0, None);
    assert!(!r.ok);
    assert_eq!(r.message, "That playlist is empty");
    assert_eq!(r.detail, None);
}

#[test]
fn a_failed_check_carries_its_cause() {
    let r = failed_check("Could not connect", "timed out");
    assert!(!r.ok);
    assert_eq!(r.message, "Could not connect");
    assert_eq!(r.detail.as_deref(), Some("timed out"));
}
