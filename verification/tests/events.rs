use aurora_core::events::wire_event_name;

fn tauri_would_accept(event: &str) -> bool {
    event
        .chars()
        .all(|c| c.is_alphanumeric() || c == '-' || c == '/' || c == ':' || c == '_')
}

const EVENTS: &[&str] = &[
    "player.state",
    "ingest.progress",
    "update.available",
    "update.download",
    "dvr.tick",
    "metadata.progress",
    "metadata.done",
    "artwork.progress",
];

#[test]
fn the_names_the_app_uses_are_not_ones_tauri_accepts() {
    for event in EVENTS {
        assert!(!tauri_would_accept(event));
    }
}

#[test]
fn every_event_survives_translation() {
    for event in EVENTS {
        let wire = wire_event_name(event);
        assert!(tauri_would_accept(&wire), "{event} still cannot be emitted as {wire}");
    }
}

#[test]
fn translation_matches_what_the_ui_listens_for() {
    assert_eq!(wire_event_name("player.state"), "player:state");
    assert_eq!(wire_event_name("update.download"), "update:download");
    assert_eq!(wire_event_name("plain"), "plain");
    assert_eq!(wire_event_name("a.b.c"), "a:b:c");
}
