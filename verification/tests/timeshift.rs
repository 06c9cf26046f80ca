use aurora_core::timeshift::{Budget, DEFAULT_BYTES, MAX_BYTES, MAX_SECS, MIN_BYTES, MIN_SECS};

#[test]
fn the_default_budget_is_the_one_the_spec_names() {
    let b = Budget::default();
    assert_eq!(b.bytes, 1024 * 1024 * 1024, "1 GB");
    assert_eq!(b.secs, 1800, "30 minutes");
}

#[test]
fn numbers_from_outside_are_held_to_the_documented_range() {
    assert_eq!(Budget::clamped(40 * MAX_BYTES, 600).bytes, MAX_BYTES);
    assert_eq!(Budget::clamped(1, 600).bytes, MIN_BYTES);
    assert_eq!(Budget::clamped(DEFAULT_BYTES, 0).secs, MIN_SECS);
    assert_eq!(Budget::clamped(DEFAULT_BYTES, 99 * 3600).secs, MAX_SECS);
    let b = Budget::clamped(2 * 1024 * 1024 * 1024, 1200);
    assert_eq!((b.bytes, b.secs), (2 * 1024 * 1024 * 1024, 1200));
}
