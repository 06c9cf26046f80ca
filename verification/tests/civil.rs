use aurora_core::civil::start_of_local_day;

#[test]
fn the_day_boundary_is_local_not_utc() {
    // Whatever the host offset, midnight must land on a local day boundary.
    let now = 1_705_320_000; // 2024-01-15T12:00:00Z
    for offset in [0i64, 3_600, -18_000, 19_800, 50_400, -43_200] {
        let start = start_of_local_day(now, offset);
        assert!(start <= now);
        assert!(now - start < 86_400);
        assert_eq!((start + offset).rem_euclid(86_400), 0, "not a local midnight");
    }
}

#[test]
fn a_zone_ahead_of_utc_starts_its_day_earlier_in_utc() {
    let now = 1_705_320_000; // 2024-01-15T12:00:00Z
    assert_eq!(start_of_local_day(now, 0), 1_705_276_800);
    // UTC+1: local midnight is 23:00 UTC the evening before.
    assert_eq!(start_of_local_day(now, 3_600), 1_705_273_200);
    // UTC-5: 07:00 local, so midnight local was 05:00 UTC.
    assert_eq!(start_of_local_day(now, -18_000), 1_705_294_800);
    // Before the epoch, the day still starts at a midnight.
    assert_eq!(start_of_local_day(-1, 0), -86_400);
}
