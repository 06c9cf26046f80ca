use aurora_core::sources::{rank, Health, COOLDOWN_STEP_SECS, MAX_COOLDOWN_SECS};

const NOW: i64 = 1_760_000_000;

fn fresh(priority: i64) -> Health {
    Health {
        priority,
        ..Default::default()
    }
}

fn failed(priority: i64, fails: u32, ago: i64) -> Health {
    Health {
        priority,
        fail_count: fails,
        last_fail_at: Some(NOW - ago),
        last_ok_at: None,
    }
}

#[test]
fn priority_decides_between_healthy_sources() {
    assert!(rank(&fresh(0), NOW) < rank(&fresh(1), NOW));
    assert!(rank(&fresh(1), NOW) < rank(&fresh(2), NOW));
}

#[test]
fn a_source_that_just_failed_goes_last_even_if_it_is_preferred() {
    let preferred_but_broken = failed(0, 1, 5);
    let backup = fresh(9);
    assert!(rank(&backup, NOW) < rank(&preferred_but_broken, NOW));
}

#[test]
fn a_failure_is_never_permanent() {
    let long_ago = failed(0, 3, 24 * 3600);
    assert!(!long_ago.cooling_down(NOW));
    assert!(rank(&long_ago, NOW) < rank(&fresh(9), NOW));
}

#[test]
fn repeated_failures_wait_longer_but_not_for_ever() {
    assert_eq!(failed(0, 1, 0).cooldown_secs(), COOLDOWN_STEP_SECS);
    assert_eq!(failed(0, 3, 0).cooldown_secs(), 3 * COOLDOWN_STEP_SECS);
    assert_eq!(failed(0, 99, 0).cooldown_secs(), MAX_COOLDOWN_SECS);
    assert!(!failed(0, 99, MAX_COOLDOWN_SECS + 1).cooling_down(NOW));
}

#[test]
fn working_once_clears_the_record() {
    let recovered = Health {
        priority: 0,
        fail_count: 4,
        last_fail_at: Some(NOW - 10),
        last_ok_at: Some(NOW - 5),
    };
    assert!(recovered.recovered());
    assert_eq!(recovered.cooldown_secs(), 0);
    assert!(!recovered.cooling_down(NOW));
    assert!(rank(&recovered, NOW) < rank(&fresh(1), NOW));
}

#[test]
fn failing_again_after_recovering_starts_a_new_cooldown() {
    let broken_again = Health {
        priority: 0,
        fail_count: 1,
        last_ok_at: Some(NOW - 600),
        last_fail_at: Some(NOW - 5),
    };
    assert!(!broken_again.recovered());
    assert!(broken_again.cooling_down(NOW));
}

#[test]
fn every_source_cooling_down_still_leaves_an_order() {
    let mut all = [failed(2, 1, 1), failed(0, 1, 1), failed(1, 1, 1)];
    all.sort_by_key(|h| rank(h, NOW));
    assert_eq!(all.map(|h| h.priority), [0, 1, 2]);
}

#[test]
fn a_clock_that_went_backwards_does_not_freeze_a_source_out() {
    let from_the_future = failed(0, 1, -3600);
    assert!(!from_the_future.cooling_down(NOW));
}

#[test]
fn a_source_that_never_failed_has_no_cooldown() {
    assert_eq!(fresh(0).cooldown_secs(), 0);
    assert!(!fresh(0).recovered());
    assert!(!fresh(0).cooling_down(NOW));
}
