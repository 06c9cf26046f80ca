use aurora_core::failover::{Recovery, Rollover, MAX_ROLLOVERS};

#[test]
fn a_dead_url_rolls_over_to_the_next_one() {
    let mut s = Rollover::new(3, 0);
    assert_eq!(s.recover(), Recovery::Next(1));
    assert_eq!(s.current, 1);
    assert_eq!(s.rollovers, 1);
    assert_eq!(s.recover(), Recovery::Next(2));
    assert_eq!(s.recover(), Recovery::Exhausted);
    assert_eq!(s.current, 2);
}

#[test]
fn a_total_outage_stops_rather_than_spinning() {
    let mut s = Rollover::new(100, 0);
    let mut loads = 0;
    for _ in 0..(MAX_ROLLOVERS + 4) {
        if let Recovery::Next(_) = s.recover() {
            loads += 1;
        }
    }
    assert_eq!(loads, MAX_ROLLOVERS);
    assert_eq!(s.recover(), Recovery::Capped);
}

#[test]
fn a_single_url_has_nowhere_to_go() {
    let mut s = Rollover::new(1, 0);
    assert_eq!(s.recover(), Recovery::Exhausted);
    let mut none = Rollover::new(0, 0);
    assert_eq!(none.recover(), Recovery::Exhausted);
}
