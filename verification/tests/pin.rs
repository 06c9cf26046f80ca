use aurora_core::pin::{hash, is_valid_shape, verify, PinError};

#[test]
fn accepts_plausible_pins() {
    for pin in ["0000", "1234", "99999999"] {
        assert!(is_valid_shape(pin), "{pin}");
    }
}

#[test]
fn rejects_implausible_ones() {
    for pin in ["", "1", "123", "123456789", "12a4", "12 4", "١٢٣٤"] {
        assert!(!is_valid_shape(pin), "{pin:?}");
    }
}

#[test]
fn a_pin_round_trips() {
    let h = hash("1234").unwrap();
    assert!(verify("1234", &h));
}

#[test]
fn the_wrong_pin_is_rejected() {
    let h = hash("1234").unwrap();
    assert!(!verify("4321", &h));
    assert!(!verify("12345", &h));
    assert!(!verify("", &h));
}

#[test]
fn the_hash_does_not_contain_the_pin() {
    let h = hash("1234").unwrap();
    assert!(!h.contains("1234"), "{h}");
}

#[test]
fn the_same_pin_hashes_differently_each_time() {
    // Distinct salts, so two profiles with PIN 1234 do not look identical in the
    // database.
    assert_ne!(hash("1234").unwrap(), hash("1234").unwrap());
}

#[test]
fn hashing_refuses_a_malformed_pin() {
    assert!(matches!(hash("abc"), Err(PinError::Malformed)));
    assert!(matches!(hash("1"), Err(PinError::Malformed)));
}

#[test]
fn a_corrupt_stored_hash_locks_rather_than_opens() {
    for bad in ["", "not-a-hash", "$argon2id$garbage"] {
        assert!(!verify("1234", bad), "{bad:?} must not verify");
    }
}
