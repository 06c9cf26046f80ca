use aurora_core::neterr::{ErrorAction, ErrorCode, NetFailure};

#[test]
fn distinguishes_auth_from_connection_limit() {
    assert_eq!(
        NetFailure::classify("HTTP 401").code,
        ErrorCode::Unauthorized
    );
    assert_eq!(
        NetFailure::classify("provider reports max connections reached").code,
        ErrorCode::ConnectionLimit
    );
}

#[test]
fn drm_is_never_retryable_and_says_so_plainly() {
    let e = NetFailure::classify("stream is encrypted (widevine)");
    assert_eq!(e.code, ErrorCode::DrmProtected);
    assert!(!e.retryable);
    assert!(!e.actions.contains(&ErrorAction::Retry));
    assert!(e.cause.contains("does not decrypt"));
}

#[test]
fn bad_credentials_offer_settings_not_retry() {
    let e = NetFailure::classify("401 Unauthorized");
    assert!(!e.retryable);
    assert!(e.actions.contains(&ErrorAction::OpenSettings));
}

#[test]
fn dead_streams_can_be_reported() {
    let e = NetFailure::classify("HTTP 404 not found");
    assert_eq!(e.code, ErrorCode::NotFound);
    assert!(e.actions.contains(&ErrorAction::ReportBroken));
}

#[test]
fn transient_failures_are_retryable() {
    for raw in [
        "connection timed out",
        "503 Service Unavailable",
        "getaddrinfo failed",
    ] {
        assert!(NetFailure::classify(raw).retryable, "{raw} should retry");
    }
}

#[test]
fn every_error_has_a_message_a_cause_and_an_action() {
    for raw in [
        "401",
        "403",
        "404",
        "429",
        "timeout",
        "tls",
        "codec",
        "gibberish",
    ] {
        let e = NetFailure::classify(raw);
        assert!(!e.message.is_empty());
        assert!(!e.cause.is_empty());
        assert!(!e.actions.is_empty(), "{raw} produced no actions");
    }
}
