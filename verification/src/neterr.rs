//! Human-facing failure classification for anything that talks to a provider.

use vstd::prelude::*;
use crate::text::{ascii_lower, chars_of, contains, contains_str, lower_all, owned};

verus! {

broadcast use vstd::string::group_string_axioms;

#[derive(Debug, Clone, Copy, PartialEq, Eq)]
pub enum ErrorCode {
    Dns,
    Tls,
    Unauthorized,
    Forbidden,
    NotFound,
    RateLimited,
    ServerError,
    ConnectionLimit,
    Timeout,
    UnsupportedCodec,
    DrmProtected,
    Unknown,
}

#[derive(Debug, Clone, Copy, PartialEq, Eq)]
pub enum ErrorAction {
    Retry,
    TryAnotherSource,
    ReportBroken,
    OpenSettings,
}

/// A network failure translated for humans: what happened, the likely cause, and what
/// the user can do about it.
#[derive(Debug, Clone, PartialEq, Eq)]
pub struct NetFailure {
    pub code: ErrorCode,
    pub message: String,
    pub cause: String,
    pub actions: Vec<ErrorAction>,
    pub retryable: bool,
}

/// Which of the recognised failures a lower-cased message describes, tried in order;
/// the answer is the code and the index of its wording.
pub open spec fn spec_kind(l: Seq<char>) -> (ErrorCode, int) {
    if contains(l, "401"@) || contains(l, "unauthorized"@) {
        (ErrorCode::Unauthorized, 0)
    } else if contains(l, "403"@) || contains(l, "forbidden"@) {
        (ErrorCode::Forbidden, 1)
    } else if contains(l, "404"@) || contains(l, "not found"@) {
        (ErrorCode::NotFound, 2)
    } else if contains(l, "429"@) {
        (ErrorCode::RateLimited, 3)
    } else if contains(l, "connection limit"@) || contains(l, "max connections"@) {
        (ErrorCode::ConnectionLimit, 4)
    } else if contains(l, "refused"@) {
        (ErrorCode::Dns, 5)
    } else if contains(l, "timed out"@) || contains(l, "timeout"@) {
        (ErrorCode::Timeout, 6)
    } else if contains(l, "getaddrinfo"@) || contains(l, "name or service not known"@) || contains(
        l,
        "dns"@,
    ) {
        (ErrorCode::Dns, 7)
    } else if contains(l, "ssl"@) || contains(l, "tls"@) || contains(l, "certificate"@) {
        (ErrorCode::Tls, 8)
    } else if contains(l, "5"@) && (contains(l, "bad gateway"@) || contains(l, "502"@) || contains(
        l,
        "503"@,
    ) || contains(l, "500"@)) {
        (ErrorCode::ServerError, 9)
    } else if contains(l, "encrypted"@) || contains(l, "drm"@) || contains(l, "widevine"@) {
        (ErrorCode::DrmProtected, 10)
    } else if contains(l, "codec"@) || contains(l, "no video"@) || contains(l, "unsupported"@) {
        (ErrorCode::UnsupportedCodec, 11)
    } else {
        (ErrorCode::Unknown, 12)
    }
}

pub open spec fn messages() -> Seq<&'static str> {
    seq![
        "Your provider rejected these credentials",
        "Your provider refused this stream",
        "This stream no longer exists",
        "Your provider is rate-limiting this connection",
        "You're already watching on another device",
        "Nothing is listening at that address",
        "The stream didn't respond in time",
        "Couldn't reach your provider",
        "The secure connection failed",
        "Your provider's server had an error",
        "This stream is DRM-protected",
        "This stream uses a format that couldn't be decoded",
        "This channel didn't respond",
    ]
}

pub open spec fn causes() -> Seq<&'static str> {
    seq![
        "The username or password may have changed, or the line may have expired.",
        "This often means the line has hit its connection limit, or this channel is not part of your package.",
        "The provider has probably removed or renumbered it. A library refresh may fix it.",
        "Too many requests in a short time. Waiting a moment usually clears it.",
        "This subscription allows a limited number of simultaneous streams.",
        "The server refused the connection. The address or port may be wrong, or the provider may be down.",
        "The server may be overloaded, or your connection may be unstable.",
        "The server name didn't resolve. Check your internet connection or DNS.",
        "The provider's certificate could not be verified.",
        "This is on their end. It usually resolves by itself.",
        "Aurora TV does not decrypt protected streams and cannot play this.",
        "The codec may be unsupported, or the stream may be corrupt.",
        "It may be temporarily offline.",
    ]
}

/// Bad credentials, DRM and a vanished stream are not worth retrying.
pub open spec fn spec_retryable(code: ErrorCode) -> bool {
    !(code == ErrorCode::DrmProtected || code == ErrorCode::Unauthorized || code
        == ErrorCode::NotFound)
}

/// Retry when worth it, always another source, settings for credentials and connection
/// limits, a report for dead or undecodable streams.
pub open spec fn spec_actions(code: ErrorCode) -> Seq<ErrorAction> {
    let a = if spec_retryable(code) {
        seq![ErrorAction::Retry]
    } else {
        Seq::empty()
    };
    let a = a.push(ErrorAction::TryAnotherSource);
    let a = if code == ErrorCode::Unauthorized || code == ErrorCode::ConnectionLimit {
        a.push(ErrorAction::OpenSettings)
    } else {
        a
    };
    if code == ErrorCode::NotFound || code == ErrorCode::UnsupportedCodec {
        a.push(ErrorAction::ReportBroken)
    } else {
        a
    }
}

fn kind(l: &Vec<char>) -> (r: (ErrorCode, usize))
    ensures
        (r.0, r.1 as int) == spec_kind(l@),
{
    if contains_str(l, "401") || contains_str(l, "unauthorized") {
        (ErrorCode::Unauthorized, 0)
    } else if contains_str(l, "403") || contains_str(l, "forbidden") {
        (ErrorCode::Forbidden, 1)
    } else if contains_str(l, "404") || contains_str(l, "not found") {
        (ErrorCode::NotFound, 2)
    } else if contains_str(l, "429") {
        (ErrorCode::RateLimited, 3)
    } else if contains_str(l, "connection limit") || contains_str(l, "max connections") {
        (ErrorCode::ConnectionLimit, 4)
    } else if contains_str(l, "refused") {
        (ErrorCode::Dns, 5)
    } else if contains_str(l, "timed out") || contains_str(l, "timeout") {
        (ErrorCode::Timeout, 6)
    } else if contains_str(l, "getaddrinfo") || contains_str(l, "name or service not known")
        || contains_str(l, "dns") {
        (ErrorCode::Dns, 7)
    } else if contains_str(l, "ssl") || contains_str(l, "tls") || contains_str(l, "certificate") {
        (ErrorCode::Tls, 8)
    } else if contains_str(l, "5") && (contains_str(l, "bad gateway") || contains_str(l, "502")
        || contains_str(l, "503") || contains_str(l, "500")) {
        (ErrorCode::ServerError, 9)
    } else if contains_str(l, "encrypted") || contains_str(l, "drm") || contains_str(l, "widevine") {
        (ErrorCode::DrmProtected, 10)
    } else if contains_str(l, "codec") || contains_str(l, "no video") || contains_str(
        l,
        "unsupported",
    ) {
        (ErrorCode::UnsupportedCodec, 11)
    } else {
        (ErrorCode::Unknown, 12)
    }
}

impl NetFailure {
    /// Map a raw mpv/network failure onto something a person can act on.
    ///
    /// Failures are distinguished rather than collapsed into "playback failed".
    pub fn classify(raw: &str) -> (r: Self)
        ensures
            ({
                let (code, idx) = spec_kind(ascii_lower(raw@));
                &&& r.code == code
                &&& r.message@ == messages()[idx]@
                &&& r.cause@ == causes()[idx]@
                &&& r.retryable == spec_retryable(code)
                &&& r.actions@ == spec_actions(code)
            }),
    {
        let l = lower_all(&chars_of(raw));
        let (code, idx) = kind(&l);
        let message_table: [&str; 13] = [
            "Your provider rejected these credentials",
            "Your provider refused this stream",
            "This stream no longer exists",
            "Your provider is rate-limiting this connection",
            "You're already watching on another device",
            "Nothing is listening at that address",
            "The stream didn't respond in time",
            "Couldn't reach your provider",
            "The secure connection failed",
            "Your provider's server had an error",
            "This stream is DRM-protected",
            "This stream uses a format that couldn't be decoded",
            "This channel didn't respond",
        ];
        let cause_table: [&str; 13] = [
            "The username or password may have changed, or the line may have expired.",
            "This often means the line has hit its connection limit, or this channel is not part of your package.",
            "The provider has probably removed or renumbered it. A library refresh may fix it.",
            "Too many requests in a short time. Waiting a moment usually clears it.",
            "This subscription allows a limited number of simultaneous streams.",
            "The server refused the connection. The address or port may be wrong, or the provider may be down.",
            "The server may be overloaded, or your connection may be unstable.",
            "The server name didn't resolve. Check your internet connection or DNS.",
            "The provider's certificate could not be verified.",
            "This is on their end. It usually resolves by itself.",
            "Aurora TV does not decrypt protected streams and cannot play this.",
            "The codec may be unsupported, or the stream may be corrupt.",
            "It may be temporarily offline.",
        ];
        assert(message_table@ =~= messages());
        assert(cause_table@ =~= causes());

        let retryable = !(matches!(code, ErrorCode::DrmProtected) || matches!(code, ErrorCode::Unauthorized)
            || matches!(code, ErrorCode::NotFound));

        let mut actions: Vec<ErrorAction> = Vec::new();
        if retryable {
            actions.push(ErrorAction::Retry);
        }
        actions.push(ErrorAction::TryAnotherSource);
        if matches!(code, ErrorCode::Unauthorized) || matches!(code, ErrorCode::ConnectionLimit) {
            actions.push(ErrorAction::OpenSettings);
        }
        if matches!(code, ErrorCode::NotFound) || matches!(code, ErrorCode::UnsupportedCodec) {
            actions.push(ErrorAction::ReportBroken);
        }
        assert(actions@ =~= spec_actions(code));
        Self {
            code,
            message: owned(message_table[idx]),
            cause: owned(cause_table[idx]),
            actions,
            retryable,
        }
    }
}

/// Every classified failure offers something to do, and retrying is offered exactly
/// when the failure is retryable.
pub proof fn lemma_every_failure_has_an_action(code: ErrorCode)
    ensures
        spec_actions(code).len() > 0,
        spec_actions(code).contains(ErrorAction::TryAnotherSource),
        spec_actions(code).contains(ErrorAction::Retry) <==> spec_retryable(code),
{
    let a = spec_actions(code);
    if spec_retryable(code) {
        assert(a[0] == ErrorAction::Retry);
        assert(a[1] == ErrorAction::TryAnotherSource);
    } else {
        assert(a[0] == ErrorAction::TryAnotherSource);
        assert forall|i: int| 0 <= i < a.len() implies a[i] != ErrorAction::Retry by {
        }
    }
}

} // verus!
