//! What the provider wizard reports when "check" is pressed, before anything is saved.

use vstd::prelude::*;
use crate::text::{append_str, decimal, opt_view, owned, push_decimal, string_of};

verus! {

broadcast use vstd::string::group_string_axioms;

/// The result of checking a provider.
#[derive(Debug, Clone, PartialEq, Eq)]
pub struct ValidationResult {
    pub ok: bool,
    pub message: String,
    pub detail: Option<String>,
    pub expires_at: Option<i64>,
    pub days_until_expiry: Option<i64>,
    pub max_connections: Option<u32>,
    pub active_connections: Option<u32>,
    pub is_trial: bool,
    /// True when the paste was recognised as a full Xtream URL and split up.
    pub credentials_detected: bool,
}

/// Nothing about the account is known.
pub open spec fn no_account_details(r: ValidationResult) -> bool {
    &&& r.expires_at is None
    &&& r.days_until_expiry is None
    &&& r.max_connections is None
    &&& r.active_connections is None
    &&& !r.is_trial
    &&& !r.credentials_detected
}

/// A check that failed, with the message to show and the cause behind it.
pub fn failed_check(message: &str, cause: &str) -> (r: ValidationResult)
    ensures
        !r.ok,
        r.message@ == message@,
        opt_view(r.detail) == Some(cause@),
        no_account_details(r),
{
    ValidationResult {
        ok: false,
        message: owned(message),
        detail: Some(owned(cause)),
        expires_at: None,
        days_until_expiry: None,
        max_connections: None,
        active_connections: None,
        is_trial: false,
        credentials_detected: false,
    }
}

/// The verdict on a plain playlist, where the only meaningful check is that it parses:
/// fine when it has entries, with the first parse warning (its line and message) as the
/// detail.
pub fn playlist_verdict(entries: usize, first_warning: Option<(usize, &str)>) -> (r: ValidationResult)
    ensures
        r.ok == (entries > 0),
        r.message@ == if entries > 0 {
            "Found "@ + decimal(entries as nat) + " entries"@
        } else {
            "That playlist is empty"@
        },
        opt_view(r.detail) == match first_warning {
            Some((line, m)) => Some("line "@ + decimal(line as nat) + ": "@ + m@),
            None => None,
        },
        no_account_details(r),
{
    let message = if entries > 0 {
        let mut out: Vec<char> = Vec::new();
        append_str(&mut out, "Found ");
        push_decimal(&mut out, entries as u64);
        append_str(&mut out, " entries");
        string_of(out.as_slice())
    } else {
        owned("That playlist is empty")
    };
    let detail = match first_warning {
        Some((line, m)) => {
            let mut out: Vec<char> = Vec::new();
            append_str(&mut out, "line ");
            push_decimal(&mut out, line as u64);
            append_str(&mut out, ": ");
            append_str(&mut out, m);
            Some(string_of(out.as_slice()))
        },
        None => None,
    };
    ValidationResult {
        ok: entries > 0,
        message,
        detail,
        expires_at: None,
        days_until_expiry: None,
        max_connections: None,
        active_connections: None,
        is_trial: false,
        credentials_detected: false,
    }
}

} // verus!
