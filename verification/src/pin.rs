//! PIN hashing for profile and parental locks.
//!
//! A four-digit PIN has ten thousand possibilities. Argon2 makes each guess expensive
//! enough that guessing at the keypad is hopeless, and means the database never holds
//! the PIN itself. It does **not** meaningfully protect against someone who copies the
//! database file: this is a lock that keeps a nine-year-old out of the horror section,
//! not a security boundary. Attempt throttling is what actually limits guessing.

use vstd::prelude::*;
use argon2::password_hash::{PasswordHash, PasswordHasher, PasswordVerifier, SaltString};
use argon2::Argon2;
use crate::text::{all_digits, chars_of, is_digit};

verus! {

broadcast use vstd::string::group_string_axioms;

#[derive(Debug, Clone, PartialEq, Eq)]
pub enum PinError {
    Malformed,
    Hash(String),
    Entropy(String),
}

pub const MIN_LENGTH: usize = 4;
pub const MAX_LENGTH: usize = 8;

/// Four to eight ASCII digits.
pub open spec fn spec_valid_shape(pin: Seq<char>) -> bool {
    MIN_LENGTH <= pin.len() <= MAX_LENGTH && all_digits(pin)
}

/// Reject anything that is not a plausible PIN before it reaches the hasher.
pub fn is_valid_shape(pin: &str) -> (r: bool)
    ensures
        r == spec_valid_shape(pin@),
{
    let v = chars_of(pin);
    if v.len() < MIN_LENGTH || v.len() > MAX_LENGTH {
        return false;
    }
    let mut i: usize = 0;
    while i < v.len()
        invariant
            i <= v.len(),
            v@ == pin@,
            forall|k: int| 0 <= k < i ==> crate::text::is_ascii_digit(#[trigger] v@[k]),
        decreases v.len() - i,
    {
        if !is_digit(v[i]) {
            assert(!crate::text::is_ascii_digit(pin@[i as int]));
            return false;
        }
        i += 1;
    }
    true
}

#[verifier::external_type_specification]
#[verifier::external_body]
pub struct ExSaltString(SaltString);

/// Whether Argon2 accepts `pin` against the PHC string `stored`.
pub uninterp spec fn argon2_accepts(pin: Seq<char>, stored: Seq<char>) -> bool;

/// `getrandom::fill` on sixteen bytes, straight from the operating system.
///
/// Trusted: the contract claims only that success yields sixteen bytes.
#[verifier::external_body]
fn os_random() -> (r: Result<Vec<u8>, String>)
    ensures
        r matches Ok(v) ==> v@.len() == 16,
{
    let mut raw = [0u8; 16];
    match getrandom::fill(&mut raw) {
        Ok(()) => Ok(raw.to_vec()),
        Err(e) => Err(e.to_string()),
    }
}

/// `SaltString::encode_b64`.
///
/// Trusted: nothing is claimed of the salt; the call is one that can fail.
#[verifier::external_body]
fn encode_salt(raw: &[u8]) -> (r: Result<SaltString, String>) {
    SaltString::encode_b64(raw).map_err(|e| e.to_string())
}

/// `Argon2::default().hash_password(pin, salt)`, as its PHC string.
///
/// Trusted: the call can fail; the one thing claimed of a string it produces is what
/// `PasswordVerifier` is for — recomputing the hash of the same PIN with the salt and
/// parameters the string records gives the output it records, so Argon2 accepts the PIN
/// against it.
#[verifier::external_body]
fn argon2_hash(pin: &str, salt: &SaltString) -> (r: Result<String, String>)
    ensures
        r matches Ok(h) ==> argon2_accepts(pin@, h@),
{
    Argon2::default()
        .hash_password(pin.as_bytes(), salt)
        .map(|h| h.to_string())
        .map_err(|e| e.to_string())
}

/// `PasswordHash::new(stored)` then `Argon2::default().verify_password(pin, ..)`.
///
/// Trusted: the contract names the answer; a stored string that does not parse is
/// never accepted.
#[verifier::external_body]
fn argon2_verify(pin: &str, stored: &str) -> (r: bool)
    ensures
        r == argon2_accepts(pin@, stored@),
{
    match PasswordHash::new(stored) {
        Ok(parsed) => Argon2::default().verify_password(pin.as_bytes(), &parsed).is_ok(),
        Err(_) => false,
    }
}

/// Hash a PIN with a fresh random salt. A malformed PIN is refused before anything is
/// drawn or hashed; otherwise the outcome is the hash, or why randomness or hashing
/// failed.
pub fn hash(pin: &str) -> (r: Result<String, PinError>)
    ensures
        !spec_valid_shape(pin@) <==> r == Err::<String, PinError>(PinError::Malformed),
        r matches Ok(h) ==> argon2_accepts(pin@, h@),
{
    if !is_valid_shape(pin) {
        return Err(PinError::Malformed);
    }
    let raw = match os_random() {
        Ok(v) => v,
        Err(e) => return Err(PinError::Entropy(e)),
    };
    let salt = match encode_salt(raw.as_slice()) {
        Ok(s) => s,
        Err(e) => return Err(PinError::Hash(e)),
    };
    match argon2_hash(pin, &salt) {
        Ok(h) => Ok(h),
        Err(e) => Err(PinError::Hash(e)),
    }
}

/// Check a PIN against a stored hash. A malformed stored hash verifies as `false`
/// rather than erroring, so a corrupted row locks the profile instead of opening it.
pub fn verify(pin: &str, stored_hash: &str) -> (r: bool)
    ensures
        r == argon2_accepts(pin@, stored_hash@),
{
    argon2_verify(pin, stored_hash)
}

} // verus!
