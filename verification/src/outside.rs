//! The trusted boundary: every call into an outside crate is made here, in a
//! small wrapper whose contract states what the crate's own source shows.
//! Nothing else in the library calls an outside crate.

use vstd::prelude::*;

verus! {

/// The view of a list of `(id, name)` pairs as plain values.
pub open spec fn pairs_view(s: Seq<(i32, String)>) -> Seq<(i32, Seq<char>)> {
    s.map_values(|p: (i32, String)| (p.0, p.1@))
}

/// The JSON text that `serde_json::to_string` produces for a list of
/// `(id, name)` pairs. The exact text is not spelled out; contracts only
/// rely on the same list giving the same text.
pub uninterp spec fn json_pairs(m: Seq<(i32, Seq<char>)>) -> Seq<char>;

/// Relies on `serde_json::to_string`: serializing a `Vec<(i32, String)>`
/// yields the JSON text for exactly that list of pairs. Failure is
/// reported as `None` (the serializer's error case).
#[verifier::external_body]
pub(crate) fn json_encode_pairs(v: &Vec<(i32, String)>) -> (r: Option<String>)
    ensures
        r matches Some(s) ==> s@ == json_pairs(pairs_view(v@)),
{
    serde_json::to_string(v).ok()
}

/// Relies on `serde_json::from_str`: parsing the JSON text that
/// `serde_json::to_string` produced for a list of pairs gives back that
/// list; text that encodes no list gives `None` or some parse result, about
/// which nothing further is assumed.
#[verifier::external_body]
pub(crate) fn json_decode_pairs(s: &str) -> (r: Option<Vec<(i32, String)>>)
    ensures
        r is None ==> forall|m: Seq<(i32, Seq<char>)>| s@ != #[trigger] json_pairs(m),
        r matches Some(v) ==> forall|m: Seq<(i32, Seq<char>)>|
            s@ == #[trigger] json_pairs(m) ==> pairs_view(v@) == m,
{
    serde_json::from_str::<Vec<(i32, String)>>(s).ok()
}

/// Whether a bcrypt hash string verifies a password. `bcrypt::verify`
/// re-derives the hash from the password and the salt embedded in the hash
/// string, so the outcome is a deterministic function of the two strings.
pub uninterp spec fn bcrypt_verifies(password: Seq<char>, hash: Seq<char>) -> bool;

/// Relies on `bcrypt::verify`; a malformed hash string, which `verify`
/// reports as an error, counts here as a failed verification.
#[verifier::external_body]
pub fn verify_password_hash(password_hash: &str, password: &str) -> (r: bool)
    ensures
        r == bcrypt_verifies(password@, password_hash@),
{
    bcrypt::verify(password, password_hash).unwrap_or(false)
}

/// Relies on `bcrypt::hash` with the crate's default cost: the salt is
/// drawn from the operating system's randomness, so which hash comes back
/// is not stated — only its fixed 60-character shape, and that
/// `bcrypt::verify` accepts it for the same password, since `verify`
/// re-derives the hash from the password and the salt and cost embedded
/// in the hash string. Failure is reported as `None`.
#[verifier::external_body]
pub(crate) fn hash_password(password: &str) -> (r: Option<String>)
    ensures
        r matches Some(h) ==> h@.len() == 60 && bcrypt_verifies(password@, h@),
{
    bcrypt::hash(password, bcrypt::DEFAULT_COST).ok()
}

/// An ASCII alphanumeric character, the alphabet CSRF tokens are drawn
/// from.
pub open spec fn is_token_char(c: char) -> bool {
    ('a' <= c && c <= 'z') || ('A' <= c && c <= 'Z') || ('0' <= c && c <= '9')
}

/// Relies on rand's `Alphanumeric` distribution via `SampleString`: a fresh
/// 32-character ASCII alphanumeric string. Nothing is assumed about which
/// of those strings comes back. If the operating system's randomness
/// source fails at the thread generator's first seeding, rand aborts the
/// process — an environmental failure outside this contract, like running
/// out of memory.
#[verifier::external_body]
pub(crate) fn generate_csrf_token() -> (r: String)
    ensures
        r@.len() == 32,
        forall|i: int| 0 <= i < r@.len() ==> is_token_char(#[trigger] r@[i]),
{
    rand::distr::SampleString::sample_string(&rand::distr::Alphanumeric, &mut rand::rng(), 32)
}

/// Whether a string has the shape of an email address, as validator's
/// HTML5-based check decides it: a deterministic predicate on the string.
pub uninterp spec fn is_valid_email(s: Seq<char>) -> bool;

/// Relies on `validator::ValidateEmail::validate_email` for `&str`, whose
/// fixed regular expressions make the outcome a function of the string
/// alone.
#[verifier::external_body]
pub(crate) fn email_is_valid(s: &str) -> (r: bool)
    ensures
        r == is_valid_email(s@),
{
    validator::ValidateEmail::validate_email(&s)
}

/// The text that `str::trim` leaves: the string with its leading and
/// trailing whitespace removed, a function of the characters alone.
pub uninterp spec fn trimmed(s: Seq<char>) -> Seq<char>;

/// Relies on `str::trim` from the standard library, which the verifier's
/// own libraries give no contract for.
#[verifier::external_body]
pub(crate) fn str_trim(s: &str) -> (r: String)
    ensures
        r@ == trimmed(s@),
{
    s.trim().to_string()
}

} // verus!
