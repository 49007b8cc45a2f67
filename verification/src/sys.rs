//! Trusted access to the operating system and to the identifier and clock
//! crates. Each function here makes one outside call; everything that can be
//! computed from the returned plain values is verified elsewhere.

use vstd::prelude::*;

verus! {

/// A lower-case hexadecimal digit.
pub open spec fn is_lower_hex(c: char) -> bool {
    (48 <= c as u32 && c as u32 <= 57) || (97 <= c as u32 && c as u32 <= 102)
}

/// Relies on `dirs::home_dir`: the user's home directory, if the operating
/// system reports one. The result depends on the environment, so nothing is
/// promised of it.
#[verifier::external_body]
pub(crate) fn os_home_dir() -> Option<String> {
    dirs::home_dir().map(|p| p.to_string_lossy().to_string())
}

/// Relies on `uuid::Uuid::new_v4` and its `Display` form: a fresh random
/// identifier rendered as 36 lower-case hexadecimal characters in five
/// hyphen-separated groups of 8, 4, 4, 4, and 12.
#[verifier::external_body]
pub(crate) fn new_uuid_hyphenated() -> (r: String)
    ensures
        r@.len() == 36,
        forall|i: int|
            0 <= i < 36 ==> ((i == 8 || i == 13 || i == 18 || i == 23) <==> r@[i] == '-'),
        forall|i: int| 0 <= i < 36 && r@[i] != '-' ==> is_lower_hex(r@[i]),
{
    uuid::Uuid::new_v4().to_string()
}

/// Relies on `uuid::Uuid::new_v4` and `Uuid::simple`: a fresh random
/// identifier rendered as exactly 32 lower-case hexadecimal characters.
#[verifier::external_body]
pub(crate) fn new_uuid_simple() -> (r: String)
    ensures
        r@.len() == 32,
        forall|i: int| 0 <= i < 32 ==> is_lower_hex(r@[i]),
{
    uuid::Uuid::new_v4().simple().to_string()
}

/// Relies on `chrono::Utc::now` and `DateTime::to_rfc3339`: the current
/// instant in RFC 3339 form. The result depends on the clock, so nothing is
/// promised of it.
#[verifier::external_body]
pub(crate) fn now_rfc3339() -> String {
    chrono::Utc::now().to_rfc3339()
}

/// Relies on `chrono::Local::now` and `DateTime::format` with `%Y-%m-%d`:
/// the current local calendar date. The result depends on the clock and the
/// machine's time zone, so nothing is promised of it.
#[verifier::external_body]
pub(crate) fn today_date() -> String {
    chrono::Local::now().format("%Y-%m-%d").to_string()
}

/// What `str::to_lowercase` returns; it depends on the characters alone.
pub uninterp spec fn lower_of(s: Seq<char>) -> Seq<char>;

/// Relies on `str::to_lowercase`: the Unicode-lowercased text, a function of
/// the characters alone.
#[verifier::external_body]
pub(crate) fn lowercase(s: &str) -> (r: String)
    ensures
        r@ == lower_of(s@),
{
    s.to_lowercase()
}

} // verus!
