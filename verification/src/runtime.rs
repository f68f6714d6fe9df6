//! Fresh identifiers and clock readings.
//!
//! These are the store's only ties to the world outside: random row ids and
//! the current time. Their results depend on chance and on the clock, so
//! their contracts state only what holds of every outcome; the operations
//! take these values as arguments and are verified for every value.

use vstd::prelude::*;

verus! {

/// Relies on `uuid::Uuid::new_v4` and its `Display` form: a random
/// version-4 UUID always renders as the 36-character hyphenated form.
#[verifier::external_body]
pub fn generate_id() -> (r: String)
    ensures
        r@.len() == 36,
{
    uuid::Uuid::new_v4().to_string()
}

/// Relies on `chrono::Utc::now` with the fixed format
/// `%Y-%m-%dT%H:%M:%S%.3fZ`: at least four year digits, then month, day,
/// the literal `T`, time and milliseconds with their separators, then the
/// literal `Z`.
#[verifier::external_body]
pub fn now_iso() -> (r: String)
    ensures
        r@.len() >= 24,
        r@[r@.len() - 1] == 'Z',
        exists|i: int| 0 <= i < r@.len() && r@[i] == 'T',
{
    chrono::Utc::now().format("%Y-%m-%dT%H:%M:%S%.3fZ").to_string()
}

/// Relies on `chrono::TimeDelta::try_days` and
/// `chrono::DateTime::checked_sub_signed`: the timestamp `days` days before
/// now in the same format as `now_iso`, or `None` when the clock sits too
/// close to the edge of chrono's representable range.
#[verifier::external_body]
pub(crate) fn iso_days_ago(days: u32) -> (r: Option<String>)
    ensures
        match r {
            Some(t) => t@.len() >= 24 && t@[t@.len() - 1] == 'Z' && exists|i: int|
                0 <= i < t@.len() && t@[i] == 'T',
            None => true,
        },
{
    chrono::TimeDelta::try_days(days as i64).and_then(
        |d| chrono::Utc::now().checked_sub_signed(d),
    ).map(|t| t.format("%Y-%m-%dT%H:%M:%S%.3fZ").to_string())
}

} // verus!
