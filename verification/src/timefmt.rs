//! The clock and the human-readable renderings of instants and durations,
//! through chrono. An instant is carried as milliseconds since the Unix
//! epoch, a duration as whole seconds.

use vstd::prelude::*;

verus! {

/// The text chrono renders for the UTC instant `millis` milliseconds after
/// the Unix epoch (empty for an instant outside chrono's range).
pub uninterp spec fn time_display_of(millis: u64) -> Seq<char>;

/// The text chrono renders for a span of `secs` whole seconds (empty for a
/// span outside chrono's range).
pub uninterp spec fn duration_display_of(secs: u64) -> Seq<char>;

/// Relies on `chrono::Utc::now` and `DateTime::timestamp_millis` for the
/// current time. Nothing is assumed of the value.
#[verifier::external_body]
pub(crate) fn now_millis() -> u64 {
    chrono::Utc::now().timestamp_millis() as u64
}

/// Relies on `chrono::DateTime::<Utc>::from_timestamp_millis` and on the
/// `Display` impl of `DateTime<Utc>`: both depend on the numeric value alone,
/// so the result is a function of `millis`.
#[verifier::external_body]
pub(crate) fn format_order_time(millis: u64) -> (s: String)
    ensures
        s@ == time_display_of(millis),
{
    match chrono::DateTime::<chrono::Utc>::from_timestamp_millis(millis as i64) {
        Some(t) => format!("{}", t),
        None => String::new(),
    }
}

/// Relies on `chrono::TimeDelta::try_seconds` and on the `Display` impl of
/// `TimeDelta`: both depend on the numeric value alone, so the result is a
/// function of `secs`.
#[verifier::external_body]
pub(crate) fn format_cooking_time(secs: u64) -> (s: String)
    ensures
        s@ == duration_display_of(secs),
{
    match chrono::TimeDelta::try_seconds(secs as i64) {
        Some(d) => format!("{}", d),
        None => String::new(),
    }
}

} // verus!
