//! Timestamps as the rendered output writes them.
use vstd::prelude::*;

verus! {

/// The writing of a Unix timestamp as `%Y-%m-%d %H:%M:%S` in UTC; a
/// function of the timestamp alone.
pub uninterp spec fn timestamp_text(timestamp: u64) -> Seq<char>;

/// Relies on chrono's `DateTime::from_timestamp` and `format`: rendering
/// a Unix timestamp in UTC with a fixed format string depends on the
/// timestamp alone; a timestamp outside the representable range renders
/// as the epoch.
#[verifier::external_body]
pub fn format_timestamp(timestamp: u64) -> (r: String)
    ensures
        r@ == timestamp_text(timestamp),
{
    let dt = chrono::DateTime::from_timestamp(timestamp as i64, 0).unwrap_or_default();
    dt.format("%Y-%m-%d %H:%M:%S").to_string()
}

} // verus!
