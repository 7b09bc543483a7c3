//! Wall-clock timestamps for event records.

use vstd::prelude::*;

verus! {

/// Relies on time::OffsetDateTime::now_utc and its RFC3339 formatting:
/// the current wall-clock time as an RFC3339 UTC string. The value
/// depends on the clock, so nothing is promised of it.
#[verifier::external_body]
pub fn now_rfc3339() -> String {
    match time::OffsetDateTime::now_utc().format(&time::format_description::well_known::Rfc3339) {
        Ok(s) => s,
        Err(_) => String::new(),
    }
}

} // verus!
