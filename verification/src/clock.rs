//! The wall clock, behind trusted wrappers. Nothing is promised of the
//! values: every caller states what holds of its result whatever instant
//! came back.

use vstd::prelude::*;

verus! {

/// Relies on chrono::Utc::now / timestamp_millis: the current wall-clock
/// instant as milliseconds since the Unix epoch (clamped at zero). Nothing
/// is promised of the value.
#[verifier::external_body]
pub(crate) fn now_epoch_ms() -> u64 {
    let ms = chrono::Utc::now().timestamp_millis();
    if ms < 0 { 0 } else { ms as u64 }
}

/// Relies on chrono::Utc::now / timestamp_micros: the current wall-clock
/// instant as microseconds since the Unix epoch (clamped at zero). Nothing
/// is promised of the value.
#[verifier::external_body]
pub(crate) fn now_epoch_us() -> u64 {
    let us = chrono::Utc::now().timestamp_micros();
    if us < 0 { 0 } else { us as u64 }
}

} // verus!
