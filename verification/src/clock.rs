use vstd::prelude::*;

verus! {

/// Relies on std::time::SystemTime::now for a wall-clock reading, converted
/// to microseconds since the Unix epoch (0 if the clock reads earlier than
/// the epoch). The result depends on the clock, so nothing is promised of it;
/// timestamps are informational only and no contract reads them.
#[verifier::external_body]
pub(crate) fn now_micros() -> u64 {
    std::time::SystemTime::now()
        .duration_since(std::time::UNIX_EPOCH)
        .map(|d| d.as_micros() as u64)
        .unwrap_or(0)
}

} // verus!
