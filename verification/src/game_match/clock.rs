use vstd::prelude::*;

verus! {

/// A fresh random identifier (`uuid::Uuid::new_v4`), as its 128-bit
/// value.
///
/// Trusted: the value is random; the contract claims only the version
/// and variant bits that the crate's source sets (version 4, variant
/// RFC 4122).
#[verifier::external_body]
pub(crate) fn new_uuid() -> (r: u128)
    ensures
        (r >> 76u128) & 0xfu128 == 4,
        (r >> 62u128) & 0x3u128 == 2,
{
    uuid::Uuid::new_v4().as_u128()
}

/// The wall clock as milliseconds since the Unix epoch
/// (`std::time::SystemTime::now`, measured from `UNIX_EPOCH`), or `None`
/// when the clock is set before the epoch.
///
/// Trusted: nothing is claimed of the value; it is the time of the call.
#[verifier::external_body]
fn system_millis() -> (r: Option<u128>) {
    match std::time::SystemTime::now().duration_since(std::time::UNIX_EPOCH) {
        Ok(elapsed) => Some(elapsed.as_millis()),
        Err(_) => None,
    }
}

/// A reading of the clock in milliseconds since the Unix epoch as a
/// `u64`: 0 for a clock set before the epoch, and `u64::MAX` for a count
/// that does not fit.
pub fn millis_since_epoch(t: Option<u128>) -> (r: u64)
    ensures
        r == match t {
            None => 0,
            Some(m) => if m > u64::MAX {
                u64::MAX as int
            } else {
                m as int
            },
        },
{
    match t {
        None => 0,
        Some(m) => if m > 0xffff_ffff_ffff_ffffu128 {
            0xffff_ffff_ffff_ffffu64
        } else {
            m as u64
        },
    }
}

/// The wall clock in milliseconds since the Unix epoch, and 0 for a clock
/// set before it.
pub fn now_millis() -> (r: u64) {
    millis_since_epoch(system_millis())
}

} // verus!
