use vstd::prelude::*;

verus! {

/// Reads the system clock: `std::time::SystemTime::elapsed` on `UNIX_EPOCH`,
/// the time since the Unix epoch; `None` where the clock stands before the
/// epoch (the call's error). The reading depends on the machine and the
/// moment: nothing is stated of it.
#[verifier::external_body]
fn time_since_epoch() -> Option<core::time::Duration> {
    match std::time::UNIX_EPOCH.elapsed() {
        Ok(d) => Some(d),
        Err(_) => None,
    }
}

/// `core::time::Duration::as_millis`: the whole milliseconds of `d`. A
/// `Duration` is opaque here, so nothing is stated of the number.
#[verifier::external_body]
fn whole_millis(d: core::time::Duration) -> u128 {
    d.as_millis()
}

/// The current time in milliseconds since the Unix epoch, truncated to 64 bits;
/// `None` where the system clock stands before the epoch.
pub(crate) fn unix_time_millis() -> Option<u64> {
    match time_since_epoch() {
        Some(d) => Some(whole_millis(d) as u64),
        None => None,
    }
}

/// The current time in whole seconds since the Unix epoch. A clock that
/// stands before the epoch cannot be read; it is taken for the latest time
/// there is (`u64::MAX`), at which no license with a finite expiry is current.
pub(crate) fn current_unix_secs() -> u64 {
    match time_since_epoch() {
        Some(d) => (whole_millis(d) / 1000) as u64,
        None => u64::MAX,
    }
}

} // verus!
