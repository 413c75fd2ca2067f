//! What the library takes from outside: the system clock and fresh random
//! payloads. Nothing in this file is proved; each contract states what the
//! outside function is documented to do.

use vstd::prelude::*;
use std::time::{Duration, SystemTime, UNIX_EPOCH};

verus! {

/// A point in time as the system clock reports it.
#[verifier::external_type_specification]
#[verifier::external_body]
pub struct ExSystemTime(SystemTime);

/// `SystemTime::now`: the current reading of the system clock. Nothing is
/// known of it.
pub assume_specification[ SystemTime::now ]() -> SystemTime;

/// `Duration::as_secs`: the whole seconds of a duration.
pub assume_specification[ Duration::as_secs ](duration: &Duration) -> u64;

/// `Duration::subsec_nanos`: the part of a duration below one second, in
/// nanoseconds, which is less than one billion.
pub assume_specification[ Duration::subsec_nanos ](duration: &Duration) -> (nanos: u32)
    ensures
        nanos < 1_000_000_000,
;

/// `SystemTime::duration_since` with `UNIX_EPOCH`: the time that has
/// passed since the Unix epoch, or nothing where `time` lies before it.
#[verifier::external_body]
pub(crate) fn since_unix_epoch(time: &SystemTime) -> Option<Duration> {
    match time.duration_since(UNIX_EPOCH) {
        Ok(duration) => Some(duration),
        Err(_) => None,
    }
}

/// True when `v` has the form of a version-4 UUID: the version field
/// holds 4 and the variant field starts with the bits `10`.
pub open spec fn is_random_uuid(v: u128) -> bool {
    v & 0x0000_0000_0000_f000_c000_0000_0000_0000 == 0x0000_0000_0000_4000_8000_0000_0000_0000
}

/// `Uuid::new_v4` followed by `Uuid::as_u128`: a fresh random version-4
/// UUID as a 128-bit number. It has the version and variant bits of such a
/// UUID; the other 122 bits come from the operating system's random
/// generator, and the call panics where that generator fails.
#[verifier::external_body]
pub(crate) fn random_uuid_value() -> (v: u128)
    ensures
        is_random_uuid(v),
{
    uuid::Uuid::new_v4().as_u128()
}

} // verus!
