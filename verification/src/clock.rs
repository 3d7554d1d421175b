use vstd::prelude::*;

pub use std::time::Instant;

verus! {

#[verifier::external_type_specification]
#[verifier::external_body]
pub struct ExInstant(std::time::Instant);

/// `Instant::now` from std: the current time. Nothing is stated of the
/// result: it depends on the machine's clock.
#[verifier::external_body]
pub(crate) fn now() -> (res: Instant) {
    Instant::now()
}

/// `Instant::duration_since` from std: the time from `earlier` to `later`
/// (zero when `earlier` is later). Nothing is stated of the result: the
/// instants are opaque readings of the machine's clock.
#[verifier::external_body]
pub(crate) fn duration_since(later: &Instant, earlier: &Instant) -> (res: std::time::Duration) {
    later.duration_since(*earlier)
}

/// `Duration::as_millis` from std: the whole milliseconds of `d`. Nothing is
/// stated of the result: a duration is opaque here.
#[verifier::external_body]
pub(crate) fn as_millis(d: &std::time::Duration) -> (res: u128) {
    d.as_millis()
}

} // verus!
