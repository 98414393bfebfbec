//! The system clock, as far as the task list needs it.

use std::time::SystemTime;
use vstd::prelude::*;

verus! {

/// `std::time::SystemTime`, a point on the system clock. The verifier sees
/// nothing inside a value of it; it is only stored, copied and compared.
#[verifier::external_type_specification]
#[verifier::external_body]
pub struct ExSystemTime(std::time::SystemTime);

/// Reads the system clock with `SystemTime::now`. Trusted, and nothing is
/// claimed of the instant that comes back: it depends on the machine's clock.
#[verifier::external_body]
pub(crate) fn current_time() -> (now: SystemTime) {
    SystemTime::now()
}

/// Compares two instants with the `==` of `SystemTime`. Trusted: the claim is
/// that the comparison holds exactly when both are the same point in time,
/// which is how the standard library's equality on `SystemTime` behaves.
#[verifier::external_body]
pub(crate) fn same_instant(a: &SystemTime, b: &SystemTime) -> (same: bool)
    ensures
        same == (*a == *b),
{
    a.eq(b)
}

} // verus!
