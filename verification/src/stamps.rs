//! What the store takes from outside for a new record: the time and an
//! identifier.

use vstd::prelude::*;

verus! {

/// `chrono::Utc::now().timestamp_millis()`: the wall-clock time in
/// milliseconds since the Unix epoch. Nothing is claimed of the value: it
/// depends on the clock of the machine. The call panics where that clock
/// stands before the epoch, which no argument decides.
#[verifier::external_body]
pub(crate) fn now_millis() -> (now: i64) {
    chrono::Utc::now().timestamp_millis()
}

/// `uuid::Uuid::new_v4()` in its display form: 32 hexadecimal digits in five
/// groups with four hyphens between them, 36 characters in all. Which
/// identifier it is depends on chance; nothing says that it differs from an
/// earlier one. The call panics where the operating system hands out no
/// random bytes.
#[verifier::external_body]
pub(crate) fn fresh_id() -> (id: String)
    ensures
        id@.len() == 36,
{
    uuid::Uuid::new_v4().to_string()
}

} // verus!
