//! Fresh identifiers.

use vstd::prelude::*;

verus! {

/// A fresh random (version 4) UUID as a 128-bit number (`uuid::Uuid::new_v4`).
/// Nothing is stated of the value: it is random.
#[verifier::external_body]
pub(crate) fn new_uuid() -> (r: u128) {
    uuid::Uuid::new_v4().as_u128()
}

} // verus!
