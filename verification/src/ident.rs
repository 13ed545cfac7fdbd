//! Fresh note identifiers, drawn from uuid.

use vstd::prelude::*;

verus! {

/// Relies on uuid's `Uuid::new_v4`: a freshly generated random (version 4)
/// identifier, handed back as its 128-bit value. The generator always sets
/// the fixed version and variant bits, so the value is never zero; nothing
/// else is assumed of it.
#[verifier::external_body]
pub(crate) fn fresh_id() -> (r: u128)
    ensures
        r != 0,
{
    uuid::Uuid::new_v4().as_u128()
}

} // verus!
