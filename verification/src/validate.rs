//! The field validator shared by every record kind: the id check.
//!
//! Both registries bound record ids the same way, so the check lives here
//! once; the kind-specific property validators live with their kinds.

use vstd::prelude::*;

use crate::errors::RegistryError;

verus! {

/// The longest admissible record id, in bytes.
pub const ID_MAX_LENGTH: usize = 24;

/// The verdict on a record id: empty ids are missing, over-long ids are
/// refused, anything else passes.
pub open spec fn id_check(id: Seq<u8>) -> Result<(), RegistryError> {
    if id.len() == 0 {
        Err(RegistryError::IdMissing)
    } else if id.len() > ID_MAX_LENGTH {
        Err(RegistryError::IdTooLong)
    } else {
        Ok(())
    }
}

/// Checks a record id against the shared bounds.
pub fn validate_record_id(id: &[u8]) -> (r: Result<(), RegistryError>)
    ensures
        r == id_check(id@),
{
    if id.len() == 0 {
        Err(RegistryError::IdMissing)
    } else if id.len() > ID_MAX_LENGTH {
        Err(RegistryError::IdTooLong)
    } else {
        Ok(())
    }
}

} // verus!
