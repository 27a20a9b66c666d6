//! The boundary with the ledger runtime, as plain values.
//!
//! The ledger hands each call an [`Origin`], its capability verdict for the
//! caller, and a clock reading; the registries decide on those values alone.

use vstd::prelude::*;

use crate::errors::RegistryError;

verus! {

/// An account on the ledger: an opaque, comparable identifier.
pub type AccountId = u64;

/// A reading of the ledger's monotonic, non-decreasing time oracle.
pub type Moment = u64;

/// A caller-supplied content hash. It is opaque to the registries: never
/// recomputed, never verified, only stored and used as a lookup key.
pub type RecordHash = u64;

/// The provenance of a call, as the ledger reports it.
#[derive(Clone, Copy, Debug, PartialEq, Eq, Structural)]
pub enum Origin {
    /// A transaction signed by the given account.
    Signed(AccountId),
    /// The ledger's root authority; it carries no signer identity.
    Root,
    /// An anonymous, unsigned call.
    Unsigned,
}

impl Origin {
    /// Whether the call carries a concrete signer.
    pub open spec fn is_signed(self) -> bool {
        self matches Origin::Signed(_)
    }

    /// The signing account of a signed origin.
    pub open spec fn signer(self) -> AccountId
        recommends
            self.is_signed(),
    {
        match self {
            Origin::Signed(account) => account,
            _ => arbitrary(),
        }
    }
}

/// Extracts the signer from an origin, refusing anonymous calls.
pub fn ensure_signed(origin: Origin) -> (r: Result<AccountId, RegistryError>)
    ensures
        r == (if origin.is_signed() {
            Ok::<AccountId, RegistryError>(origin.signer())
        } else {
            Err::<AccountId, RegistryError>(RegistryError::NoSigner)
        }),
{
    match origin {
        Origin::Signed(account) => Ok(account),
        _ => Err(RegistryError::NoSigner),
    }
}

/// Turns the ledger's capability verdict for the caller into a check result.
pub fn ensure_authorized(authorized: bool) -> (r: Result<(), RegistryError>)
    ensures
        r == (if authorized {
            Ok::<(), RegistryError>(())
        } else {
            Err::<(), RegistryError>(RegistryError::Unauthorized)
        }),
{
    if authorized {
        Ok(())
    } else {
        Err(RegistryError::Unauthorized)
    }
}

} // verus!
