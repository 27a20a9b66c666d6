use vstd::prelude::*;

verus! {

/// Why a registration was refused.
///
/// Every rejection is detected locally and surfaced synchronously; none is
/// transient. A refused call leaves the registry untouched.
#[derive(Clone, Copy, Debug, PartialEq, Eq, Structural)]
pub enum RegistryError {
    /// The caller lacks the ledger's "may create records" capability.
    Unauthorized,
    /// The call carries no concrete signer identity.
    NoSigner,
    /// The record id is empty.
    IdMissing,
    /// The record id exceeds the id length bound.
    IdTooLong,
    /// A record with this id is already registered.
    IdAlreadyExists,
    /// The schema version is empty.
    VersionMissing,
    /// The schema version exceeds the version length bound.
    InvalidVersion,
    /// The property list exceeds the kind's maximum count.
    TooManyProperties,
    /// A credential property's subject exceeds its length bound.
    InvalidSubject,
    /// A schema property's name exceeds its length bound.
    InvalidName,
    /// A schema property's description exceeds its length bound.
    InvalidDescription,
}

} // verus!
