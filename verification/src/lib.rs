//! On-ledger record registries.
//!
//! A registry admits immutable, uniquely identified records — credentials and
//! schemas — each tied to an owning account and an opaque content hash, and
//! answers lookups by id, by owner and by hash. Admission is a validated
//! insert: a fixed sequence of checks decides whether a registration is
//! admissible, and on success four coupled index structures are updated
//! together and a notification is queued for the ledger's event sink.
//!
//! The surrounding ledger runtime — origin authorization, the timestamp
//! oracle, durable storage and event delivery — is a collaborator, not part
//! of this crate: its verdicts and clock readings are handed in as plain
//! values, and the registries are verified for every value they may take.

pub mod bytes;
pub mod credential;
pub mod errors;
pub mod index;
pub mod ledger;
pub mod schema;
pub mod validate;
