//! Why an operation on a metadata record is refused.

use anchor_lang::prelude::ProgramError;
use vstd::prelude::*;

verus! {

/// A refusal. Every refusal is final for the attempt and leaves the record as it was.
#[derive(Clone, Copy, Debug, PartialEq, Eq, Structural)]
pub enum MetadataError {
    /// The signer is not the authority in force at the target collection.
    Unauthorized,
    /// The parent already holds a collection under the key.
    CollectionAlreadyExists,
    /// The collection already holds an item under the key.
    ItemAlreadyExists,
    /// The key given as the root collection's key is not the record's.
    InvalidRootKey,
    /// The root holds no collection under the target key.
    CollectionNotFound,
}

/// Why an instruction handler fails.
#[derive(Debug, PartialEq, Eq)]
pub enum HandlerError {
    /// The request was refused.
    Rejected(MetadataError),
    /// The request was admitted, but the runtime gave no clock to stamp it with.
    Clock(ProgramError),
}

} // verus!
