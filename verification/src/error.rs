//! Error taxonomy of the store: every fallible operation reports one of
//! these, and an absent key is an absent result, never an error.

use vstd::prelude::*;

verus! {

/// A typed failure of a store operation.
#[derive(Clone, Copy, PartialEq, Eq, Structural, Debug)]
pub enum Error {
    /// A no-overwrite or append put collided with an existing key (or, on a
    /// duplicate-sorting database, an existing key/value pair).
    KeyExists,
    /// Stored bytes failed validation against the expected typed encoding.
    Corrupted,
    /// The environment is out of a fixed resource: the map is full, all
    /// database slots are taken, or a writer is already active.
    ResourceExhausted,
    /// A flag combination or operand is incompatible with the database
    /// configuration.
    InvalidArgument,
    /// Any other engine condition, carried opaquely.
    EngineInternal,
}

impl Error {
    /// A short description, for callers that render failures.
    pub fn describe(&self) -> (r: &'static str)
        ensures
            r@.len() > 0,
    {
        let s = match self {
            Error::KeyExists => "key already exists",
            Error::Corrupted => "stored bytes failed validation",
            Error::ResourceExhausted => "environment resource exhausted",
            Error::InvalidArgument => "operation incompatible with database flags",
            Error::EngineInternal => "internal engine condition",
        };
        proof {
            reveal_strlit("key already exists");
            reveal_strlit("stored bytes failed validation");
            reveal_strlit("environment resource exhausted");
            reveal_strlit("operation incompatible with database flags");
            reveal_strlit("internal engine condition");
        }
        s
    }
}

} // verus!
