//! The replicated data type that BRB secures.

use crate::actor::Actor;
use vstd::prelude::*;

verus! {

/// A data type replicated through BRB. Operations travel in the type's own
/// byte encoding; `validate` must depend only on the current state and its
/// arguments, and `apply` runs once per delivered operation.
pub trait BRBDataType: Sized {
    /// Why the type refuses an operation.
    type ValidationError;

    /// A new replica owned by `actor`.
    fn new(actor: Actor) -> Self;

    /// Checks an operation proposed by `source`.
    fn validate(&self, source: &Actor, op: &Vec<u8>) -> Result<(), Self::ValidationError>;

    /// Applies an operation that the network agreed on.
    fn apply(&mut self, op: &Vec<u8>);
}

} // verus!
