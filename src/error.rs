//! Why a BRB operation or packet was refused.

use crate::actor::Actor;
use crate::clock::Dot;
use crate::membership;
use crate::vote::Generation;
use vstd::prelude::*;

verus! {

/// Why a packet failed validation. `V` is the data type's own validation error.
#[derive(Debug)]
pub enum ValidationError<V> {
    /// The sender of a request is not the actor of its dot.
    PacketSourceIsNotDot { from: Actor, dot: Dot },
    /// The request's dot is not the next one we expect to receive from its source.
    MsgDotNotTheNextDot { msg_dot: Dot, expected_dot: Dot },
    /// The source still has a message that was not delivered.
    SourceAlreadyHasPendingMsg { msg_dot: Dot, next_deliver_dot: Dot },
    /// The request was made in another generation.
    MessageFromDifferentGeneration { msg_gen: Generation, gen: Generation },
    /// The source is not a voting member.
    SourceIsNotVotingMember { from: Actor, members: Vec<Actor> },
    /// The data type refused the operation.
    DataTypeFailedValidation(V),
    /// A signature does not verify.
    InvalidSignature,
    /// A peer signed a message that we did not originate.
    SignedValidatedForPacketWeDidNotRequest,
    /// The proven message is not the next one to deliver from its source.
    MsgDotNotNextDotToBeDelivered { msg_dot: Dot, expected_dot: Dot },
    /// The proof has no supermajority of signers.
    NotEnoughSignaturesToFormQuorum,
    /// Some signer of the proof is not a member.
    ProofContainsSignaturesFromNonMembers,
    /// Some signature of the proof does not verify.
    ProofContainsInvalidSignatures,
}

/// Why a BRB operation failed.
#[derive(Debug)]
pub enum Error<V> {
    Membership(membership::Error),
    Validation(ValidationError<V>),
}

} // verus!
