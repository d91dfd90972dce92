//! Messages, BRB operations, payloads and packets, with the canonical
//! encoding that packet and validation signatures cover.

use crate::actor::{actor_bytes, sig_bytes, Actor, Sig};
use crate::clock::{clock_entries, clock_listing, Clock, Dot};
use crate::codec::{le8, push_all, push_u64};
use crate::vote::{push_vote, vote_bytes, Generation, Vote};
use std::rc::Rc;
use vstd::prelude::*;

verus! {

/// An operation of the replicated data type, in that type's own encoding,
/// with the generation and dot of its creation.
#[derive(Debug)]
pub struct Msg {
    pub gen: Generation,
    pub op: Vec<u8>,
    pub dot: Dot,
}

/// The three phases of a broadcast.
#[derive(Debug)]
pub enum Op {
    /// The source asks a peer to validate and sign `msg`.
    RequestValidation { msg: Msg },
    /// A peer has validated and signed `msg`.
    SignedValidated { msg: Msg, sig: Sig },
    /// A supermajority of members signed `msg`; `proof` maps signers to signatures.
    ProofOfAgreement { msg: Msg, proof: Vec<(Actor, Sig)> },
}

/// What a packet carries.
#[derive(Debug)]
pub enum Payload {
    /// A request for what the sender has missed since `generation` and `delivered`.
    AntiEntropy { generation: Generation, delivered: Clock },
    BRB(Op),
    Membership(Rc<Vote>),
}

/// A payload from `source` to `dest`, signed by `source`.
#[derive(Debug)]
pub struct Packet {
    pub source: Actor,
    pub dest: Actor,
    pub payload: Payload,
    pub sig: Sig,
}

/// Two messages with the same generation, operation and dot.
pub open spec fn same_msg(a: Msg, b: Msg) -> bool {
    a.gen == b.gen && a.op@ == b.op@ && a.dot == b.dot
}

/// What a validation signature covers: generation, operation (with its length), dot.
pub open spec fn msg_bytes(m: Msg) -> Seq<u8> {
    le8(m.gen) + le8(m.op@.len() as u64) + m.op@ + actor_bytes(m.dot.actor) + le8(m.dot.counter)
}

/// The concatenated (signer, signature) pairs of a proof.
pub open spec fn signatures_bytes(p: Seq<(Actor, Sig)>) -> Seq<u8>
    decreases p.len(),
{
    if p.len() == 0 {
        seq![]
    } else {
        signatures_bytes(p.drop_last()) + actor_bytes(p.last().0) + sig_bytes(p.last().1)
    }
}

/// The concatenated (actor, counter) entries of a clock.
pub open spec fn counters_bytes(s: Seq<(Actor, u64)>) -> Seq<u8>
    decreases s.len(),
{
    if s.len() == 0 {
        seq![]
    } else {
        counters_bytes(s.drop_last()) + actor_bytes(s.last().0) + le8(s.last().1)
    }
}

/// The encoding of a broadcast operation: a tag, then its fields.
pub open spec fn op_bytes(o: Op) -> Seq<u8> {
    match o {
        Op::RequestValidation { msg } => seq![0u8] + msg_bytes(msg),
        Op::SignedValidated { msg, sig } => seq![1u8] + msg_bytes(msg) + sig_bytes(sig),
        Op::ProofOfAgreement { msg, proof } => seq![2u8] + msg_bytes(msg) + le8(proof@.len() as u64)
            + signatures_bytes(proof@),
    }
}

/// What the outer signature of a packet covers.
pub open spec fn payload_bytes(p: Payload) -> Seq<u8> {
    match p {
        Payload::AntiEntropy { generation, delivered } => seq![0u8] + le8(generation) + le8(
            clock_listing(delivered).len() as u64,
        ) + counters_bytes(clock_listing(delivered)),
        Payload::BRB(o) => seq![1u8] + op_bytes(o),
        Payload::Membership(v) => seq![2u8] + vote_bytes(*v),
    }
}

/// The wire encoding of a packet: source, destination, payload, signature.
pub open spec fn packet_bytes(p: Packet) -> Seq<u8> {
    actor_bytes(p.source) + actor_bytes(p.dest) + payload_bytes(p.payload) + sig_bytes(p.sig)
}

impl Packet {
    /// The wire encoding of this packet.
    pub fn to_bytes(&self) -> (r: Vec<u8>)
        ensures
            r@ == packet_bytes(*self),
    {
        let mut r = self.source.key_bytes();
        let d = self.dest.key_bytes();
        push_all(&mut r, &d);
        let p = self.payload.to_bytes();
        push_all(&mut r, &p);
        let s = self.sig.to_bytes();
        push_all(&mut r, &s);
        assert(r@ =~= packet_bytes(*self));
        r
    }
}

impl Msg {
    /// A copy of this message.
    pub fn copy(&self) -> (r: Msg)
        ensures
            same_msg(r, *self),
    {
        Msg { gen: self.gen, op: copy_bytes(&self.op), dot: self.dot }
    }

    /// Whether two messages are the same.
    pub fn same(&self, other: &Msg) -> (r: bool)
        ensures
            r == same_msg(*self, *other),
    {
        self.gen == other.gen && self.dot == other.dot && crate::codec::bytes_equal(&self.op, &other.op)
    }

    /// The bytes a validation signature covers.
    pub fn to_bytes(&self) -> (r: Vec<u8>)
        ensures
            r@ == msg_bytes(*self),
    {
        let mut r: Vec<u8> = Vec::new();
        push_msg(&mut r, self);
        assert(r@ =~= msg_bytes(*self));
        r
    }
}

/// A copy of a byte string.
pub fn copy_bytes(b: &Vec<u8>) -> (r: Vec<u8>)
    ensures
        r@ == b@,
{
    let mut r: Vec<u8> = Vec::new();
    push_all(&mut r, b);
    assert(r@ =~= b@);
    r
}

/// A copy of a list of signatures.
pub fn copy_signatures(p: &Vec<(Actor, Sig)>) -> (r: Vec<(Actor, Sig)>)
    ensures
        r@ == p@,
{
    let mut r: Vec<(Actor, Sig)> = Vec::new();
    let mut i: usize = 0;
    while i < p.len()
        invariant
            0 <= i <= p@.len(),
            r@ == p@.subrange(0, i as int),
        decreases p@.len() - i,
    {
        r.push(p[i]);
        i = i + 1;
        assert(r@ =~= p@.subrange(0, i as int));
    }
    assert(p@.subrange(0, p@.len() as int) =~= p@);
    r
}

fn push_msg(out: &mut Vec<u8>, m: &Msg)
    ensures
        final(out)@ == old(out)@ + msg_bytes(*m),
{
    push_u64(out, m.gen);
    push_u64(out, m.op.len() as u64);
    push_all(out, &m.op);
    let k = m.dot.actor.key_bytes();
    push_all(out, &k);
    push_u64(out, m.dot.counter);
    assert(final(out)@ =~= old(out)@ + msg_bytes(*m));
}

fn push_signatures(out: &mut Vec<u8>, p: &Vec<(Actor, Sig)>)
    ensures
        final(out)@ == old(out)@ + signatures_bytes(p@),
{
    let mut i: usize = 0;
    while i < p.len()
        invariant
            0 <= i <= p@.len(),
            out@ == old(out)@ + signatures_bytes(p@.subrange(0, i as int)),
        decreases p@.len() - i,
    {
        let k = p[i].0.key_bytes();
        push_all(out, &k);
        let s = p[i].1.to_bytes();
        push_all(out, &s);
        proof {
            let q = p@.subrange(0, i + 1);
            assert(q.drop_last() =~= p@.subrange(0, i as int));
        }
        i = i + 1;
    }
    assert(p@.subrange(0, p@.len() as int) =~= p@);
}

fn push_counters(out: &mut Vec<u8>, s: &Vec<(Actor, u64)>)
    ensures
        final(out)@ == old(out)@ + counters_bytes(s@),
{
    let mut i: usize = 0;
    while i < s.len()
        invariant
            0 <= i <= s@.len(),
            out@ == old(out)@ + counters_bytes(s@.subrange(0, i as int)),
        decreases s@.len() - i,
    {
        let k = s[i].0.key_bytes();
        push_all(out, &k);
        push_u64(out, s[i].1);
        proof {
            let q = s@.subrange(0, i + 1);
            assert(q.drop_last() =~= s@.subrange(0, i as int));
        }
        i = i + 1;
    }
    assert(s@.subrange(0, s@.len() as int) =~= s@);
}

fn push_op(out: &mut Vec<u8>, o: &Op)
    ensures
        final(out)@ == old(out)@ + op_bytes(*o),
{
    match o {
        Op::RequestValidation { msg } => {
            out.push(0u8);
            push_msg(out, msg);
        },
        Op::SignedValidated { msg, sig } => {
            out.push(1u8);
            push_msg(out, msg);
            let s = sig.to_bytes();
            push_all(out, &s);
        },
        Op::ProofOfAgreement { msg, proof } => {
            out.push(2u8);
            push_msg(out, msg);
            push_u64(out, proof.len() as u64);
            push_signatures(out, proof);
        },
    }
    assert(final(out)@ =~= old(out)@ + op_bytes(*o));
}

impl Payload {
    /// Whether this payload carries a proof of agreement.
    pub fn is_proof_of_agreement(&self) -> (r: bool)
        ensures
            r == (*self is BRB && self->BRB_0 is ProofOfAgreement),
    {
        match self {
            Payload::BRB(Op::ProofOfAgreement { .. }) => true,
            _ => false,
        }
    }

    /// The bytes the outer signature of a packet covers.
    pub fn to_bytes(&self) -> (r: Vec<u8>)
        ensures
            r@ == payload_bytes(*self),
    {
        let mut r: Vec<u8> = Vec::new();
        match self {
            Payload::AntiEntropy { generation, delivered } => {
                r.push(0u8);
                push_u64(&mut r, *generation);
                let entries = clock_entries(delivered);
                push_u64(&mut r, entries.len() as u64);
                push_counters(&mut r, &entries);
            },
            Payload::BRB(o) => {
                r.push(1u8);
                push_op(&mut r, o);
            },
            Payload::Membership(v) => {
                r.push(2u8);
                push_vote(&mut r, v);
            },
        }
        assert(r@ =~= payload_bytes(*self));
        r
    }
}

} // verus!
