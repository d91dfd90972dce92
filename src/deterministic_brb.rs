//! Deterministic Byzantine reliable broadcast: per-source ordered, three-phase
//! agreement on data-type operations, tied to the membership generation.

use crate::actor::{actor_bytes, sig_bytes, sig_from_bytes, signature_by, signature_valid, Actor, Sig, SigningActor};
use crate::brb_data_type::BRBDataType;
use crate::clock::{clock_apply, clock_clone, clock_get, clock_inc, clock_new, counter, key_of, Clock, Dot};
use crate::error::{Error, ValidationError};
use crate::membership::{broadcast_to, contains_actor, State};
use crate::packet::{copy_signatures, msg_bytes, payload_bytes, same_msg, Msg, Op, Packet, Payload};
use crate::vote::{Generation, Reconfig, VoteMsg};
use std::rc::Rc;
use vstd::prelude::*;

verus! {

/// A signer and its signature.
pub type Signature = (Actor, Sig);

/// One process of the broadcast.
pub struct DeterministicBRB<D: BRBDataType> {
    /// Identity and membership.
    pub membership: State,
    /// Signatures gathered for messages this process originated.
    pub pending_proof: Vec<(Msg, Vec<Signature>)>,
    /// For each source, the latest dot acknowledged in a validation request.
    pub received: Clock,
    /// For each source, the latest dot applied to the data type.
    pub delivered: Clock,
    /// For each source, the messages delivered from it with their proofs, in order.
    pub history_from_source: Vec<(Actor, Vec<(Msg, Vec<Signature>)>)>,
    /// The replicated data type.
    pub dt: D,
}

/// How many distinct signers `p` holds.
pub open spec fn distinct_signers(p: Seq<Signature>) -> nat
    decreases p.len(),
{
    if p.len() == 0 {
        0
    } else {
        distinct_signers(p.drop_last()) + if exists|j: int| 0 <= j < p.len() - 1 && p[j].0 == p.last().0 {
            0nat
        } else {
            1nat
        }
    }
}

/// No signer appears twice.
pub open spec fn unique_signers(p: Seq<Signature>) -> bool {
    forall|i: int, j: int| 0 <= i < j < p.len() ==> (#[trigger] p[i]).0 != (#[trigger] p[j]).0
}

/// A packet from `me` to `dest` carrying a request to validate a message
/// of generation `gen` with operation `op` and dot `dot`.
pub open spec fn is_request(p: Packet, me: Actor, gen: Generation, op: Seq<u8>, dot: Dot) -> bool {
    &&& p.source == me
    &&& p.payload is BRB
    &&& p.payload->BRB_0 is RequestValidation
    &&& p.payload->BRB_0->RequestValidation_msg.gen == gen
    &&& p.payload->BRB_0->RequestValidation_msg.op@ == op
    &&& p.payload->BRB_0->RequestValidation_msg.dot == dot
}

/// `ps` holds one packet for each vote message of `msgs`, in order.
pub open spec fn vote_packets_of(ps: Seq<Packet>, msgs: Seq<VoteMsg>, me: Actor) -> bool {
    &&& ps.len() == msgs.len()
    &&& forall|i: int|
        0 <= i < ps.len() ==> (#[trigger] ps[i]).source == me && ps[i].dest == msgs[i].dest
            && ps[i].payload == Payload::Membership(msgs[i].vote)
}

/// The signatures gathered for `msg` (none if it has no entry).
pub open spec fn pending_for(pp: Seq<(Msg, Vec<Signature>)>, msg: Msg) -> Seq<Signature> {
    if exists|i: int| 0 <= i < pp.len() && same_msg(pp[i].0, msg) {
        pp[choose|i: int| 0 <= i < pp.len() && same_msg(pp[i].0, msg)].1@
    } else {
        Seq::empty()
    }
}

/// `p` with `a`'s signature set to `s`.
pub open spec fn with_signature(p: Seq<Signature>, a: Actor, s: Sig) -> Seq<Signature> {
    if exists|i: int| 0 <= i < p.len() && p[i].0 == a {
        Seq::new(p.len(), |k: int| if p[k].0 == a { (a, s) } else { p[k] })
    } else {
        p.push((a, s))
    }
}

/// A proof of agreement for `msg` with signatures `proof`, from `me` to `dest`.
pub open spec fn is_proof_packet(p: Packet, me: Actor, dest: Actor, msg: Msg, proof: Seq<Signature>) -> bool {
    &&& p.source == me
    &&& p.dest == dest
    &&& p.payload is BRB
    &&& p.payload->BRB_0 is ProofOfAgreement
    &&& same_msg(p.payload->BRB_0->ProofOfAgreement_msg, msg)
    &&& p.payload->BRB_0->ProofOfAgreement_proof@ == proof
}

/// The entries of a source's delivery log that a peer which has delivered
/// up to `seen` from that source lacks.
pub open spec fn unseen(log: Seq<(Msg, Vec<Signature>)>, seen: u64) -> Seq<(Msg, Vec<Signature>)> {
    if seen < log.len() {
        log.subrange(seen as int, log.len() as int)
    } else {
        Seq::empty()
    }
}

/// The delivered entries of `h`, source by source, that a peer with
/// delivered clock `peer` lacks.
pub open spec fn missing_entries(h: Seq<(Actor, Vec<(Msg, Vec<Signature>)>)>, peer: Clock) -> Seq<(Msg, Vec<Signature>)>
    decreases h.len(),
{
    if h.len() == 0 {
        Seq::empty()
    } else {
        missing_entries(h.drop_last(), peer) + unseen(h.last().1@, counter(peer, h.last().0))
    }
}

/// Whether the outer signature of `p` is `p.source`'s signature of its payload.
pub open spec fn packet_signed(p: Packet) -> bool {
    signature_valid(actor_bytes(p.source), payload_bytes(p.payload), sig_bytes(p.sig))
}

/// `3 n > 2 total`.
pub open spec fn supermajority(n: int, total: int) -> bool {
    3 * n > 2 * total
}

impl<D: BRBDataType> DeterministicBRB<D> {
    /// This process's actor.
    pub open spec fn me(&self) -> Actor {
        self.membership.id.view_actor()
    }

    /// The messages delivered from `a`, with their proofs.
    pub open spec fn source_log(&self, a: Actor) -> Seq<(Msg, Vec<Signature>)> {
        if exists|i: int| 0 <= i < self.history_from_source@.len() && self.history_from_source@[i].0 == a {
            self.history_from_source@[choose|i: int|
                0 <= i < self.history_from_source@.len() && self.history_from_source@[i].0 == a].1@
        } else {
            Seq::empty()
        }
    }

    /// The invariant: membership is well formed, nothing is delivered
    /// before it is received, each source's delivered messages carry the
    /// dots 1, 2, 3, ... and the delivered clock counts them, and gathered
    /// signatures have one entry per signer.
    pub open spec fn wf(&self) -> bool {
        &&& self.membership.wf()
        &&& forall|a: Actor| #[trigger] counter(self.delivered, a) <= counter(self.received, a)
        &&& forall|i: int, j: int|
            0 <= i < j < self.history_from_source@.len() ==> (#[trigger] self.history_from_source@[i]).0
                != (#[trigger] self.history_from_source@[j]).0
        &&& forall|i: int, k: int|
            0 <= i < self.history_from_source@.len() && 0 <= k < (#[trigger] self.history_from_source@[i]).1@.len()
                ==> (#[trigger] self.history_from_source@[i].1@[k]).0.dot == (Dot {
                actor: self.history_from_source@[i].0,
                counter: (k + 1) as u64,
            })
        &&& forall|a: Actor| #[trigger] counter(self.delivered, a) == self.source_log(a).len()
        &&& forall|i: int| 0 <= i < self.pending_proof@.len() ==> unique_signers((#[trigger] self.pending_proof@[i]).1@)
        &&& forall|i: int, j: int|
            0 <= i < j < self.pending_proof@.len() ==> !same_msg(
                (#[trigger] self.pending_proof@[i]).0,
                (#[trigger] self.pending_proof@[j]).0,
            )
    }

    /// Whether `proof` proves `msg`: enough distinct member signers, each
    /// with a valid signature of the message.
    pub open spec fn proof_valid(&self, msg: Msg, proof: Seq<Signature>) -> bool {
        let members = self.membership.members_at(msg.gen as nat);
        &&& msg.gen <= self.membership.gen
        &&& supermajority(distinct_signers(proof) as int, members.len() as int)
        &&& forall|i: int| 0 <= i < proof.len() ==> members.contains((#[trigger] proof[i]).0)
        &&& forall|i: int|
            0 <= i < proof.len() ==> signature_valid(
                actor_bytes((#[trigger] proof[i]).0),
                msg_bytes(msg),
                sig_bytes(proof[i].1),
            )
    }

    /// Whether a request from `from` for `msg` passes the checks of the broadcast
    /// layer (the data type's own check comes after).
    pub open spec fn request_ok(&self, from: Actor, msg: Msg) -> bool {
        &&& from == msg.dot.actor
        &&& msg.dot.counter == counter(self.received, from) + 1
        &&& msg.dot.counter == counter(self.delivered, from) + 1
        &&& msg.gen == self.membership.gen
        &&& self.membership.members_at(self.membership.gen as nat).contains(from)
    }

    /// The outcome of proposing `reconfig`, ending in `f` with result `r`:
    /// our signed proposal is sent exactly when it is a valid vote; if not,
    /// nothing changes and the error is the membership error that validation
    /// reports; if so, membership logs it, one packet goes to each member,
    /// and the broadcast state is untouched.
    pub open spec fn proposal_outcome(&self, reconfig: Reconfig, f: Self, r: Result<Vec<Packet>, Error<D::ValidationError>>) -> bool {
        let v = self.membership.own_proposal(reconfig);
        &&& (r is Ok <==> self.membership.vote_valid(v))
        &&& r is Err ==> f == *self && r->Err_0 is Membership && self.membership.rejection(v, r->Err_0->Membership_0)
        &&& r is Ok ==> {
            &&& f.received == self.received
            &&& f.delivered == self.delivered
            &&& f.history_from_source == self.history_from_source
            &&& f.pending_proof == self.pending_proof
            &&& f.dt == self.dt
            &&& exists|msgs: Vec<VoteMsg>|
                self.membership.proposal_result(reconfig, f.membership, Ok::<Vec<VoteMsg>, crate::membership::Error>(msgs))
                    && vote_packets_of(r->Ok_0@, msgs@, self.me())
        }
    }

    /// `ps` answers an anti-entropy request from `source`, which has seen
    /// generation `generation` and delivered `peer`: first the membership
    /// votes it lacks, then a proof of agreement for each delivered message
    /// it lacks, all from us to `source`.
    pub open spec fn anti_entropy_answer(&self, source: Actor, generation: Generation, peer: Clock, ps: Seq<Packet>) -> bool {
        let g = self.membership.gen;
        let start = if generation < g { generation as int } else { g as int };
        let votes = self.membership.history@.subrange(start, self.membership.history@.len() as int) + self.membership.votes@;
        let entries = missing_entries(self.history_from_source@, peer);
        &&& ps.len() == votes.len() + entries.len()
        &&& forall|i: int| 0 <= i < ps.len() ==> (#[trigger] ps[i]).source == self.me() && ps[i].dest == source
        &&& forall|i: int| 0 <= i < votes.len() ==> (#[trigger] ps[i]).payload == Payload::Membership(votes[i])
        &&& forall|k: int|
            0 <= k < entries.len() ==> is_proof_packet(
                #[trigger] ps[votes.len() + k],
                self.me(),
                source,
                entries[k].0,
                entries[k].1@,
            )
    }

    /// What gathering `from`'s signature `sig` of `msg` yields, given the
    /// gathered signatures before (`self`) and after (`after`): the
    /// signature is recorded, and when it makes the signers a supermajority
    /// of the message's generation (one fewer was not), `ps` sends the proof
    /// of agreement once to each member of that generation and to us.
    pub open spec fn signing_outcome(&self, after: Seq<(Msg, Vec<Signature>)>, from: Actor, msg: Msg, sig: Sig, ps: Seq<Packet>) -> bool {
        let p = pending_for(after, msg);
        let n = self.membership.members_at(msg.gen as nat).len() as int;
        let crossing = supermajority(p.len() as int, n) && !supermajority(p.len() - 1, n);
        let to = self.membership.members_at(msg.gen as nat).insert(self.me());
        &&& p == with_signature(pending_for(self.pending_proof@, msg), from, sig)
        &&& crossing ==> {
            &&& forall|i: int| 0 <= i < ps.len() ==> is_proof_packet(#[trigger] ps[i], self.me(), ps[i].dest, msg, p) && to.contains(ps[i].dest)
            &&& forall|a: Actor| to.contains(a) ==> exists|i: int| 0 <= i < ps.len() && (#[trigger] ps[i]).dest == a
            &&& forall|i: int, j: int| 0 <= i < j < ps.len() ==> (#[trigger] ps[i]).dest != (#[trigger] ps[j]).dest
        }
        &&& !crossing ==> ps.len() == 0
    }

    /// The dot after `c`'s counter for `a` (saturating at `u64::MAX`).
    pub open spec fn next_dot(c: Clock, a: Actor) -> Dot {
        Dot {
            actor: a,
            counter: if counter(c, a) < u64::MAX { (counter(c, a) + 1) as u64 } else { counter(c, a) },
        }
    }

    /// The error a refused validation request from `from` for `msg` reports:
    /// the first failing check, in the order forger, next received dot, no
    /// pending message, generation, membership.
    pub open spec fn request_rejection(&self, from: Actor, msg: Msg, e: ValidationError<D::ValidationError>) -> bool {
        if from != msg.dot.actor {
            e == ValidationError::<D::ValidationError>::PacketSourceIsNotDot { from, dot: msg.dot }
        } else if msg.dot.counter != counter(self.received, from) + 1 {
            e == ValidationError::<D::ValidationError>::MsgDotNotTheNextDot {
                msg_dot: msg.dot,
                expected_dot: Self::next_dot(self.received, from),
            }
        } else if msg.dot.counter != counter(self.delivered, from) + 1 {
            e == ValidationError::<D::ValidationError>::SourceAlreadyHasPendingMsg {
                msg_dot: msg.dot,
                next_deliver_dot: Self::next_dot(self.delivered, from),
            }
        } else if msg.gen != self.membership.gen {
            e == ValidationError::<D::ValidationError>::MessageFromDifferentGeneration {
                msg_gen: msg.gen,
                gen: self.membership.gen,
            }
        } else {
            e is SourceIsNotVotingMember && e->SourceIsNotVotingMember_from == from && crate::membership::member_list(
                e->SourceIsNotVotingMember_members@,
                self.membership.members_at(self.membership.gen as nat),
            )
        }
    }

    /// The error a refused proof of agreement for `msg` reports: the first
    /// failing check, in the order known generation, next dot to deliver,
    /// enough signers, signers are members, signatures verify.
    pub open spec fn delivery_rejection(&self, msg: Msg, proof: Seq<Signature>, e: Error<D::ValidationError>) -> bool {
        let members = self.membership.members_at(msg.gen as nat);
        if msg.gen > self.membership.gen {
            e == Error::<D::ValidationError>::Membership(crate::membership::Error::InvalidGeneration(msg.gen))
        } else if msg.dot.counter != counter(self.delivered, msg.dot.actor) + 1 {
            e == Error::<D::ValidationError>::Validation(
                ValidationError::MsgDotNotNextDotToBeDelivered {
                    msg_dot: msg.dot,
                    expected_dot: Self::next_dot(self.delivered, msg.dot.actor),
                },
            )
        } else if !supermajority(distinct_signers(proof) as int, members.len() as int) {
            e == Error::<D::ValidationError>::Validation(ValidationError::NotEnoughSignaturesToFormQuorum)
        } else if !(forall|i: int| 0 <= i < proof.len() ==> members.contains((#[trigger] proof[i]).0)) {
            e == Error::<D::ValidationError>::Validation(ValidationError::ProofContainsSignaturesFromNonMembers)
        } else {
            e == Error::<D::ValidationError>::Validation(ValidationError::ProofContainsInvalidSignatures)
        }
    }

    /// `f` and `ps` acknowledge a valid request from `from` for `msg`: the
    /// source's received counter moves to the message's dot, nothing else
    /// changes, and one signed validation of `msg` goes back to the source.
    pub open spec fn acknowledgement(&self, f: Self, from: Actor, msg: Msg, ps: Seq<Packet>) -> bool {
        &&& f.membership == self.membership
        &&& f.delivered == self.delivered
        &&& f.history_from_source == self.history_from_source
        &&& f.pending_proof == self.pending_proof
        &&& f.dt == self.dt
        &&& forall|a: Actor|
            #[trigger] counter(f.received, a) == if a == from {
                msg.dot.counter
            } else {
                counter(self.received, a)
            }
        &&& ps.len() == 1
        &&& ps[0].source == self.me()
        &&& ps[0].dest == from
        &&& ps[0].payload is BRB
        &&& ps[0].payload->BRB_0 is SignedValidated
        &&& same_msg(ps[0].payload->BRB_0->SignedValidated_msg, msg)
        &&& ps[0].payload->BRB_0->SignedValidated_sig == self.own_signature(msg_bytes(msg))
        &&& ps[0].sig == self.own_signature(payload_bytes(ps[0].payload))
    }

    /// This process's signature of `bytes`.
    pub open spec fn own_signature(&self, bytes: Seq<u8>) -> Sig {
        sig_from_bytes(signature_by(self.membership.id.view_secret(), bytes))
    }

    /// Whether `msg` with `proof` is accepted for delivery.
    pub open spec fn delivery_ok(&self, msg: Msg, proof: Seq<Signature>) -> bool {
        &&& msg.dot.counter == counter(self.delivered, msg.dot.actor) + 1
        &&& self.proof_valid(msg, proof)
    }

    /// A fresh process for `id` at genesis, with a new replica of the data type.
    pub fn new(id: SigningActor) -> (r: Self)
        ensures
            r.wf(),
            r.membership.gen == 0,
            r.membership.pending_gen == 0,
            r.membership.votes@.len() == 0,
            r.membership.history@.len() == 0,
            r.membership.forced_reconfigs@.len() == 0,
            r.membership.id == id,
            r.pending_proof@.len() == 0,
            r.history_from_source@.len() == 0,
            r.me() == id.view_actor(),
            forall|a: Actor| counter(r.received, a) == 0 && counter(r.delivered, a) == 0,
    {
        let actor = id.actor();
        let membership = State::new(id);
        let dt = D::new(actor);
        let r = DeterministicBRB {
            membership,
            pending_proof: Vec::new(),
            received: clock_new(),
            delivered: clock_new(),
            history_from_source: Vec::new(),
            dt,
        };
        r
    }

    /// This process's actor.
    pub fn actor(&self) -> (r: Actor)
        ensures
            r == self.me(),
    {
        self.membership.id.actor()
    }

    /// The members of the current generation.
    pub fn peers(&self) -> (r: Result<Vec<Actor>, Error<D::ValidationError>>)
        requires
            self.wf(),
        ensures
            r is Ok,
            r->Ok_0@.no_duplicates(),
            r->Ok_0@.to_set() == self.membership.members_at(self.membership.gen as nat),
    {
        match self.membership.members(self.membership.gen) {
            Ok(m) => Ok(m),
            Err(e) => Err(Error::Membership(e)),
        }
    }

    /// Signs `payload` and addresses it to `dest`.
    pub fn send(&self, dest: Actor, payload: Payload) -> (r: Packet)
        ensures
            r.source == self.me(),
            r.dest == dest,
            r.payload == payload,
            r.sig == self.own_signature(payload_bytes(payload)),
    {
        let bytes = payload.to_bytes();
        let sig = self.membership.id.sign(&bytes);
        Packet { source: self.actor(), dest, payload, sig }
    }

    /// Turns membership vote messages into signed packets.
    fn vote_packets(&self, msgs: Vec<VoteMsg>) -> (r: Vec<Packet>)
        ensures
            vote_packets_of(r@, msgs@, self.me()),
    {
        let mut r: Vec<Packet> = Vec::new();
        let mut i: usize = 0;
        while i < msgs.len()
            invariant
                0 <= i <= msgs@.len(),
                r@.len() == i,
                forall|k: int|
                    0 <= k < i ==> (#[trigger] r@[k]).source == self.me() && r@[k].dest == msgs@[k].dest
                        && r@[k].payload == Payload::Membership(msgs@[k].vote),
            decreases msgs@.len() - i,
        {
            let p = self.send(msgs[i].dest, Payload::Membership(msgs[i].vote.clone()));
            r.push(p);
            i = i + 1;
        }
        r
    }

    /// Starts the broadcast of a data-type operation: a request to validate
    /// it goes to every member, with the next dot after our received counter.
    pub fn exec_op(&self, op: Vec<u8>) -> (r: Result<Vec<Packet>, Error<D::ValidationError>>)
        requires
            self.wf(),
            counter(self.received, self.me()) < u64::MAX,
        ensures
            r is Ok,
            ({
                let ps = r->Ok_0@;
                let members = self.membership.members_at(self.membership.gen as nat);
                let dot = Dot { actor: self.me(), counter: (counter(self.received, self.me()) + 1) as u64 };
                &&& forall|i: int|
                    0 <= i < ps.len() ==> is_request(#[trigger] ps[i], self.me(), self.membership.gen, op@, dot)
                        && members.contains(ps[i].dest)
                &&& forall|a: Actor| members.contains(a) ==> exists|i: int| 0 <= i < ps.len() && (#[trigger] ps[i]).dest == a
                &&& forall|i: int, j: int| 0 <= i < j < ps.len() ==> (#[trigger] ps[i]).dest != (#[trigger] ps[j]).dest
            }),
    {
        let dot = clock_inc(&self.received, self.actor());
        let members = match self.peers() {
            Ok(m) => m,
            Err(e) => return Err(e),
        };
        let mut r: Vec<Packet> = Vec::new();
        let mut i: usize = 0;
        while i < members.len()
            invariant
                0 <= i <= members@.len(),
                members@.no_duplicates(),
                members@.to_set() == self.membership.members_at(self.membership.gen as nat),
                dot == (Dot { actor: self.me(), counter: (counter(self.received, self.me()) + 1) as u64 }),
                r@.len() == i,
                forall|k: int|
                    0 <= k < i ==> is_request(#[trigger] r@[k], self.me(), self.membership.gen, op@, dot)
                        && r@[k].dest == members@[k],
            decreases members@.len() - i,
        {
            let msg = Msg { gen: self.membership.gen, op: crate::packet::copy_bytes(&op), dot };
            let p = self.send(members[i], Payload::BRB(Op::RequestValidation { msg }));
            r.push(p);
            i = i + 1;
        }
        proof {
            let ps = r@;
            let members_set = self.membership.members_at(self.membership.gen as nat);
            assert forall|i: int| 0 <= i < ps.len() implies members_set.contains((#[trigger] ps[i]).dest) by {
                assert(members@.contains(members@[i]));
            }
            assert forall|a: Actor| members_set.contains(a) implies exists|i: int| 0 <= i < ps.len() && (#[trigger] ps[i]).dest == a by {
                assert(members@.to_set().contains(a));
                let k = choose|k: int| 0 <= k < members@.len() && members@[k] == a;
                assert(ps[k].dest == a);
            }
        }
        Ok(r)
    }

    /// Proposes that `actor` join the voting members.
    pub fn request_membership(&mut self, actor: Actor) -> (r: Result<Vec<Packet>, Error<D::ValidationError>>)
        requires
            old(self).wf(),
            old(self).membership.gen < u64::MAX,
        ensures
            final(self).wf(),
            !old(self).membership.reconfig_ok(Reconfig::Join(actor)) ==> r is Err,
            old(self).proposal_outcome(Reconfig::Join(actor), *final(self), r),
    {
        self.propose(Reconfig::Join(actor))
    }

    /// Proposes that the member `actor` leave.
    pub fn kill_peer(&mut self, actor: Actor) -> (r: Result<Vec<Packet>, Error<D::ValidationError>>)
        requires
            old(self).wf(),
            old(self).membership.gen < u64::MAX,
        ensures
            final(self).wf(),
            !old(self).membership.reconfig_ok(Reconfig::Leave(actor)) ==> r is Err,
            old(self).proposal_outcome(Reconfig::Leave(actor), *final(self), r),
    {
        self.propose(Reconfig::Leave(actor))
    }

    fn propose(&mut self, reconfig: Reconfig) -> (r: Result<Vec<Packet>, Error<D::ValidationError>>)
        requires
            old(self).wf(),
            old(self).membership.gen < u64::MAX,
        ensures
            final(self).wf(),
            !old(self).membership.reconfig_ok(reconfig) ==> r is Err,
            old(self).proposal_outcome(reconfig, *final(self), r),
    {
        let ghost o = *self;
        match self.membership.propose(reconfig) {
            Ok(msgs) => {
                proof {
                    assert(self.history_from_source == o.history_from_source);
                    assert(self.delivered == o.delivered);
                    assert(self.received == o.received);
                    assert(self.pending_proof == o.pending_proof);
                    assert forall|a: Actor| #[trigger] counter(self.delivered, a) == self.source_log(a).len() by {
                        assert(self.source_log(a) == o.source_log(a));
                    }
                }
                let ghost mv = msgs;
                let r = self.vote_packets(msgs);
                let ghost rv = r@;
                assert(vote_packets_of(rv, mv@, o.me()));
                let res: Result<Vec<Packet>, Error<D::ValidationError>> = Ok(r);
                assert(res->Ok_0@ == rv);
                assert(o.membership.proposal_result(reconfig, self.membership, Ok::<Vec<VoteMsg>, crate::membership::Error>(mv)));
                assert(vote_packets_of(res->Ok_0@, mv@, o.me()));
                res
            },
            Err(e) => Err(Error::Membership(e)),
        }
    }

    /// A request to `peer` for what we have missed since our generation and
    /// delivered clock.
    pub fn anti_entropy(&self, peer: Actor) -> (r: Result<Packet, Error<D::ValidationError>>)
        ensures
            r is Ok,
            r->Ok_0.source == self.me(),
            r->Ok_0.dest == peer,
            r->Ok_0.payload is AntiEntropy,
            r->Ok_0.payload->AntiEntropy_generation == self.membership.gen,
            crate::clock::clock_counters(r->Ok_0.payload->AntiEntropy_delivered) == crate::clock::clock_counters(self.delivered),
    {
        let payload = Payload::AntiEntropy { generation: self.membership.gen, delivered: clock_clone(&self.delivered) };
        Ok(self.send(peer, payload))
    }

    /// Adds `peer` to the members without a vote (bootstrap).
    pub fn force_join(&mut self, peer: Actor)
        requires
            old(self).wf(),
        ensures
            final(self).wf(),
            final(self).membership.gen == old(self).membership.gen,
            final(self).membership.history == old(self).membership.history,
            forall|g: int|
                #[trigger] final(self).membership.forced_at(g) == if g == old(self).membership.gen {
                    old(self).membership.forced_at(g).remove(Reconfig::Leave(peer)).insert(Reconfig::Join(peer))
                } else {
                    old(self).membership.forced_at(g)
                },
    {
        let ghost o = *self;
        self.membership.force_join(peer);
        proof {
            assert(self.history_from_source == o.history_from_source);
            assert(self.delivered == o.delivered);
            assert(self.received == o.received);
            assert(self.pending_proof == o.pending_proof);
            assert forall|a: Actor| #[trigger] counter(self.delivered, a) == self.source_log(a).len() by {
                assert(self.source_log(a) == o.source_log(a));
            }
        }
    }

    /// Removes `peer` from the members without a vote (bootstrap).
    pub fn force_leave(&mut self, peer: Actor)
        requires
            old(self).wf(),
        ensures
            final(self).wf(),
            final(self).membership.gen == old(self).membership.gen,
            final(self).membership.history == old(self).membership.history,
            forall|g: int|
                #[trigger] final(self).membership.forced_at(g) == if g == old(self).membership.gen {
                    old(self).membership.forced_at(g).remove(Reconfig::Join(peer)).insert(Reconfig::Leave(peer))
                } else {
                    old(self).membership.forced_at(g)
                },
    {
        let ghost o = *self;
        self.membership.force_leave(peer);
        proof {
            assert(self.history_from_source == o.history_from_source);
            assert(self.delivered == o.delivered);
            assert(self.received == o.received);
            assert(self.pending_proof == o.pending_proof);
            assert forall|a: Actor| #[trigger] counter(self.delivered, a) == self.source_log(a).len() by {
                assert(self.source_log(a) == o.source_log(a));
            }
        }
    }
}


/// How many distinct signers `p` holds.
fn count_signers(p: &Vec<Signature>) -> (r: usize)
    ensures
        r == distinct_signers(p@),
        r <= p@.len(),
{
    let mut c: usize = 0;
    let mut i: usize = 0;
    while i < p.len()
        invariant
            0 <= i <= p@.len(),
            c == distinct_signers(p@.subrange(0, i as int)),
            c <= i,
        decreases p@.len() - i,
    {
        let mut seen = false;
        let mut j: usize = 0;
        while j < i
            invariant
                0 <= j <= i < p@.len(),
                seen == exists|k: int| 0 <= k < j && p@[k].0 == p@[i as int].0,
            decreases i - j,
        {
            if p[j].0 == p[i].0 {
                seen = true;
            }
            j = j + 1;
        }
        if !seen {
            c = c + 1;
        }
        proof {
            let q = p@.subrange(0, i + 1);
            assert(q.drop_last() =~= p@.subrange(0, i as int));
            assert(seen == exists|k: int| 0 <= k < q.len() - 1 && q[k].0 == q.last().0) by {
                if seen {
                    let k = choose|k: int| 0 <= k < i && p@[k].0 == p@[i as int].0;
                    assert(q[k].0 == q.last().0);
                }
            }
        }
        i = i + 1;
    }
    assert(p@.subrange(0, p@.len() as int) =~= p@);
    c
}

impl<D: BRBDataType> DeterministicBRB<D> {
    /// The broadcast layer's checks of a validation request from `from`.
    pub fn check_request(&self, from: Actor, msg: &Msg) -> (r: Result<(), ValidationError<D::ValidationError>>)
        requires
            self.wf(),
        ensures
            r is Ok <==> self.request_ok(from, *msg),
            r is Err ==> self.request_rejection(from, *msg, r->Err_0),
    {
        if from != msg.dot.actor {
            return Err(ValidationError::PacketSourceIsNotDot { from, dot: msg.dot });
        }
        let received = clock_get(&self.received, from);
        if received == u64::MAX || msg.dot.counter != received + 1 {
            let expected_dot = if received == u64::MAX {
                Dot { actor: from, counter: received }
            } else {
                clock_inc(&self.received, from)
            };
            return Err(ValidationError::MsgDotNotTheNextDot { msg_dot: msg.dot, expected_dot });
        }
        let delivered = clock_get(&self.delivered, from);
        if msg.dot.counter != delivered + 1 {
            let next_deliver_dot = clock_inc(&self.delivered, from);
            return Err(ValidationError::SourceAlreadyHasPendingMsg { msg_dot: msg.dot, next_deliver_dot });
        }
        if msg.gen != self.membership.gen {
            return Err(ValidationError::MessageFromDifferentGeneration { msg_gen: msg.gen, gen: self.membership.gen });
        }
        let members = match self.membership.members(self.membership.gen) {
            Ok(m) => m,
            Err(_) => Vec::new(),
        };
        if !contains_actor(&members, from) {
            return Err(ValidationError::SourceIsNotVotingMember { from, members });
        }
        Ok(())
    }

    /// Answers a validation request that passed the broadcast layer's checks,
    /// given the data type's verdict on its operation: a refusal is
    /// reported as is and changes nothing; otherwise the request is
    /// acknowledged and signed.
    pub fn accept_request(
        &mut self,
        from: Actor,
        msg: Msg,
        verdict: Result<(), D::ValidationError>,
    ) -> (r: Result<Vec<Packet>, Error<D::ValidationError>>)
        requires
            old(self).wf(),
            old(self).request_ok(from, msg),
        ensures
            final(self).wf(),
            final(self).me() == old(self).me(),
            verdict is Err ==> r == Err::<Vec<Packet>, Error<D::ValidationError>>(
                Error::Validation(ValidationError::DataTypeFailedValidation(verdict->Err_0)),
            ) && *final(self) == *old(self),
            verdict is Ok ==> r is Ok && old(self).acknowledgement(*final(self), from, msg, r->Ok_0@),
    {
        match verdict {
            Ok(()) => Ok(self.process_request(from, msg)),
            Err(e) => Err(Error::Validation(ValidationError::DataTypeFailedValidation(e))),
        }
    }

    /// The checks of a signed validation from `from`: the signature covers
    /// `msg` under `from`'s key, and `msg` is ours.
    pub fn check_signed(&self, from: Actor, msg: &Msg, sig: &Sig) -> (r: Result<(), ValidationError<D::ValidationError>>)
        ensures
            !signature_valid(actor_bytes(from), msg_bytes(*msg), sig_bytes(*sig)) ==> r == Err::<
                (),
                ValidationError<D::ValidationError>,
            >(ValidationError::InvalidSignature),
            signature_valid(actor_bytes(from), msg_bytes(*msg), sig_bytes(*sig)) && msg.dot.actor != self.me()
                ==> r == Err::<(), ValidationError<D::ValidationError>>(
                ValidationError::SignedValidatedForPacketWeDidNotRequest,
            ),
            r is Ok <==> signature_valid(actor_bytes(from), msg_bytes(*msg), sig_bytes(*sig)) && msg.dot.actor
                == self.me(),
    {
        let bytes = msg.to_bytes();
        if !from.verify(&bytes, sig) {
            return Err(ValidationError::InvalidSignature);
        }
        if self.actor() != msg.dot.actor {
            return Err(ValidationError::SignedValidatedForPacketWeDidNotRequest);
        }
        Ok(())
    }

    /// The checks of a proof of agreement for `msg`.
    pub fn check_delivery(&self, msg: &Msg, proof: &Vec<Signature>) -> (r: Result<(), Error<D::ValidationError>>)
        requires
            self.wf(),
        ensures
            r is Ok <==> self.delivery_ok(*msg, proof@),
            r is Err ==> self.delivery_rejection(*msg, proof@, r->Err_0),
    {
        let members = match self.membership.members(msg.gen) {
            Ok(m) => m,
            Err(e) => return Err(Error::Membership(e)),
        };
        proof {
            members@.unique_seq_to_set();
        }
        let delivered = clock_get(&self.delivered, msg.dot.actor);
        if delivered == u64::MAX || msg.dot.counter != delivered + 1 {
            let expected_dot = if delivered == u64::MAX {
                Dot { actor: msg.dot.actor, counter: delivered }
            } else {
                clock_inc(&self.delivered, msg.dot.actor)
            };
            return Err(Error::Validation(ValidationError::MsgDotNotNextDotToBeDelivered { msg_dot: msg.dot, expected_dot }));
        }
        let n = count_signers(proof) as u128;
        if !(3 * n > 2 * (members.len() as u128)) {
            return Err(Error::Validation(ValidationError::NotEnoughSignaturesToFormQuorum));
        }
        let mut i: usize = 0;
        while i < proof.len()
            invariant
                0 <= i <= proof@.len(),
                msg.gen <= self.membership.gen,
                msg.dot.counter == counter(self.delivered, msg.dot.actor) + 1,
                supermajority(distinct_signers(proof@) as int, self.membership.members_at(msg.gen as nat).len() as int),
                members@.to_set() == self.membership.members_at(msg.gen as nat),
                forall|k: int| 0 <= k < i ==> self.membership.members_at(msg.gen as nat).contains((#[trigger] proof@[k]).0),
            decreases proof@.len() - i,
        {
            if !contains_actor(&members, proof[i].0) {
                return Err(Error::Validation(ValidationError::ProofContainsSignaturesFromNonMembers));
            }
            i = i + 1;
        }
        let bytes = msg.to_bytes();
        let mut j: usize = 0;
        while j < proof.len()
            invariant
                0 <= j <= proof@.len(),
                msg.gen <= self.membership.gen,
                msg.dot.counter == counter(self.delivered, msg.dot.actor) + 1,
                forall|k: int| 0 <= k < proof@.len() ==> self.membership.members_at(msg.gen as nat).contains((#[trigger] proof@[k]).0),
                supermajority(distinct_signers(proof@) as int, self.membership.members_at(msg.gen as nat).len() as int),
                bytes@ == msg_bytes(*msg),
                forall|k: int|
                    0 <= k < j ==> signature_valid(
                        actor_bytes((#[trigger] proof@[k]).0),
                        msg_bytes(*msg),
                        sig_bytes(proof@[k].1),
                    ),
            decreases proof@.len() - j,
        {
            if !proof[j].0.verify(&bytes, &proof[j].1) {
                return Err(Error::Validation(ValidationError::ProofContainsInvalidSignatures));
            }
            j = j + 1;
        }
        Ok(())
    }
}


impl<D: BRBDataType> DeterministicBRB<D> {
    /// Acknowledges a valid request: the source's received counter moves to
    /// the message's dot, and a signed validation goes back to the source.
    fn process_request(&mut self, from: Actor, msg: Msg) -> (r: Vec<Packet>)
        requires
            old(self).wf(),
            old(self).request_ok(from, msg),
        ensures
            final(self).wf(),
            old(self).acknowledgement(*final(self), from, msg, r@),
    {
        let ghost o = *self;
        clock_apply(&mut self.received, msg.dot);
        proof {
            assert forall|a: Actor| #[trigger] counter(self.received, a) == if a == from {
                msg.dot.counter
            } else {
                counter(o.received, a)
            } by {
                if key_of(a) == key_of(from) {
                    assert(a == from);
                }
            }
            assert(self.history_from_source == o.history_from_source);
            assert(self.delivered == o.delivered);
            assert forall|a: Actor| #[trigger] counter(self.delivered, a) == self.source_log(a).len() by {
                assert(self.source_log(a) == o.source_log(a));
                assert(counter(o.delivered, a) == o.source_log(a).len());
            }
            assert forall|a: Actor| #[trigger] counter(self.delivered, a) <= counter(self.received, a) by {
                assert(counter(o.delivered, a) <= counter(o.received, a));
            }
        }
        let bytes = msg.to_bytes();
        let sig = self.membership.id.sign(&bytes);
        let p = self.send(from, Payload::BRB(Op::SignedValidated { msg, sig }));
        let mut r: Vec<Packet> = Vec::new();
        r.push(p);
        r
    }

    /// Index of the pending entry for `msg`.
    fn pending_index(&self, msg: &Msg) -> (r: Option<usize>)
        requires
            self.wf(),
        ensures
            r matches Some(i) ==> i < self.pending_proof@.len() && same_msg(self.pending_proof@[i as int].0, *msg)
                && pending_for(self.pending_proof@, *msg) == self.pending_proof@[i as int].1@,
            r is None ==> !exists|i: int| 0 <= i < self.pending_proof@.len() && same_msg(self.pending_proof@[i].0, *msg),
    {
        let mut i: usize = 0;
        while i < self.pending_proof.len()
            invariant
                self.wf(),
                0 <= i <= self.pending_proof@.len(),
                forall|j: int| 0 <= j < i ==> !same_msg(self.pending_proof@[j].0, *msg),
            decreases self.pending_proof@.len() - i,
        {
            if self.pending_proof[i].0.same(msg) {
                proof {
                    let k = choose|k: int| 0 <= k < self.pending_proof@.len() && same_msg(self.pending_proof@[k].0, *msg);
                    let ii = i as int;
                    if k > ii {
                        assert(!same_msg(self.pending_proof@[ii].0, self.pending_proof@[k].0));
                    }
                }
                return Some(i);
            }
            i = i + 1;
        }
        None
    }
}

/// Sets `a`'s signature in `p` to `s`.
fn put_signature(p: &mut Vec<Signature>, a: Actor, s: Sig)
    requires
        unique_signers(old(p)@),
    ensures
        unique_signers(final(p)@),
        final(p)@ == with_signature(old(p)@, a, s),
{
    let ghost o = p@;
    let mut i: usize = 0;
    while i < p.len() && p[i].0 != a
        invariant
            0 <= i <= p@.len(),
            p@ == o,
            forall|j: int| 0 <= j < i ==> p@[j].0 != a,
        decreases p@.len() - i,
    {
        i = i + 1;
    }
    if i < p.len() {
        p.set(i, (a, s));
        proof {
            assert(exists|j: int| 0 <= j < o.len() && o[j].0 == a);
            assert forall|k: int| 0 <= k < o.len() && k != i implies o[k].0 != a by {
                if k > i {
                    assert(o[i as int].0 != o[k].0);
                }
            }
            assert(p@ =~= with_signature(o, a, s));
        }
    } else {
        p.push((a, s));
        proof {
            assert(p@ =~= with_signature(o, a, s));
        }
    }
}


proof fn lemma_pending_for(pp: Seq<(Msg, Vec<Signature>)>, msg: Msg, i: int)
    requires
        0 <= i < pp.len(),
        same_msg(pp[i].0, msg),
        forall|a: int, b: int| 0 <= a < b < pp.len() ==> !same_msg((#[trigger] pp[a]).0, (#[trigger] pp[b]).0),
    ensures
        pending_for(pp, msg) == pp[i].1@,
{
    let k = choose|k: int| 0 <= k < pp.len() && same_msg(pp[k].0, msg);
    if k < i {
        assert(!same_msg(pp[k].0, pp[i].0));
    } else if k > i {
        assert(!same_msg(pp[i].0, pp[k].0));
    }
}

impl<D: BRBDataType> DeterministicBRB<D> {
    /// Records `from`'s signature of our message `msg`; when this signature
    /// makes the signers a supermajority (one fewer was not), the proof of
    /// agreement goes to every member of the message's generation and to us.
    #[verifier::rlimit(50)]
    fn process_signed(&mut self, from: Actor, msg: Msg, sig: Sig) -> (r: Result<Vec<Packet>, Error<D::ValidationError>>)
        requires
            old(self).wf(),
        ensures
            final(self).wf(),
            final(self).membership == old(self).membership,
            final(self).received == old(self).received,
            final(self).delivered == old(self).delivered,
            final(self).history_from_source == old(self).history_from_source,
            final(self).dt == old(self).dt,
            r is Err <==> msg.gen > old(self).membership.gen,
            r is Err ==> *final(self) == *old(self) && r == Err::<Vec<Packet>, Error<D::ValidationError>>(
                Error::Membership(crate::membership::Error::InvalidGeneration(msg.gen)),
            ),
            r is Ok ==> old(self).signing_outcome(final(self).pending_proof@, from, msg, sig, r->Ok_0@),
    {
        let members = match self.membership.members(msg.gen) {
            Ok(m) => m,
            Err(e) => return Err(Error::Membership(e)),
        };
        proof {
            members@.unique_seq_to_set();
        }
        let ghost o = *self;
        let idx = match self.pending_index(&msg) {
            Some(i) => i,
            None => {
                self.pending_proof.push((msg.copy(), Vec::new()));
                proof {
                    assert forall|a: int, b: int| 0 <= a < b < self.pending_proof@.len() implies !same_msg((#[trigger] self.pending_proof@[a]).0, (#[trigger] self.pending_proof@[b]).0) by {
                        if b == self.pending_proof@.len() - 1 {
                            assert(!same_msg(o.pending_proof@[a].0, msg));
                        }
                    }
                }
                self.pending_proof.len() - 1
            },
        };
        let ghost before = self.pending_proof@;
        assert(pending_for(before, msg) == pending_for(o.pending_proof@, msg)) by {
            if before.len() > o.pending_proof@.len() {
                assert(before[before.len() - 1].1@ == Seq::<Signature>::empty());
                lemma_pending_for(before, msg, before.len() - 1);
            } else {
                lemma_pending_for(before, msg, idx as int);
            }
        }
        let (m, mut p) = self.pending_proof.remove(idx);
        proof {
            assert(unique_signers(before[idx as int].1@));
            lemma_pending_for(before, msg, idx as int);
        }
        put_signature(&mut p, from, sig);
        let num = p.len();
        let proof_copy = copy_signatures(&p);
        self.pending_proof.insert(idx, (m, p));
        proof {
            assert(self.pending_proof@ == before.update(idx as int, self.pending_proof@[idx as int]));
            assert forall|a: int, b: int| 0 <= a < b < self.pending_proof@.len() implies !same_msg((#[trigger] self.pending_proof@[a]).0, (#[trigger] self.pending_proof@[b]).0) by {
                assert(before[a].0 == self.pending_proof@[a].0);
                assert(before[b].0 == self.pending_proof@[b].0);
            }
            assert forall|i: int| 0 <= i < self.pending_proof@.len() implies unique_signers((#[trigger] self.pending_proof@[i]).1@) by {
                if i != idx {
                    assert(self.pending_proof@[i] == before[i]);
                }
            }
            lemma_pending_for(self.pending_proof@, msg, idx as int);
            assert(self.history_from_source == o.history_from_source);
            assert forall|a: Actor| #[trigger] counter(self.delivered, a) == self.source_log(a).len() by {
                assert(self.source_log(a) == o.source_log(a));
                assert(counter(o.delivered, a) == o.source_log(a).len());
            }
        }
        let n = members.len() as u128;
        let num128 = num as u128;
        let crossing = 3 * num128 > 2 * n && !(num128 >= 1 && 3 * (num128 - 1) > 2 * n);
        if !crossing {
            return Ok(Vec::new());
        }
        let me = self.actor();
        let mut to = copy_actors(&members);
        if !contains_actor(&to, me) {
            proof {
                crate::membership::lemma_push_contains(to@, me);
            }
            to.push(me);
        }
        proof {
            crate::membership::lemma_push_contains(members@, me);
            assert(to@.to_set() =~= self.membership.members_at(msg.gen as nat).insert(me));
        }
        let mut r: Vec<Packet> = Vec::new();
        let mut i: usize = 0;
        while i < to.len()
            invariant
                0 <= i <= to@.len(),
                to@.no_duplicates(),
                proof_copy@ == pending_for(self.pending_proof@, msg),
                me == self.me(),
                r@.len() == i,
                forall|k: int| 0 <= k < i ==> is_proof_packet(#[trigger] r@[k], me, to@[k], msg, proof_copy@),
            decreases to@.len() - i,
        {
            let payload = Payload::BRB(Op::ProofOfAgreement { msg: msg.copy(), proof: copy_signatures(&proof_copy) });
            let pk = self.send(to[i], payload);
            r.push(pk);
            i = i + 1;
        }
        proof {
            let target = o.membership.members_at(msg.gen as nat).insert(o.me());
            assert forall|k: int| 0 <= k < r@.len() implies target.contains((#[trigger] r@[k]).dest) by {
                assert(to@.contains(to@[k]));
            }
            assert forall|a: Actor| target.contains(a) implies exists|k: int| 0 <= k < r@.len() && (#[trigger] r@[k]).dest == a by {
                assert(to@.to_set().contains(a));
                let k = choose|k: int| 0 <= k < to@.len() && to@[k] == a;
                assert(r@[k].dest == a);
            }
        }
        Ok(r)
    }
}

/// A copy of a list of actors.
fn copy_actors(v: &Vec<Actor>) -> (r: Vec<Actor>)
    ensures
        r@ == v@,
{
    let mut r: Vec<Actor> = Vec::new();
    let mut i: usize = 0;
    while i < v.len()
        invariant
            0 <= i <= v@.len(),
            r@ == v@.subrange(0, i as int),
        decreases v@.len() - i,
    {
        r.push(v[i]);
        i = i + 1;
        assert(r@ =~= v@.subrange(0, i as int));
    }
    assert(v@.subrange(0, v@.len() as int) =~= v@);
    r
}


/// With one entry per source, the entry for `a` is its delivery log.
pub proof fn lemma_source_log<D: BRBDataType>(b: DeterministicBRB<D>, a: Actor, i: int)
    requires
        0 <= i < b.history_from_source@.len(),
        b.history_from_source@[i].0 == a,
        forall|x: int, y: int|
            0 <= x < y < b.history_from_source@.len() ==> (#[trigger] b.history_from_source@[x]).0
                != (#[trigger] b.history_from_source@[y]).0,
    ensures
        b.source_log(a) == b.history_from_source@[i].1@,
{
    let k = choose|k: int| 0 <= k < b.history_from_source@.len() && b.history_from_source@[k].0 == a;
    if k < i {
        assert(b.history_from_source@[k].0 != b.history_from_source@[i].0);
    } else if k > i {
        assert(b.history_from_source@[i].0 != b.history_from_source@[k].0);
    }
}

impl<D: BRBDataType> DeterministicBRB<D> {
    /// Delivers a proven message: both clocks move to its dot, it joins its
    /// source's history with its proof, its gathered signatures are dropped,
    /// and the data type applies it.
    #[verifier::rlimit(80)]
    fn process_delivery(&mut self, msg: Msg, proof: Vec<Signature>)
        requires
            old(self).wf(),
            old(self).delivery_ok(msg, proof@),
        ensures
            final(self).wf(),
            final(self).membership == old(self).membership,
            forall|a: Actor|
                #[trigger] counter(final(self).delivered, a) == if a == msg.dot.actor {
                    msg.dot.counter
                } else {
                    counter(old(self).delivered, a)
                },
            forall|a: Actor|
                #[trigger] counter(final(self).received, a) == if a == msg.dot.actor && counter(old(self).received, a) < msg.dot.counter {
                    msg.dot.counter
                } else {
                    counter(old(self).received, a)
                },
            final(self).source_log(msg.dot.actor) == old(self).source_log(msg.dot.actor).push((msg, proof)),
            forall|a: Actor| a != msg.dot.actor ==> #[trigger] final(self).source_log(a) == old(self).source_log(a),
            pending_for(final(self).pending_proof@, msg).len() == 0,
    {
        let ghost o = *self;
        let a = msg.dot.actor;
        clock_apply(&mut self.received, msg.dot);
        clock_apply(&mut self.delivered, msg.dot);
        proof {
            assert forall|x: Actor| #[trigger] counter(self.delivered, x) == if x == a { msg.dot.counter } else { counter(o.delivered, x) } by {
                if key_of(x) == key_of(a) {
                    assert(x == a);
                }
            }
            assert forall|x: Actor| #[trigger] counter(self.received, x) == if x == a && counter(o.received, x) < msg.dot.counter {
                msg.dot.counter
            } else {
                counter(o.received, x)
            } by {
                if key_of(x) == key_of(a) {
                    assert(x == a);
                }
            }
        }
        self.dt.apply(&msg.op);
        let mut kept: Vec<(Msg, Vec<Signature>)> = Vec::new();
        let ghost pp = self.pending_proof@;
        let mut k: usize = 0;
        while k < self.pending_proof.len()
            invariant
                0 <= k <= pp.len(),
                self.pending_proof@ == pp,
                pp == o.pending_proof@,
                o.wf(),
                forall|x: int| 0 <= x < kept@.len() ==> !same_msg((#[trigger] kept@[x]).0, msg),
                forall|x: int| 0 <= x < kept@.len() ==> unique_signers((#[trigger] kept@[x]).1@),
                forall|x: int, y: int| 0 <= x < y < kept@.len() ==> !same_msg((#[trigger] kept@[x]).0, (#[trigger] kept@[y]).0),
                forall|x: int| 0 <= x < kept@.len() ==> exists|j: int| 0 <= j < k && same_msg((#[trigger] kept@[x]).0, pp[j].0),
            decreases pp.len() - k,
        {
            if !self.pending_proof[k].0.same(&msg) {
                let e = (self.pending_proof[k].0.copy(), copy_signatures(&self.pending_proof[k].1));
                proof {
                    assert forall|x: int| 0 <= x < kept@.len() implies !same_msg(#[trigger] kept@[x].0, e.0) by {
                        let j = choose|j: int| 0 <= j < k && same_msg(kept@[x].0, pp[j].0);
                        assert(!same_msg(pp[j].0, pp[k as int].0));
                    }
                    assert(unique_signers(pp[k as int].1@));
                }
                kept.push(e);
                proof {
                    assert forall|x: int| 0 <= x < kept@.len() implies exists|j: int| 0 <= j < k + 1 && same_msg((#[trigger] kept@[x]).0, pp[j].0) by {
                        if x < kept@.len() - 1 {
                            let j = choose|j: int| 0 <= j < k && same_msg(kept@[x].0, pp[j].0);
                        } else {
                            assert(same_msg(kept@[x].0, pp[k as int].0));
                        }
                    }
                }
            }
            k = k + 1;
        }
        self.pending_proof = kept;
        let hl = self.history_from_source.len();
        let mut i: usize = 0;
        while i < hl && self.history_from_source[i].0 != a
            invariant
                0 <= i <= hl,
                hl == self.history_from_source@.len(),
                self.history_from_source == o.history_from_source,
                forall|j: int| 0 <= j < i ==> self.history_from_source@[j].0 != a,
            decreases hl - i,
        {
            i = i + 1;
        }
        proof {
            assert(forall|x: int| 0 <= x < self.pending_proof@.len() ==> !same_msg(#[trigger] self.pending_proof@[x].0, msg));
        }
        let ghost hfs = self.history_from_source@;
        let ghost entry = (msg, proof);
        if i < hl {
            let (actor, mut log) = self.history_from_source.remove(i);
            proof {
                lemma_source_log(o, a, i as int);
            }
            log.push((msg, proof));
            self.history_from_source.insert(i, (actor, log));
            proof {
                let h2 = self.history_from_source@;
                assert(h2 == hfs.update(i as int, (a, h2[i as int].1)));
                assert(h2[i as int].1@ == hfs[i as int].1@.push(entry));
                assert forall|x: int, y: int| 0 <= x < y < h2.len() implies (#[trigger] h2[x]).0 != (#[trigger] h2[y]).0 by {
                    assert(h2[x].0 == hfs[x].0);
                    assert(h2[y].0 == hfs[y].0);
                }
                lemma_source_log(*self, a, i as int);
                assert forall|x: Actor| x != a implies #[trigger] self.source_log(x) == o.source_log(x) by {
                    if exists|j: int| 0 <= j < hfs.len() && hfs[j].0 == x {
                        let j = choose|j: int| 0 <= j < hfs.len() && hfs[j].0 == x;
                        lemma_source_log(o, x, j);
                        assert(h2[j] == hfs[j]);
                        lemma_source_log(*self, x, j);
                    } else {
                        assert(!exists|j: int| 0 <= j < h2.len() && h2[j].0 == x) by {
                            if exists|j: int| 0 <= j < h2.len() && h2[j].0 == x {
                                let j = choose|j: int| 0 <= j < h2.len() && h2[j].0 == x;
                                assert(hfs[j].0 == x);
                            }
                        }
                    }
                }
                assert forall|x: int, k: int|
                    0 <= x < h2.len() && 0 <= k < (#[trigger] h2[x]).1@.len() implies (#[trigger] h2[x].1@[k]).0.dot == (Dot {
                        actor: h2[x].0,
                        counter: (k + 1) as u64,
                    }) by {
                    if x != i {
                        assert(h2[x] == hfs[x]);
                    } else if k < hfs[x].1@.len() {
                        assert(h2[x].1@[k] == hfs[x].1@[k]);
                    }
                }
            }
        } else {
            let mut log: Vec<(Msg, Vec<Signature>)> = Vec::new();
            log.push((msg, proof));
            self.history_from_source.push((a, log));
            proof {
                let h2 = self.history_from_source@;
                assert(h2 == hfs.push((a, h2[hfs.len() as int].1)));
                assert(o.source_log(a) == Seq::<(Msg, Vec<Signature>)>::empty());
                lemma_source_log(*self, a, hfs.len() as int);
                assert(h2[hfs.len() as int].1@ =~= Seq::<(Msg, Vec<Signature>)>::empty().push(entry));
                assert forall|x: Actor| x != a implies #[trigger] self.source_log(x) == o.source_log(x) by {
                    if exists|j: int| 0 <= j < hfs.len() && hfs[j].0 == x {
                        let j = choose|j: int| 0 <= j < hfs.len() && hfs[j].0 == x;
                        lemma_source_log(o, x, j);
                        assert(h2[j] == hfs[j]);
                        lemma_source_log(*self, x, j);
                    } else {
                        assert(!exists|j: int| 0 <= j < h2.len() && h2[j].0 == x) by {
                            if exists|j: int| 0 <= j < h2.len() && h2[j].0 == x {
                                let j = choose|j: int| 0 <= j < h2.len() && h2[j].0 == x;
                                if j < hfs.len() {
                                    assert(hfs[j].0 == x);
                                }
                            }
                        }
                    }
                }
                assert forall|x: int, k: int|
                    0 <= x < h2.len() && 0 <= k < (#[trigger] h2[x]).1@.len() implies (#[trigger] h2[x].1@[k]).0.dot == (Dot {
                        actor: h2[x].0,
                        counter: (k + 1) as u64,
                    }) by {
                    if x < hfs.len() {
                        assert(h2[x] == hfs[x]);
                    }
                }
            }
        }
        proof {
            assert forall|x: Actor| #[trigger] counter(self.delivered, x) == self.source_log(x).len() by {
                if x != a {
                    assert(counter(o.delivered, x) == o.source_log(x).len());
                }
            }
            assert forall|x: Actor| #[trigger] counter(self.delivered, x) <= counter(self.received, x) by {
                assert(counter(o.delivered, x) <= counter(o.received, x));
            }
        }
    }
}


impl<D: BRBDataType> DeterministicBRB<D> {
    /// Answers an anti-entropy request from `source`, which has seen
    /// generation `generation` and delivered `peer`: the membership votes it
    /// lacks, then a fresh proof-of-agreement packet for every delivered
    /// message it lacks.
    pub fn answer_anti_entropy(&self, source: Actor, generation: Generation, peer: &Clock) -> (r: Vec<Packet>)
        requires
            self.wf(),
        ensures
            self.anti_entropy_answer(source, generation, *peer, r@),
    {
        let msgs = self.membership.anti_entropy(generation, source);
        let ghost mm = msgs@;
        let mut r = self.vote_packets(msgs);
        let ghost nv = r@.len();
        let ghost votes = r@;
        let mut i: usize = 0;
        while i < self.history_from_source.len()
            invariant
                self.wf(),
                0 <= i <= self.history_from_source@.len(),
                nv == votes.len(),
                r@.len() == nv + missing_entries(self.history_from_source@.subrange(0, i as int), *peer).len(),
                r@.subrange(0, nv as int) == votes,
                forall|k: int| 0 <= k < r@.len() ==> (#[trigger] r@[k]).source == self.me() && r@[k].dest == source,
                forall|k: int|
                    0 <= k < missing_entries(self.history_from_source@.subrange(0, i as int), *peer).len() ==> is_proof_packet(
                        #[trigger] r@[nv + k],
                        self.me(),
                        source,
                        missing_entries(self.history_from_source@.subrange(0, i as int), *peer)[k].0,
                        missing_entries(self.history_from_source@.subrange(0, i as int), *peer)[k].1@,
                    ),
            decreases self.history_from_source@.len() - i,
        {
            let actor = self.history_from_source[i].0;
            let log = &self.history_from_source[i].1;
            let seen = clock_get(peer, actor);
            let ghost before = r@.len();
            let ghost prev = missing_entries(self.history_from_source@.subrange(0, i as int), *peer);
            let mut k: usize = 0;
            while k < log.len()
                invariant
                    self.wf(),
                    0 <= i < self.history_from_source@.len(),
                    *log == self.history_from_source@[i as int].1,
                    actor == self.history_from_source@[i as int].0,
                    seen == counter(*peer, actor),
                    0 <= k <= log@.len(),
                    before == nv + prev.len(),
                    r@.len() == before + unseen(log@.subrange(0, k as int), seen).len(),
                    r@.subrange(0, nv as int) == votes,
                    forall|q: int| 0 <= q < r@.len() ==> (#[trigger] r@[q]).source == self.me() && r@[q].dest == source,
                    forall|q: int|
                        0 <= q < prev.len() ==> is_proof_packet(#[trigger] r@[nv + q], self.me(), source, prev[q].0, prev[q].1@),
                    forall|q: int|
                        0 <= q < unseen(log@.subrange(0, k as int), seen).len() ==> is_proof_packet(
                            #[trigger] r@[before + q],
                            self.me(),
                            source,
                            unseen(log@.subrange(0, k as int), seen)[q].0,
                            unseen(log@.subrange(0, k as int), seen)[q].1@,
                        ),
                decreases log@.len() - k,
            {
                proof {
                    assert(log@[k as int].0.dot == (Dot { actor, counter: (k + 1) as u64 }));
                    let u0 = unseen(log@.subrange(0, k as int), seen);
                    let u1 = unseen(log@.subrange(0, k + 1), seen);
                    if seen <= k {
                        assert(u1 =~= u0.push(log@[k as int]));
                    } else {
                        assert(u1 =~= u0);
                    }
                }
                if log[k].0.dot.counter > seen {
                    let payload = Payload::BRB(Op::ProofOfAgreement { msg: log[k].0.copy(), proof: copy_signatures(&log[k].1) });
                    let pk = self.send(source, payload);
                    r.push(pk);
                }
                k = k + 1;
            }
            proof {
                let h = self.history_from_source@.subrange(0, i + 1);
                assert(h.drop_last() =~= self.history_from_source@.subrange(0, i as int));
                assert(log@.subrange(0, log@.len() as int) =~= log@);
                let cur = missing_entries(h, *peer);
                let u = unseen(log@, seen);
                assert(cur == prev + u);
                assert forall|q: int| 0 <= q < cur.len() implies is_proof_packet(#[trigger] r@[nv + q], self.me(), source, cur[q].0, cur[q].1@) by {
                    if q < prev.len() {
                        assert(cur[q] == prev[q]);
                    } else {
                        assert(cur[q] == u[q - prev.len()]);
                        assert(nv + q == before + (q - prev.len()));
                    }
                }
            }
            i = i + 1;
        }
        assert(self.history_from_source@.subrange(0, self.history_from_source@.len() as int) =~= self.history_from_source@);
        proof {
            let g = self.membership.gen;
            let start = if generation < g { generation as int } else { g as int };
            let missing = self.membership.history@.subrange(start, self.membership.history@.len() as int) + self.membership.votes@;
            assert forall|q: int| 0 <= q < missing.len() implies (#[trigger] r@[q]).payload == Payload::Membership(missing[q]) by {
                assert(r@.subrange(0, nv as int)[q] == r@[q]);
                assert(votes[q].payload == Payload::Membership(mm[q].vote));
            }
        }
        r
    }
}


impl<D: BRBDataType> DeterministicBRB<D> {
    /// Handles an incoming packet: checks its outer signature, validates its
    /// payload, and processes it. A refused packet changes nothing.
    #[verifier::rlimit(80)]
    pub fn handle_packet(&mut self, packet: Packet) -> (r: Result<Vec<Packet>, Error<D::ValidationError>>)
        requires
            old(self).wf(),
        ensures
            final(self).wf(),
            final(self).me() == old(self).me(),
            forall|a: Actor| #[trigger] counter(old(self).received, a) <= counter(final(self).received, a),
            forall|a: Actor| #[trigger] counter(old(self).delivered, a) <= counter(final(self).delivered, a),
            old(self).membership.gen <= final(self).membership.gen,
            r is Err ==> {
                &&& final(self).membership == old(self).membership
                &&& final(self).received == old(self).received
                &&& final(self).delivered == old(self).delivered
                &&& final(self).history_from_source == old(self).history_from_source
                &&& final(self).pending_proof == old(self).pending_proof
                &&& final(self).dt == old(self).dt
            },
            !packet_signed(packet) ==> r == Err::<Vec<Packet>, Error<D::ValidationError>>(
                Error::Validation(ValidationError::InvalidSignature),
            ),
            packet_signed(packet) && packet.payload is AntiEntropy ==> r is Ok && *final(self) == *old(self)
                && old(self).anti_entropy_answer(
                packet.source,
                packet.payload->AntiEntropy_generation,
                packet.payload->AntiEntropy_delivered,
                r->Ok_0@,
            ),
            packet_signed(packet) && packet.payload is Membership ==> {
                let vote = packet.payload->Membership_0;
                &&& r is Ok ==> {
                    &&& final(self).received == old(self).received
                    &&& final(self).delivered == old(self).delivered
                    &&& final(self).history_from_source == old(self).history_from_source
                    &&& final(self).pending_proof == old(self).pending_proof
                    &&& final(self).dt == old(self).dt
                    &&& exists|msgs: Vec<VoteMsg>|
                        old(self).membership.vote_outcome(
                            vote,
                            final(self).membership,
                            Ok::<Vec<VoteMsg>, crate::membership::Error>(msgs),
                        ) && vote_packets_of(r->Ok_0@, msgs@, old(self).me())
                }
                &&& r is Err ==> r->Err_0 is Membership && old(self).membership.vote_outcome(
                    vote,
                    final(self).membership,
                    Err::<Vec<VoteMsg>, crate::membership::Error>(r->Err_0->Membership_0),
                )
            },
            packet_signed(packet) && packet.payload is BRB && packet.payload->BRB_0 is RequestValidation ==> {
                let msg = packet.payload->BRB_0->RequestValidation_msg;
                &&& !old(self).request_ok(packet.source, msg) ==> r is Err && r->Err_0 is Validation
                    && old(self).request_rejection(packet.source, msg, r->Err_0->Validation_0)
                &&& old(self).request_ok(packet.source, msg) && r is Err ==> r->Err_0 is Validation
                    && r->Err_0->Validation_0 is DataTypeFailedValidation
                &&& r is Ok ==> old(self).request_ok(packet.source, msg) && old(self).acknowledgement(
                    *final(self),
                    packet.source,
                    msg,
                    r->Ok_0@,
                )
            },
            packet_signed(packet) && packet.payload is BRB && packet.payload->BRB_0 is SignedValidated ==> {
                let msg = packet.payload->BRB_0->SignedValidated_msg;
                let sig = packet.payload->BRB_0->SignedValidated_sig;
                &&& r is Ok <==> signature_valid(actor_bytes(packet.source), msg_bytes(msg), sig_bytes(sig))
                    && msg.dot.actor == old(self).me() && msg.gen <= old(self).membership.gen
                &&& !signature_valid(actor_bytes(packet.source), msg_bytes(msg), sig_bytes(sig)) ==> r == Err::<
                    Vec<Packet>,
                    Error<D::ValidationError>,
                >(Error::Validation(ValidationError::InvalidSignature))
                &&& signature_valid(actor_bytes(packet.source), msg_bytes(msg), sig_bytes(sig)) && msg.dot.actor
                    != old(self).me() ==> r == Err::<Vec<Packet>, Error<D::ValidationError>>(
                    Error::Validation(ValidationError::SignedValidatedForPacketWeDidNotRequest),
                )
                &&& signature_valid(actor_bytes(packet.source), msg_bytes(msg), sig_bytes(sig)) && msg.dot.actor
                    == old(self).me() && msg.gen > old(self).membership.gen ==> r == Err::<
                    Vec<Packet>,
                    Error<D::ValidationError>,
                >(Error::Membership(crate::membership::Error::InvalidGeneration(msg.gen)))
                &&& r is Ok ==> {
                    &&& final(self).membership == old(self).membership
                    &&& final(self).received == old(self).received
                    &&& final(self).delivered == old(self).delivered
                    &&& final(self).history_from_source == old(self).history_from_source
                    &&& final(self).dt == old(self).dt
                    &&& old(self).signing_outcome(final(self).pending_proof@, packet.source, msg, sig, r->Ok_0@)
                }
            },
            packet_signed(packet) && packet.payload is BRB && packet.payload->BRB_0 is ProofOfAgreement ==> {
                let msg = packet.payload->BRB_0->ProofOfAgreement_msg;
                let proof = packet.payload->BRB_0->ProofOfAgreement_proof;
                let a = msg.dot.actor;
                &&& r is Ok <==> old(self).delivery_ok(msg, proof@)
                &&& r is Err ==> old(self).delivery_rejection(msg, proof@, r->Err_0)
                &&& r is Ok ==> {
                    &&& r->Ok_0@.len() == 0
                    &&& final(self).membership == old(self).membership
                    &&& forall|x: Actor|
                        #[trigger] counter(final(self).delivered, x) == if x == a {
                            msg.dot.counter
                        } else {
                            counter(old(self).delivered, x)
                        }
                    &&& forall|x: Actor|
                        #[trigger] counter(final(self).received, x) == if x == a && counter(old(self).received, x)
                            < msg.dot.counter {
                            msg.dot.counter
                        } else {
                            counter(old(self).received, x)
                        }
                    &&& final(self).source_log(a) == old(self).source_log(a).push((msg, proof))
                    &&& forall|x: Actor| x != a ==> #[trigger] final(self).source_log(x) == old(self).source_log(x)
                    &&& pending_for(final(self).pending_proof@, msg).len() == 0
                }
            },
    {
        let bytes = packet.payload.to_bytes();
        if !packet.source.verify(&bytes, &packet.sig) {
            return Err(Error::Validation(ValidationError::InvalidSignature));
        }
        let source = packet.source;
        let ghost o = *self;
        match packet.payload {
            Payload::AntiEntropy { generation, delivered } => {
                Ok(self.answer_anti_entropy(source, generation, &delivered))
            },
            Payload::Membership(vote) => {
                match self.membership.handle_vote(vote) {
                    Ok(msgs) => {
                        proof {
                            assert(self.history_from_source == o.history_from_source);
                            assert forall|a: Actor| #[trigger] counter(self.delivered, a) == self.source_log(a).len() by {
                                assert(self.source_log(a) == o.source_log(a));
                                assert(counter(o.delivered, a) == o.source_log(a).len());
                            }
                        }
                        let ghost m = msgs@;
                        let ps = self.vote_packets(msgs);
                        let ghost pv = ps@;
                        let res: Result<Vec<Packet>, Error<D::ValidationError>> = Ok(ps);
                        assert(res->Ok_0@ == pv);
                        assert(vote_packets_of(res->Ok_0@, m, o.me()));
                        res
                    },
                    Err(e) => Err(Error::Membership(e)),
                }
            },
            Payload::BRB(op) => match op {
                Op::RequestValidation { msg } => {
                    match self.check_request(source, &msg) {
                        Ok(()) => {},
                        Err(e) => return Err(Error::Validation(e)),
                    }
                    let verdict = self.dt.validate(&source, &msg.op);
                    self.accept_request(source, msg, verdict)
                },
                Op::SignedValidated { msg, sig } => {
                    match self.check_signed(source, &msg, &sig) {
                        Ok(()) => {},
                        Err(e) => return Err(Error::Validation(e)),
                    }
                    self.process_signed(source, msg, sig)
                },
                Op::ProofOfAgreement { msg, proof } => {
                    match self.check_delivery(&msg, &proof) {
                        Ok(()) => {},
                        Err(e) => return Err(e),
                    }
                    self.process_delivery(msg, proof);
                    Ok(Vec::new())
                },
            },
        }
    }
}


/// In every well-formed process nothing is delivered before it is received:
/// for each actor the delivered counter is at most the received counter.
pub proof fn law_delivered_within_received<D: BRBDataType>(b: DeterministicBRB<D>, a: Actor)
    requires
        b.wf(),
    ensures
        counter(b.delivered, a) <= counter(b.received, a),
{
}

/// The messages delivered from a source carry the counters 1, 2, 3, ... in
/// order, and there are as many as the delivered clock counts.
pub proof fn law_source_history_in_order<D: BRBDataType>(b: DeterministicBRB<D>, a: Actor)
    requires
        b.wf(),
    ensures
        b.source_log(a).len() == counter(b.delivered, a),
        forall|k: int| 0 <= k < b.source_log(a).len() ==> (#[trigger] b.source_log(a)[k]).0.dot == (Dot {
            actor: a,
            counter: (k + 1) as u64,
        }),
{
    if exists|i: int| 0 <= i < b.history_from_source@.len() && b.history_from_source@[i].0 == a {
        let i = choose|i: int| 0 <= i < b.history_from_source@.len() && b.history_from_source@[i].0 == a;
        lemma_source_log(b, a, i);
        assert forall|k: int| 0 <= k < b.source_log(a).len() implies (#[trigger] b.source_log(a)[k]).0.dot == (Dot {
            actor: a,
            counter: (k + 1) as u64,
        }) by {
            assert(b.history_from_source@[i].1@[k] == b.source_log(a)[k]);
        }
    }
}

/// A proof of agreement for a message that was already delivered is
/// refused: once a source's delivered counter has reached the message's
/// counter, the message is no longer the next one to deliver. Since a
/// refused packet changes nothing, delivering it twice acts once.
pub proof fn law_duplicate_delivery_refused<D: BRBDataType>(b: DeterministicBRB<D>, msg: Msg, proof: Seq<Signature>)
    requires
        b.wf(),
        msg.dot.counter <= counter(b.delivered, msg.dot.actor),
    ensures
        !b.delivery_ok(msg, proof),
        forall|e: Error<D::ValidationError>|
            msg.gen <= b.membership.gen && #[trigger] b.delivery_rejection(msg, proof, e) ==> e == Error::<
                D::ValidationError,
            >::Validation(
                ValidationError::MsgDotNotNextDotToBeDelivered {
                    msg_dot: msg.dot,
                    expected_dot: DeterministicBRB::<D>::next_dot(b.delivered, msg.dot.actor),
                },
            ),
{
}

/// A peer whose delivered clock is at least ours for every actor lacks none
/// of our delivered messages: anti-entropy sends it no proofs of agreement.
pub proof fn law_caught_up_peer_lacks_nothing<D: BRBDataType>(b: DeterministicBRB<D>, peer: Clock)
    requires
        b.wf(),
        forall|a: Actor| counter(b.delivered, a) <= #[trigger] counter(peer, a),
    ensures
        missing_entries(b.history_from_source@, peer).len() == 0,
{
    lemma_missing_none(b, peer, b.history_from_source@.len() as int);
    assert(b.history_from_source@.subrange(0, b.history_from_source@.len() as int) =~= b.history_from_source@);
}

proof fn lemma_missing_none<D: BRBDataType>(b: DeterministicBRB<D>, peer: Clock, n: int)
    requires
        b.wf(),
        0 <= n <= b.history_from_source@.len(),
        forall|a: Actor| counter(b.delivered, a) <= #[trigger] counter(peer, a),
    ensures
        missing_entries(b.history_from_source@.subrange(0, n), peer).len() == 0,
    decreases n,
{
    let h = b.history_from_source@.subrange(0, n);
    if n > 0 {
        lemma_missing_none(b, peer, n - 1);
        assert(h.drop_last() =~= b.history_from_source@.subrange(0, n - 1));
        let a = h.last().0;
        lemma_source_log(b, a, n - 1);
        assert(counter(b.delivered, a) <= counter(peer, a));
    }
    if n == b.history_from_source@.len() {
        assert(h =~= b.history_from_source@);
    }
}

} // verus!
