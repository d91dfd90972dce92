use std::collections::BTreeSet;

use brb::actor::{Actor, Sig, SigningActor};
use brb::brb_data_type::BRBDataType;
use brb::clock::Dot;
use brb::deterministic_brb::DeterministicBRB;
use brb::error::{Error, ValidationError};
use brb::net::Net;
use brb::packet::{Msg, Op, Packet, Payload};

#[derive(Debug)]
struct TestDT {
    set: BTreeSet<u8>,
}

impl BRBDataType for TestDT {
    type ValidationError = String;

    fn new(_actor: Actor) -> Self {
        TestDT { set: BTreeSet::new() }
    }

    fn validate(&self, _source: &Actor, op: &Vec<u8>) -> Result<(), String> {
        if op.len() == 1 {
            Ok(())
        } else {
            Err(format!("an op is one byte, got {}", op.len()))
        }
    }

    fn apply(&mut self, op: &Vec<u8>) {
        self.set.insert(op[0]);
    }
}

type Proc = DeterministicBRB<TestDT>;

fn keypair(seed: u8) -> ed25519_dalek::Keypair {
    let secret = ed25519_dalek::SecretKey::from_bytes(&[seed; 32]).unwrap();
    let public = ed25519_dalek::PublicKey::from(&secret);
    ed25519_dalek::Keypair { secret, public }
}

fn run(net: &mut Net<TestDT>, mut packets: Vec<Packet>) {
    let mut steps = 0;
    while !packets.is_empty() {
        let p = packets.remove(0);
        let more = net.deliver_packet(p);
        packets.extend(more);
        steps += 1;
        assert!(steps < 100_000);
    }
}

fn anti_entropy(net: &mut Net<TestDT>) {
    let mut packets = Vec::new();
    for p in net.procs.iter() {
        for peer in p.peers().unwrap() {
            packets.push(p.anti_entropy(peer).unwrap());
        }
    }
    run(net, packets);
}

fn proc<'a>(net: &'a Net<TestDT>, a: &Actor) -> &'a Proc {
    &net.procs[net.proc_index(a).unwrap()]
}

fn proc_mut<'a>(net: &'a mut Net<TestDT>, a: &Actor) -> &'a mut Proc {
    let i = net.proc_index(a).unwrap();
    &mut net.procs[i]
}

fn add(net: &mut Net<TestDT>, seed: u8) -> Actor {
    net.initialize_proc(SigningActor::new(keypair(seed)))
}

fn bootstrap(net: &mut Net<TestDT>, n: u8) -> Vec<Actor> {
    let genesis = add(net, 1);
    proc_mut(net, &genesis).force_join(genesis);
    let mut actors = vec![genesis];
    for seed in 2..=n {
        let a = add(net, seed);
        proc_mut(net, &a).force_join(genesis);
        let packets = proc_mut(net, &genesis).request_membership(a).unwrap();
        run(net, packets);
        anti_entropy(net);
        actors.push(a);
    }
    actors
}

fn request_packet(from: &SigningActor, dest: Actor, gen: u64, op: u8, dot: Dot) -> Packet {
    let payload = Payload::BRB(Op::RequestValidation { msg: Msg { gen, op: vec![op], dot } });
    let sig = from.sign(&payload.to_bytes());
    Packet { source: from.actor(), dest, payload, sig }
}

fn proof_packet(from: &SigningActor, dest: Actor, msg: Msg, proof: Vec<(Actor, Sig)>) -> Packet {
    let payload = Payload::BRB(Op::ProofOfAgreement { msg, proof });
    let sig = from.sign(&payload.to_bytes());
    Packet { source: from.actor(), dest, payload, sig }
}

#[test]
fn bootstrap_three_members_agree() {
    let mut net: Net<TestDT> = Net::new();
    let actors = bootstrap(&mut net, 3);
    let mut expected = actors.clone();
    expected.sort_by_key(|a| (a.hi, a.lo));
    for a in actors.iter() {
        let mut peers = proc(&net, a).peers().unwrap();
        peers.sort_by_key(|a| (a.hi, a.lo));
        assert_eq!(peers, expected);
        assert_eq!(proc(&net, a).membership.gen, 2);
    }
    let mut members = net.members();
    members.sort_by_key(|a| (a.hi, a.lo));
    assert_eq!(members, expected);
    assert!(net.members_are_in_agreement());
    assert_eq!(net.actors(), actors);
}

#[test]
fn test_sequential_adds_run_cuncurrently() {
    let mut net: Net<TestDT> = Net::new();
    let actors = bootstrap(&mut net, 1);
    let a = actors[0];
    let first = proc(&net, &a).exec_op(vec![0]).unwrap();
    let mut pending = Vec::new();
    for p in first {
        pending.extend(net.deliver_packet(p));
    }
    let second = proc(&net, &a).exec_op(vec![1]).unwrap();
    let mut invalid_pending = 0;
    for p in second {
        invalid_pending += net.deliver_packet(p).len();
    }
    assert_eq!(net.count_invalid_packets(), 1);
    assert_eq!(invalid_pending, 0);
    run(&mut net, pending);
    assert!(net.members_are_in_agreement());
    assert_eq!(proc(&net, &a).dt.set, vec![0u8].into_iter().collect());
}

#[test]
fn brb_orswot_net_test_concurrent_op_and_member_change() {
    let mut net: Net<TestDT> = Net::new();
    let actors = bootstrap(&mut net, 3);
    let (a, b, c) = (actors[0], actors[1], actors[2]);
    let requests = proc(&net, &a).exec_op(vec![32]).unwrap();
    let mut signed = Vec::new();
    for p in requests {
        signed.extend(net.deliver_packet(p));
    }
    let mut proofs = Vec::new();
    for p in signed {
        proofs.extend(net.deliver_packet(p));
    }
    assert!(!proofs.is_empty());
    let packets_b = proc_mut(&mut net, &b).kill_peer(b).unwrap();
    run(&mut net, packets_b);
    let packets_c = proc_mut(&mut net, &c).kill_peer(c).unwrap();
    run(&mut net, packets_c);
    run(&mut net, proofs);
    assert!(net.members_are_in_agreement());
    assert!(proc(&net, &a).dt.set.contains(&32));
}

#[test]
fn forged_dot_is_rejected_without_change() {
    let mut net: Net<TestDT> = Net::new();
    let actors = bootstrap(&mut net, 2);
    let (a, b) = (actors[0], actors[1]);
    let a_id = SigningActor::new(keypair(1));
    assert_eq!(a_id.actor(), a);
    let packet = request_packet(&a_id, b, 1, 5, Dot { actor: b, counter: 1 });
    let before = brb::clock::clock_get(&proc(&net, &b).received, b);
    let r = proc_mut(&mut net, &b).handle_packet(packet);
    assert!(matches!(r, Err(Error::Validation(ValidationError::PacketSourceIsNotDot { from, .. })) if from == a));
    assert_eq!(brb::clock::clock_get(&proc(&net, &b).received, b), before);
}

#[test]
fn request_checks_generation_membership_and_data_type() {
    let mut net: Net<TestDT> = Net::new();
    let actors = bootstrap(&mut net, 2);
    let (a, b) = (actors[0], actors[1]);
    let a_id = SigningActor::new(keypair(1));
    let gen = proc(&net, &b).membership.gen;
    let wrong_gen = request_packet(&a_id, b, gen + 1, 5, Dot { actor: a, counter: 1 });
    assert!(matches!(
        proc_mut(&mut net, &b).handle_packet(wrong_gen),
        Err(Error::Validation(ValidationError::MessageFromDifferentGeneration { msg_gen, gen: g })) if msg_gen == gen + 1 && g == gen
    ));
    let skipped = request_packet(&a_id, b, gen, 5, Dot { actor: a, counter: 2 });
    assert!(matches!(
        proc_mut(&mut net, &b).handle_packet(skipped),
        Err(Error::Validation(ValidationError::MsgDotNotTheNextDot { expected_dot, .. })) if expected_dot == Dot { actor: a, counter: 1 }
    ));
    let stranger = SigningActor::new(keypair(50));
    let from_stranger = request_packet(&stranger, b, gen, 5, Dot { actor: stranger.actor(), counter: 1 });
    assert!(matches!(
        proc_mut(&mut net, &b).handle_packet(from_stranger),
        Err(Error::Validation(ValidationError::SourceIsNotVotingMember { .. }))
    ));
    let payload = Payload::BRB(Op::RequestValidation { msg: Msg { gen, op: vec![1, 2], dot: Dot { actor: a, counter: 1 } } });
    let sig = a_id.sign(&payload.to_bytes());
    let bad_op = Packet { source: a, dest: b, payload, sig };
    assert!(matches!(
        proc_mut(&mut net, &b).handle_packet(bad_op),
        Err(Error::Validation(ValidationError::DataTypeFailedValidation(_)))
    ));
    let good = request_packet(&a_id, b, gen, 5, Dot { actor: a, counter: 1 });
    let out = proc_mut(&mut net, &b).handle_packet(good).unwrap();
    assert_eq!(out.len(), 1);
    assert!(matches!(&out[0].payload, Payload::BRB(Op::SignedValidated { .. })));
    assert_eq!(brb::clock::clock_get(&proc(&net, &b).received, a), 1);
}

#[test]
fn bad_outer_signature_is_rejected() {
    let mut net: Net<TestDT> = Net::new();
    let actors = bootstrap(&mut net, 2);
    let (a, b) = (actors[0], actors[1]);
    let mut packet = proc(&net, &a).anti_entropy(b).unwrap();
    packet.sig.s_lo ^= 1;
    assert!(matches!(
        proc_mut(&mut net, &b).handle_packet(packet),
        Err(Error::Validation(ValidationError::InvalidSignature))
    ));
}

#[test]
fn signed_validation_for_foreign_message_is_rejected() {
    let mut net: Net<TestDT> = Net::new();
    let actors = bootstrap(&mut net, 2);
    let (a, b) = (actors[0], actors[1]);
    let b_id = SigningActor::new(keypair(2));
    let msg = Msg { gen: 2, op: vec![3], dot: Dot { actor: b, counter: 1 } };
    let msg_sig = b_id.sign(&msg.to_bytes());
    let payload = Payload::BRB(Op::SignedValidated { msg, sig: msg_sig });
    let sig = b_id.sign(&payload.to_bytes());
    let packet = Packet { source: b, dest: a, payload, sig };
    assert!(matches!(
        proc_mut(&mut net, &a).handle_packet(packet),
        Err(Error::Validation(ValidationError::SignedValidatedForPacketWeDidNotRequest))
    ));
}

fn delivered_proof(net: &mut Net<TestDT>, a: Actor) -> Vec<Packet> {
    let requests = proc(net, &a).exec_op(vec![7]).unwrap();
    let mut signed = Vec::new();
    for p in requests {
        signed.extend(net.deliver_packet(p));
    }
    let mut proofs = Vec::new();
    for p in signed {
        proofs.extend(net.deliver_packet(p));
    }
    proofs
}

#[test]
fn duplicate_proof_of_agreement_is_a_no_op() {
    let mut net: Net<TestDT> = Net::new();
    let actors = bootstrap(&mut net, 2);
    let (a, b) = (actors[0], actors[1]);
    let proofs = delivered_proof(&mut net, a);
    let to_b: Vec<Packet> = proofs.into_iter().filter(|p| p.dest == b).collect();
    assert_eq!(to_b.len(), 1);
    let packet = &to_b[0];
    let (msg, proof) = match &packet.payload {
        Payload::BRB(Op::ProofOfAgreement { msg, proof }) => (msg.copy(), proof.clone()),
        _ => panic!("not a proof"),
    };
    let a_id = SigningActor::new(keypair(1));
    let first = proof_packet(&a_id, b, msg.copy(), proof.clone());
    assert_eq!(proc_mut(&mut net, &b).handle_packet(first).unwrap().len(), 0);
    assert_eq!(brb::clock::clock_get(&proc(&net, &b).delivered, a), 1);
    assert!(proc(&net, &b).dt.set.contains(&7));
    let again = proof_packet(&a_id, b, msg, proof);
    assert!(matches!(
        proc_mut(&mut net, &b).handle_packet(again),
        Err(Error::Validation(ValidationError::MsgDotNotNextDotToBeDelivered { expected_dot, .. })) if expected_dot == Dot { actor: a, counter: 2 }
    ));
    assert_eq!(brb::clock::clock_get(&proc(&net, &b).delivered, a), 1);
}

#[test]
fn invalid_proofs_are_rejected() {
    let mut net: Net<TestDT> = Net::new();
    let actors = bootstrap(&mut net, 2);
    let (a, b) = (actors[0], actors[1]);
    let a_id = SigningActor::new(keypair(1));
    let b_id = SigningActor::new(keypair(2));
    let stranger = SigningActor::new(keypair(60));
    let gen = proc(&net, &b).membership.gen;
    let msg = Msg { gen, op: vec![4], dot: Dot { actor: a, counter: 1 } };
    let bytes = msg.to_bytes();
    let good = vec![(a, a_id.sign(&bytes)), (b, b_id.sign(&bytes))];
    let with_stranger = vec![(a, a_id.sign(&bytes)), (b, b_id.sign(&bytes)), (stranger.actor(), stranger.sign(&bytes))];
    let r = proc_mut(&mut net, &b).handle_packet(proof_packet(&a_id, b, msg.copy(), with_stranger));
    assert!(matches!(r, Err(Error::Validation(ValidationError::ProofContainsSignaturesFromNonMembers))));
    let mut tampered = good.clone();
    tampered[1].1.r_hi ^= 1;
    let r = proc_mut(&mut net, &b).handle_packet(proof_packet(&a_id, b, msg.copy(), tampered));
    assert!(matches!(r, Err(Error::Validation(ValidationError::ProofContainsInvalidSignatures))));
    let short = vec![(a, a_id.sign(&bytes))];
    let r = proc_mut(&mut net, &b).handle_packet(proof_packet(&a_id, b, msg.copy(), short));
    assert!(matches!(r, Err(Error::Validation(ValidationError::NotEnoughSignaturesToFormQuorum))));
    let repeated = vec![(a, a_id.sign(&bytes)), (a, a_id.sign(&bytes))];
    let r = proc_mut(&mut net, &b).handle_packet(proof_packet(&a_id, b, msg.copy(), repeated));
    assert!(matches!(r, Err(Error::Validation(ValidationError::NotEnoughSignaturesToFormQuorum))));
    let future = Msg { gen: gen + 1, op: vec![4], dot: Dot { actor: a, counter: 1 } };
    let r = proc_mut(&mut net, &b).handle_packet(proof_packet(&a_id, b, future, good.clone()));
    assert!(matches!(r, Err(Error::Membership(brb::membership::Error::InvalidGeneration(g))) if g == gen + 1));
    assert_eq!(brb::clock::clock_get(&proc(&net, &b).delivered, a), 0);
    let r = proc_mut(&mut net, &b).handle_packet(proof_packet(&a_id, b, msg, good));
    assert!(r.is_ok());
    assert_eq!(brb::clock::clock_get(&proc(&net, &b).delivered, a), 1);
    assert_eq!(proc(&net, &b).history_from_source.len(), 1);
}

#[test]
fn anti_entropy_onboards_and_then_sends_nothing_new() {
    let mut net: Net<TestDT> = Net::new();
    let actors = bootstrap(&mut net, 2);
    let (a, b) = (actors[0], actors[1]);
    let proofs = delivered_proof(&mut net, a);
    run(&mut net, proofs);
    let late = add(&mut net, 9);
    proc_mut(&mut net, &late).force_join(a);
    let ask = proc(&net, &late).anti_entropy(a).unwrap();
    let answer = net.deliver_packet(ask);
    let proof_count = answer.iter().filter(|p| p.payload.is_proof_of_agreement()).count();
    assert_eq!(proof_count, 1);
    run(&mut net, answer);
    assert!(proc(&net, &late).dt.set.contains(&7));
    assert_eq!(proc(&net, &late).membership.gen, proc(&net, &a).membership.gen);
    let ask_again = proc(&net, &late).anti_entropy(a).unwrap();
    let answer_again = net.deliver_packet(ask_again);
    assert_eq!(answer_again.iter().filter(|p| p.payload.is_proof_of_agreement()).count(), 0);
    let ask_b = proc(&net, &b).anti_entropy(a).unwrap();
    let answer_b = net.deliver_packet(ask_b);
    assert!(answer_b.iter().all(|p| !p.payload.is_proof_of_agreement()));
}

#[test]
fn exec_op_requests_next_dot_from_every_member() {
    let mut net: Net<TestDT> = Net::new();
    let actors = bootstrap(&mut net, 3);
    let a = actors[0];
    let packets = proc(&net, &a).exec_op(vec![9]).unwrap();
    assert_eq!(packets.len(), 3);
    let mut dests: Vec<Actor> = packets.iter().map(|p| p.dest).collect();
    dests.sort_by_key(|x| (x.hi, x.lo));
    let mut expected = actors.clone();
    expected.sort_by_key(|x| (x.hi, x.lo));
    assert_eq!(dests, expected);
    for p in packets.iter() {
        match &p.payload {
            Payload::BRB(Op::RequestValidation { msg }) => {
                assert_eq!(msg.dot, Dot { actor: a, counter: 1 });
                assert_eq!(msg.op, vec![9]);
                assert_eq!(msg.gen, 2);
            }
            _ => panic!("expected a validation request"),
        }
    }
}

#[test]
fn payload_encoding_lengths() {
    let a = SigningActor::new(keypair(1)).actor();
    let msg = Msg { gen: 3, op: vec![1, 2, 3], dot: Dot { actor: a, counter: 4 } };
    assert_eq!(msg.to_bytes().len(), 8 + 8 + 3 + 32 + 8);
    assert_eq!(&msg.to_bytes()[0..8], &3u64.to_le_bytes());
    let payload = Payload::BRB(Op::RequestValidation { msg });
    assert_eq!(payload.to_bytes().len(), 2 + 59);
    assert_eq!(payload.to_bytes()[0], 1);
    assert!(!payload.is_proof_of_agreement());
    let id = SigningActor::new(keypair(1));
    let sig = id.sign(&payload.to_bytes());
    let payload_len = payload.to_bytes().len();
    let packet = Packet { source: a, dest: a, payload, sig };
    let bytes = packet.to_bytes();
    assert_eq!(bytes.len(), 32 + 32 + payload_len + 64);
    assert_eq!(&bytes[0..32], &a.key_bytes()[..]);
    assert_eq!(&bytes[bytes.len() - 64..], &sig.to_bytes()[..]);
}

#[test]
fn net_counts_refusals_and_drops_unknown_destinations() {
    let mut net: Net<TestDT> = Net::new();
    let actors = bootstrap(&mut net, 2);
    let (a, b) = (actors[0], actors[1]);
    let before = net.n_packets;
    let mut packet = proc(&net, &a).anti_entropy(b).unwrap();
    packet.sig.r_lo ^= 1;
    assert_eq!(net.deliver_packet(packet).len(), 0);
    assert_eq!(net.count_invalid_packets(), 1);
    assert_eq!(net.n_packets, before + 1);
    let nobody = SigningActor::new(keypair(77)).actor();
    let lost = proc(&net, &a).anti_entropy(nobody).unwrap();
    assert_eq!(net.deliver_packet(lost).len(), 0);
    assert_eq!(net.count_invalid_packets(), 1);
    assert!(net.proc_index(&nobody).is_none());
}

#[test]
fn accept_request_follows_the_data_type_verdict() {
    let mut net: Net<TestDT> = Net::new();
    let actors = bootstrap(&mut net, 2);
    let (a, b) = (actors[0], actors[1]);
    let gen = proc(&net, &b).membership.gen;
    let msg = Msg { gen, op: vec![5], dot: Dot { actor: a, counter: 1 } };
    let refused = proc_mut(&mut net, &b).accept_request(a, msg.copy(), Err("no".to_string()));
    assert!(matches!(refused, Err(Error::Validation(ValidationError::DataTypeFailedValidation(ref s))) if s == "no"));
    assert_eq!(brb::clock::clock_get(&proc(&net, &b).received, a), 0);
    let accepted = proc_mut(&mut net, &b).accept_request(a, msg, Ok(())).unwrap();
    assert_eq!(accepted.len(), 1);
    assert_eq!(accepted[0].dest, a);
    assert_eq!(brb::clock::clock_get(&proc(&net, &b).received, a), 1);
}

#[test]
fn signed_validation_with_bad_inner_signature_is_rejected() {
    let mut net: Net<TestDT> = Net::new();
    let actors = bootstrap(&mut net, 2);
    let (a, b) = (actors[0], actors[1]);
    let b_id = SigningActor::new(keypair(2));
    let other = SigningActor::new(keypair(61));
    let msg = Msg { gen: 2, op: vec![3], dot: Dot { actor: a, counter: 1 } };
    let wrong = other.sign(&msg.to_bytes());
    let payload = Payload::BRB(Op::SignedValidated { msg, sig: wrong });
    let sig = b_id.sign(&payload.to_bytes());
    let packet = Packet { source: b, dest: a, payload, sig };
    assert!(matches!(
        proc_mut(&mut net, &a).handle_packet(packet),
        Err(Error::Validation(ValidationError::InvalidSignature))
    ));
    assert!(proc(&net, &a).pending_proof.is_empty());
}

#[test]
fn pipelined_request_is_refused_until_the_first_is_delivered() {
    let mut net: Net<TestDT> = Net::new();
    let actors = bootstrap(&mut net, 2);
    let (a, b) = (actors[0], actors[1]);
    let a_id = SigningActor::new(keypair(1));
    let gen = proc(&net, &b).membership.gen;
    let first = request_packet(&a_id, b, gen, 1, Dot { actor: a, counter: 1 });
    assert!(proc_mut(&mut net, &b).handle_packet(first).is_ok());
    let second = request_packet(&a_id, b, gen, 2, Dot { actor: a, counter: 2 });
    assert!(matches!(
        proc_mut(&mut net, &b).handle_packet(second),
        Err(Error::Validation(ValidationError::SourceAlreadyHasPendingMsg { msg_dot, next_deliver_dot }))
            if msg_dot == Dot { actor: a, counter: 2 } && next_deliver_dot == Dot { actor: a, counter: 1 }
    ));
}

#[test]
fn kill_peer_reports_leave_for_non_member_and_proposals_are_signed() {
    let mut net: Net<TestDT> = Net::new();
    let actors = bootstrap(&mut net, 2);
    let (a, b) = (actors[0], actors[1]);
    let stranger = SigningActor::new(keypair(80)).actor();
    let r = proc_mut(&mut net, &a).kill_peer(stranger);
    assert!(matches!(
        r,
        Err(Error::Membership(brb::membership::Error::LeaveRequestForNonMember { requester, ref members }))
            if requester == stranger && members.len() == 2
    ));
    let packets = proc_mut(&mut net, &a).request_membership(stranger).unwrap();
    assert_eq!(packets.len(), 2);
    let a_id = SigningActor::new(keypair(1));
    for p in packets.iter() {
        assert_eq!(p.source, a);
        assert!(p.dest == a || p.dest == b);
        assert_eq!(p.sig, a_id.sign(&p.payload.to_bytes()));
        match &p.payload {
            Payload::Membership(v) => {
                assert_eq!(v.voter, a);
                assert_eq!(v.gen, 2);
                assert_eq!(v.sig, a_id.sign(&brb::vote::signable_bytes(&v.ballot, v.gen)));
                assert!(matches!(v.ballot, brb::vote::Ballot::Propose(brb::vote::Reconfig::Join(x)) if x == stranger));
            }
            _ => panic!("expected a vote"),
        }
    }
}
