use std::rc::Rc;

use brb::actor::{Actor, SigningActor};
use brb::membership::{Error, State};
use brb::vote::{signable_bytes, Ballot, Reconfig, Vote, VoteMsg};

fn keypair(seed: u8) -> ed25519_dalek::Keypair {
    let secret = ed25519_dalek::SecretKey::from_bytes(&[seed; 32]).unwrap();
    let public = ed25519_dalek::PublicKey::from(&secret);
    ed25519_dalek::Keypair { secret, public }
}

fn proc_with_seed(seed: u8) -> State {
    State::new(SigningActor::new(keypair(seed)))
}

fn actor_of(seed: u8) -> Actor {
    SigningActor::new(keypair(seed)).actor()
}

fn sorted(mut v: Vec<Actor>) -> Vec<Actor> {
    v.sort_by(|a, b| (a.hi, a.lo).cmp(&(b.hi, b.lo)));
    v
}

struct Net {
    procs: Vec<State>,
    queue: Vec<(Actor, VoteMsg)>,
}

impl Net {
    fn with_seeds(seeds: &[u8]) -> Net {
        Net { procs: seeds.iter().map(|s| proc_with_seed(*s)).collect(), queue: Vec::new() }
    }

    fn actor(&self, i: usize) -> Actor {
        self.procs[i].id.actor()
    }

    fn enqueue(&mut self, source: Actor, msgs: Vec<VoteMsg>) {
        for m in msgs {
            self.queue.push((source, m));
        }
    }

    fn deliver_one(&mut self) {
        let (_source, msg) = self.queue.remove(0);
        let dest = msg.dest;
        if let Some(p) = self.procs.iter_mut().find(|p| p.id.actor() == dest) {
            match p.handle_vote(msg.vote) {
                Ok(out) => {
                    let me = p.id.actor();
                    for m in out {
                        self.queue.push((me, m));
                    }
                }
                Err(Error::VoteFromNonMember { .. }) | Err(Error::VoteNotForNextGeneration { .. }) => {}
                Err(Error::ExistingVoteIncompatibleWithNewVote { .. }) => {}
                Err(e) => panic!("unexpected error {:?}", e),
            }
        }
    }

    fn drain(&mut self) {
        let mut steps = 0;
        while !self.queue.is_empty() {
            self.deliver_one();
            steps += 1;
            assert!(steps < 100_000);
        }
    }

    fn anti_entropy(&mut self, i: usize, j: usize) {
        let gen_i = self.procs[i].gen;
        let actor_i = self.actor(i);
        let actor_j = self.actor(j);
        let msgs = self.procs[j].anti_entropy(gen_i, actor_i);
        self.enqueue(actor_j, msgs);
    }

    fn settle(&mut self) {
        for _ in 0..20 {
            self.drain();
            let n = self.procs.len();
            for i in 0..n {
                for j in 0..n {
                    self.anti_entropy(i, j);
                }
            }
            if self.queue.is_empty() {
                break;
            }
        }
        self.drain();
    }
}

#[test]
fn test_reject_changing_reconfig_when_one_is_in_progress() {
    let mut proc = proc_with_seed(1);
    let me = proc.id.actor();
    proc.force_join(me);
    assert!(proc.propose(Reconfig::Join(actor_of(2))).is_ok());
    assert!(matches!(
        proc.propose(Reconfig::Join(actor_of(3))),
        Err(Error::ExistingVoteIncompatibleWithNewVote { .. })
    ));
}

#[test]
fn test_reject_vote_from_non_member() {
    let mut net = Net::with_seeds(&[1, 2]);
    let actor0 = net.actor(0);
    let actor1 = net.actor(1);
    net.procs[1].force_join(actor0);
    net.procs[1].force_join(actor1);
    let resp = net.procs[1].propose(Reconfig::Join(actor_of(9)));
    assert!(resp.is_ok());
    let msgs = resp.unwrap();
    let to_p0 = msgs.into_iter().find(|m| m.dest == actor0).unwrap();
    assert!(matches!(net.procs[0].handle_vote(to_p0.vote), Err(Error::VoteFromNonMember { voter, .. }) if voter == actor1));
}

#[test]
fn test_reject_new_join_if_we_are_at_capacity() {
    let mut proc = proc_with_seed(1);
    for seed in 10..17 {
        proc.force_join(actor_of(seed));
    }
    let me = proc.id.actor();
    proc.force_join(me);
    assert_eq!(proc.members(0).unwrap().len(), 8);
    assert!(matches!(proc.propose(Reconfig::Join(actor_of(30))), Err(Error::MembersAtCapacity { .. })));
    let first = proc.members(proc.gen).unwrap()[0];
    assert!(proc.propose(Reconfig::Leave(first)).is_ok());
}

#[test]
fn join_refused_at_exactly_seven_members() {
    let mut proc = proc_with_seed(1);
    let me = proc.id.actor();
    proc.force_join(me);
    for seed in 10..16 {
        proc.force_join(actor_of(seed));
    }
    assert_eq!(proc.members(0).unwrap().len(), 7);
    assert!(matches!(proc.validate_reconfig(&Reconfig::Join(actor_of(30))), Err(Error::MembersAtCapacity { .. })));
    let mut small = proc_with_seed(2);
    let me2 = small.id.actor();
    small.force_join(me2);
    for seed in 10..15 {
        small.force_join(actor_of(seed));
    }
    assert_eq!(small.members(0).unwrap().len(), 6);
    assert!(small.validate_reconfig(&Reconfig::Join(actor_of(30))).is_ok());
}

#[test]
fn test_reject_join_if_actor_is_already_a_member() {
    let mut proc = proc_with_seed(1);
    proc.force_join(actor_of(5));
    let me = proc.id.actor();
    proc.force_join(me);
    assert!(matches!(
        proc.propose(Reconfig::Join(actor_of(5))),
        Err(Error::JoinRequestForExistingMember { requester, .. }) if requester == actor_of(5)
    ));
}

#[test]
fn test_reject_leave_if_actor_is_not_a_member() {
    let mut proc = proc_with_seed(1);
    proc.force_join(actor_of(5));
    let me = proc.id.actor();
    proc.force_join(me);
    assert!(matches!(
        proc.propose(Reconfig::Leave(actor_of(6))),
        Err(Error::LeaveRequestForNonMember { requester, .. }) if requester == actor_of(6)
    ));
}

#[test]
fn test_handle_vote_rejects_packet_from_previous_gen() {
    let mut net = Net::with_seeds(&[1, 2]);
    let a0 = net.actor(0);
    let a1 = net.actor(1);
    for i in 0..2 {
        net.procs[i].force_join(a0);
        net.procs[i].force_join(a1);
    }
    let packets = net.procs[0].propose(Reconfig::Join(actor_of(9))).unwrap();
    let mut stale = net.procs[1].propose(Reconfig::Join(actor_of(9))).unwrap();
    net.procs[1].pending_gen = 0;
    net.procs[1].votes = Vec::new();
    assert_eq!(packets.len(), 2);
    assert_eq!(stale.len(), 2);
    net.enqueue(a0, packets);
    net.drain();
    assert_eq!(net.procs[0].gen, 1);
    let vote = stale.pop().unwrap().vote;
    assert!(matches!(
        net.procs[0].handle_vote(vote),
        Err(Error::VoteNotForNextGeneration { vote_gen: 1, gen: 1, pending_gen: 1 })
    ));
}

#[test]
fn test_reject_votes_with_invalid_signatures() {
    let mut proc = proc_with_seed(1);
    let ballot = Ballot::Propose(Reconfig::Join(actor_of(3)));
    let gen = proc.gen + 1;
    let signer = SigningActor::new(keypair(4));
    let sig = signer.sign(&signable_bytes(&ballot, gen));
    let vote = Rc::new(Vote { gen, ballot, voter: actor_of(5), sig });
    assert!(matches!(proc.handle_vote(vote), Err(Error::InvalidSignature)));
}

#[test]
fn members_replay_forced_joins_and_leaves() {
    let mut proc = proc_with_seed(1);
    proc.force_join(actor_of(2));
    proc.force_join(actor_of(3));
    proc.force_leave(actor_of(2));
    assert_eq!(proc.members(0).unwrap(), vec![actor_of(3)]);
    assert!(matches!(proc.members(1), Err(Error::InvalidGeneration(1))));
}

#[test]
fn test_simple_proposal() {
    let mut net = Net::with_seeds(&[1, 2, 3, 4]);
    for i in 0..4 {
        for j in 0..3 {
            let a = net.actor(j);
            net.procs[i].force_join(a);
        }
    }
    let actor0 = net.actor(0);
    let actor3 = net.actor(3);
    let msgs = net.procs[0].propose(Reconfig::Join(actor3)).unwrap();
    net.enqueue(actor0, msgs);
    net.drain();
    let expected = sorted(vec![net.actor(0), net.actor(1), net.actor(2), actor3]);
    for i in 0..3 {
        assert_eq!(net.procs[i].gen, 1);
        assert_eq!(sorted(net.procs[i].members(1).unwrap()), expected);
        assert!(net.procs[i].votes.is_empty());
        assert!(matches!(net.procs[i].history[0].ballot, Ballot::SuperMajority(_)));
    }
}

#[test]
fn test_onboarding_across_many_generations() {
    let mut net = Net::with_seeds(&[1, 2, 3]);
    let actor0 = net.actor(0);
    let actor1 = net.actor(1);
    let actor2 = net.actor(2);
    for i in 0..3 {
        net.procs[i].force_join(actor0);
    }
    let msgs = net.procs[0].propose(Reconfig::Join(actor1)).unwrap();
    net.enqueue(actor0, msgs);
    net.deliver_one();
    let ae = net.procs[0].anti_entropy(0, actor1);
    net.enqueue(actor0, ae);
    let msgs = net.procs[0].propose(Reconfig::Join(actor2));
    if let Ok(msgs) = msgs {
        net.enqueue(actor0, msgs);
    }
    net.settle();
    if net.procs[0].gen == 1 {
        let msgs = net.procs[0].propose(Reconfig::Join(actor2)).unwrap();
        net.enqueue(actor0, msgs);
        net.settle();
    }
    let expected = sorted(vec![actor0, actor1, actor2]);
    for i in 0..3 {
        let g = net.procs[i].gen;
        assert_eq!(g, 2);
        assert_eq!(sorted(net.procs[i].members(g).unwrap()), expected);
    }
}

fn split_vote_round(nprocs: usize, round_robin: bool) {
    let seeds: Vec<u8> = (1..=(2 * nprocs as u8)).collect();
    let mut net = Net::with_seeds(&seeds);
    for i in 0..nprocs {
        let a = net.actor(i);
        for j in 0..2 * nprocs {
            net.procs[j].force_join(a);
        }
    }
    for i in 0..nprocs {
        let joining = net.actor(nprocs + i);
        let a = net.actor(i);
        let msgs = net.procs[i].propose(Reconfig::Join(joining)).unwrap();
        net.enqueue(a, msgs);
    }
    if round_robin {
        let mut steps = 0;
        while !net.queue.is_empty() {
            for k in 0..net.procs.len() {
                let source = net.actor(k);
                if let Some(pos) = net.queue.iter().position(|(s, _)| *s == source) {
                    let item = net.queue.remove(pos);
                    net.queue.insert(0, item);
                    net.deliver_one();
                }
            }
            steps += 1;
            assert!(steps < 100_000);
        }
    }
    net.settle();
    let g0 = net.procs[0].gen;
    assert!(g0 >= 1);
    let expected = sorted(net.procs[0].members(g0).unwrap());
    assert!(expected.len() > nprocs);
    for i in 0..nprocs {
        assert_eq!(net.procs[i].gen, g0);
        assert_eq!(sorted(net.procs[i].members(g0).unwrap()), expected);
    }
    for member in expected.iter() {
        let p = net.procs.iter().find(|p| p.id.actor() == *member).unwrap();
        assert_eq!(sorted(p.members(p.gen).unwrap()), expected);
    }
    for p in net.procs.iter() {
        for (g, v) in p.history.iter().enumerate() {
            assert_eq!(v.gen, g as u64 + 1);
            assert!(v.is_super_majority_ballot());
        }
    }
}

#[test]
fn test_split_vote() {
    for nprocs in 1..7 {
        split_vote_round(nprocs, false);
    }
}

#[test]
fn test_round_robin_split_vote() {
    for nprocs in 1..7 {
        split_vote_round(nprocs, true);
    }
}

#[test]
fn test_prop_interpreter_qc1() {
    let mut net = Net::with_seeds(&[1, 2]);
    let actor0 = net.actor(0);
    let actor1 = net.actor(1);
    for i in 0..2 {
        net.procs[i].force_join(actor0);
    }
    let msgs = net.procs[0].propose(Reconfig::Join(actor1)).unwrap();
    net.enqueue(actor0, msgs);
    net.anti_entropy(1, 0);
    net.anti_entropy(1, 0);
    net.settle();
    for p in net.procs.iter() {
        assert!(p.history.iter().all(|v| v.is_super_majority_ballot()));
    }
}

#[test]
fn test_prop_interpreter_qc2() {
    let mut net = Net::with_seeds(&[1, 2, 3]);
    let actor0 = net.actor(0);
    let actor1 = net.actor(1);
    let actor2 = net.actor(2);
    for i in 0..3 {
        net.procs[i].force_join(actor0);
    }
    let msgs = net.procs[0].propose(Reconfig::Join(actor1)).unwrap();
    net.enqueue(actor0, msgs);
    net.deliver_one();
    if let Ok(msgs) = net.procs[0].propose(Reconfig::Join(actor2)) {
        net.enqueue(actor0, msgs);
    }
    net.settle();
    for p in net.procs.iter() {
        assert!(p.votes.is_empty());
    }
}

#[test]
fn anti_entropy_sends_later_generations_then_pending_votes() {
    let mut net = Net::with_seeds(&[1, 2]);
    let actor0 = net.actor(0);
    let actor1 = net.actor(1);
    net.procs[0].force_join(actor0);
    let msgs = net.procs[0].propose(Reconfig::Join(actor1)).unwrap();
    net.enqueue(actor0, msgs);
    net.drain();
    assert_eq!(net.procs[0].gen, 1);
    assert_eq!(net.procs[0].anti_entropy(0, actor1).len(), 1);
    assert_eq!(net.procs[0].anti_entropy(1, actor1).len(), 0);
    assert_eq!(net.procs[0].anti_entropy(5, actor1).len(), 0);
}

#[test]
fn supersedes_and_simplify() {
    let signer = SigningActor::new(keypair(1));
    let other = SigningActor::new(keypair(2));
    let b1 = Ballot::Propose(Reconfig::Join(actor_of(9)));
    let s1 = signer.sign(&signable_bytes(&b1, 1));
    let v1 = Rc::new(Vote { gen: 1, ballot: b1, voter: signer.actor(), sig: s1 });
    let b2 = Ballot::Propose(Reconfig::Join(actor_of(8)));
    let s2 = other.sign(&signable_bytes(&b2, 1));
    let v2 = Rc::new(Vote { gen: 1, ballot: b2, voter: other.actor(), sig: s2 });
    let mb = Ballot::Merge(vec![v1.clone(), v2.clone()]);
    let ms = signer.sign(&signable_bytes(&mb, 1));
    let merge = Rc::new(Vote { gen: 1, ballot: mb, voter: signer.actor(), sig: ms });
    assert!(merge.supersedes(&v1, &v1.to_bytes()));
    assert!(merge.supersedes(&v2, &v2.to_bytes()));
    assert!(!v1.supersedes(&merge, &merge.to_bytes()));
    assert!(!v1.supersedes(&v2, &v2.to_bytes()));
    assert!(v1.supersedes(&v1, &v1.to_bytes()));
    let simpler = brb::vote::simplify_votes(&vec![v1.clone(), merge.clone(), v2.clone()]);
    assert_eq!(simpler.len(), 1);
    assert_eq!(simpler[0].to_bytes(), merge.to_bytes());
    let unpacked = brb::vote::unpack_votes(&merge);
    assert_eq!(unpacked.len(), 3);
    assert_eq!(merge.reconfigs().len(), 2);
}

#[test]
fn ties_go_to_the_lexicographically_greatest_set() {
    let signer1 = SigningActor::new(keypair(1));
    let signer2 = SigningActor::new(keypair(2));
    let low = actor_of(20);
    let high = actor_of(21);
    let (low, high) = if low.lt(&high) { (low, high) } else { (high, low) };
    let b1 = Ballot::Propose(Reconfig::Join(high));
    let v1 = Rc::new(Vote { gen: 1, sig: signer1.sign(&signable_bytes(&b1, 1)), ballot: b1, voter: signer1.actor() });
    let b2 = Ballot::Propose(Reconfig::Join(low));
    let v2 = Rc::new(Vote { gen: 1, sig: signer2.sign(&signable_bytes(&b2, 1)), ballot: b2, voter: signer2.actor() });
    for votes in [vec![v1.clone(), v2.clone()], vec![v2.clone(), v1.clone()]] {
        assert_eq!(brb::membership::resolve_votes(&votes), vec![Reconfig::Join(high)]);
    }
    let b3 = Ballot::Propose(Reconfig::Leave(low));
    let v3 = Rc::new(Vote { gen: 1, sig: signer2.sign(&signable_bytes(&b3, 1)), ballot: b3, voter: signer2.actor() });
    assert_eq!(brb::membership::resolve_votes(&vec![v1.clone(), v3.clone()]), vec![Reconfig::Leave(low)]);
    assert_eq!(brb::membership::resolve_votes(&vec![]), vec![]);
    let b4 = Ballot::Propose(Reconfig::Join(low));
    let v4 = Rc::new(Vote { gen: 1, sig: signer1.sign(&signable_bytes(&b4, 1)), ballot: b4, voter: signer1.actor() });
    assert_eq!(brb::membership::resolve_votes(&vec![v1.clone(), v2.clone(), v4.clone()]), vec![Reconfig::Join(low)]);
}

fn signed_vote(signer: &SigningActor, gen: u64, ballot: Ballot) -> Rc<Vote> {
    let sig = signer.sign(&signable_bytes(&ballot, gen));
    Rc::new(Vote { gen, ballot, voter: signer.actor(), sig })
}

fn three_member_proc() -> (State, SigningActor, SigningActor) {
    let mut proc = proc_with_seed(1);
    let b = SigningActor::new(keypair(2));
    let c = SigningActor::new(keypair(3));
    let me = proc.id.actor();
    proc.force_join(me);
    proc.force_join(b.actor());
    proc.force_join(c.actor());
    (proc, b, c)
}

#[test]
fn voter_changing_reconfig_mid_round_is_rejected() {
    let (mut proc, b, c) = three_member_proc();
    let x = actor_of(40);
    let y = actor_of(41);
    let from_b = signed_vote(&b, 1, Ballot::Propose(Reconfig::Join(x)));
    let out = proc.handle_vote(from_b).unwrap();
    assert_eq!(out.len(), 3);
    assert_eq!(proc.pending_gen, 1);
    let b_changes = signed_vote(&b, 1, Ballot::Propose(Reconfig::Join(y)));
    let from_c = signed_vote(&c, 1, Ballot::Merge(vec![b_changes]));
    assert!(matches!(proc.handle_vote(from_c), Err(Error::VoterChangedMind { .. })));
}

#[test]
fn super_majority_ballot_without_super_majority_is_rejected() {
    let (mut proc, b, _c) = three_member_proc();
    let inner = signed_vote(&b, 1, Ballot::Propose(Reconfig::Join(actor_of(40))));
    let claim = signed_vote(&b, 1, Ballot::SuperMajority(vec![inner]));
    assert!(matches!(
        proc.handle_vote(claim),
        Err(Error::SuperMajorityBallotIsNotSuperMajority { members, .. }) if members.len() == 3
    ));
    assert_eq!(proc.pending_gen, 0);
    assert!(proc.votes.is_empty());
}

#[test]
fn inner_vote_of_another_generation_is_rejected() {
    let (mut proc, b, c) = three_member_proc();
    let stale = signed_vote(&b, 2, Ballot::Propose(Reconfig::Join(actor_of(40))));
    let merge = signed_vote(&c, 1, Ballot::Merge(vec![stale]));
    assert!(matches!(
        proc.handle_vote(merge),
        Err(Error::VoteNotForNextGeneration { vote_gen: 2, gen: 1, pending_gen: 1 })
    ));
}
