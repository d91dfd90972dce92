//! Generational membership: supermajority voting over reconfigurations.

use crate::actor::{actor_bytes, sig_bytes, sig_from_bytes, signature_by, signature_valid, Actor, Sig, SigningActor};
use crate::order::{canonical, lex_lt, lex_lt_exec, sort_reconfigs, strictly_sorted};
use crate::vote::{
    ballot_bytes, proposals, reconfig_set, supersedes, unpack, unpack_all, unpack_votes, simplified,
    signed_bytes, signable_bytes, vote_bytes, Ballot, Generation, Reconfig, Vote, VoteMsg,
};
use std::rc::Rc;
use vstd::prelude::*;

verus! {

/// Joins are refused once the member set holds this many actors.
pub const SOFT_MAX_MEMBERS: usize = 7;

/// Why a membership operation was refused.
#[derive(Debug)]
pub enum Error {
    InvalidSignature,
    WrongDestination { dest: Actor, actor: Actor },
    MembersAtCapacity { members: Vec<Actor> },
    JoinRequestForExistingMember { requester: Actor, members: Vec<Actor> },
    LeaveRequestForNonMember { requester: Actor, members: Vec<Actor> },
    VoteNotForNextGeneration { vote_gen: Generation, gen: Generation, pending_gen: Generation },
    VoteFromNonMember { voter: Actor, members: Vec<Actor> },
    VoterChangedMind { reconfigs: Vec<(Actor, Reconfig)> },
    ExistingVoteIncompatibleWithNewVote { existing_vote: Rc<Vote> },
    SuperMajorityBallotIsNotSuperMajority { vote: Rc<Vote>, members: Vec<Actor> },
    InvalidGeneration(Generation),
    InvalidVoteInHistory(Rc<Vote>),
}

/// One process's view of the membership protocol.
pub struct State {
    pub id: SigningActor,
    /// The committed generation.
    pub gen: Generation,
    /// The generation being voted on; equal to `gen` between rounds.
    pub pending_gen: Generation,
    /// Reconfigs applied without a vote, by the generation they apply at.
    pub forced_reconfigs: Vec<(Generation, Reconfig)>,
    /// `history[g - 1]` is the super-majority vote that carried generation `g`.
    pub history: Vec<Rc<Vote>>,
    /// The latest vote of each voter in the current round, in voter order.
    pub votes: Vec<Rc<Vote>>,
}

/// Applies a set of reconfigs: every join, then every leave.
pub open spec fn apply_reconfigs(m: Set<Actor>, rs: Set<Reconfig>) -> Set<Actor> {
    Set::new(
        |a: Actor| (m.contains(a) || rs.contains(Reconfig::Join(a))) && !rs.contains(Reconfig::Leave(a)),
    )
}

/// The inner votes of a ballot (none for a proposal).
pub open spec fn ballot_votes(b: Ballot) -> Seq<Rc<Vote>> {
    match b {
        Ballot::Propose(_) => Seq::empty(),
        Ballot::Merge(vs) => vs@,
        Ballot::SuperMajority(vs) => vs@,
    }
}

/// How many votes of `vs` advocate exactly the reconfigs `rs`.
pub open spec fn tally(vs: Seq<Rc<Vote>>, rs: Set<Reconfig>) -> nat
    decreases vs.len(),
{
    if vs.len() == 0 {
        0
    } else {
        tally(vs.drop_last(), rs) + if reconfig_set(*vs.last()) == rs {
            1nat
        } else {
            0nat
        }
    }
}

/// `i` is a vote of `vs` whose reconfig set has the highest tally and,
/// among the sets with that tally, the greatest sorted list.
pub open spec fn is_leader(vs: Seq<Rc<Vote>>, i: int) -> bool {
    &&& 0 <= i < vs.len()
    &&& forall|j: int|
        0 <= j < vs.len() ==> #[trigger] tally(vs, reconfig_set(*vs[j])) <= tally(
            vs,
            reconfig_set(*vs[i]),
        )
    &&& forall|j: int|
        0 <= j < vs.len() && tally(vs, reconfig_set(*vs[j])) == tally(vs, reconfig_set(*vs[i])) ==> {
            let cj = #[trigger] canonical(reconfig_set(*vs[j]));
            let ci = canonical(reconfig_set(*vs[i]));
            cj == ci || lex_lt(cj, ci)
        }
}

/// The highest tally of any reconfig set among `vs` (0 when empty).
pub open spec fn top_tally(vs: Seq<Rc<Vote>>) -> nat {
    if exists|i: int| is_leader(vs, i) {
        tally(vs, reconfig_set(*vs[choose|i: int| is_leader(vs, i)]))
    } else {
        0
    }
}

/// The reconfig set that wins among `vs`: the highest tally, ties going to
/// the set whose sorted list is lexicographically greatest (empty when
/// there are no votes).
pub open spec fn winning_reconfigs(vs: Seq<Rc<Vote>>) -> Set<Reconfig> {
    if exists|i: int| is_leader(vs, i) {
        reconfig_set(*vs[choose|i: int| is_leader(vs, i)])
    } else {
        Set::empty()
    }
}

/// How many votes of `vs` carry a `SuperMajority` ballot for exactly `rs`.
pub open spec fn sm_tally(vs: Seq<Rc<Vote>>, rs: Set<Reconfig>) -> nat
    decreases vs.len(),
{
    if vs.len() == 0 {
        0
    } else {
        sm_tally(vs.drop_last(), rs) + if reconfig_set(*vs.last()) == rs && vs.last().ballot is SuperMajority {
            1nat
        } else {
            0nat
        }
    }
}

/// No reconfig set can still reach a supermajority of `n` members: more than
/// two thirds have voted, and the leader plus every outstanding vote would
/// still fall short.
pub open spec fn split_vote(vs: Seq<Rc<Vote>>, n: nat) -> bool {
    3 * vs.len() > 2 * n && 3 * (top_tally(vs) + n - vs.len()) <= 2 * n
}

/// Some reconfig set has a supermajority of `n` members.
pub open spec fn super_majority(vs: Seq<Rc<Vote>>, n: nat) -> bool {
    3 * top_tally(vs) > 2 * n
}

/// A supermajority of `n` members cast `SuperMajority` ballots for the winning set.
pub open spec fn super_majority_over_super_majorities(vs: Seq<Rc<Vote>>, n: nat) -> bool {
    3 * sm_tally(vs, winning_reconfigs(vs)) > 2 * n
}

/// Whether a vote's signature covers its ballot and generation under its voter's key.
pub open spec fn vote_signature_ok(v: Vote) -> bool {
    signature_valid(actor_bytes(v.voter), signed_bytes(v.ballot, v.gen), sig_bytes(v.sig))
}

/// Some voter appears in `ps` with two different reconfigs.
pub open spec fn changed_mind(ps: Seq<(Actor, Reconfig)>) -> bool {
    exists|i: int, j: int| 0 <= i < ps.len() && 0 <= j < ps.len() && ps[i].0 == ps[j].0 && ps[i].1 != ps[j].1
}

/// Where a vote from `a` goes in the voter-ordered list `vs`.
pub open spec fn insertion_index(vs: Seq<Rc<Vote>>, a: Actor) -> int {
    choose|k: int| is_insertion_point(vs, a, k)
}

/// Voters before `k` sort before `a`, voters from `k` on sort after it.
pub open spec fn is_insertion_point(vs: Seq<Rc<Vote>>, a: Actor, k: int) -> bool {
    &&& 0 <= k <= vs.len()
    &&& forall|j: int| 0 <= j < k ==> crate::actor::actor_lt(#[trigger] vs[j].voter, a)
    &&& forall|j: int| k <= j < vs.len() ==> crate::actor::actor_lt(a, #[trigger] vs[j].voter)
}

/// Logs one vote: it replaces its voter's vote if it supersedes it, and is
/// added in voter order if its voter has none.
#[verifier::opaque]
pub open spec fn log_one(vs: Seq<Rc<Vote>>, u: Rc<Vote>) -> Seq<Rc<Vote>> {
    if exists|i: int| 0 <= i < vs.len() && vs[i].voter == u.voter {
        Seq::new(
            vs.len(),
            |j: int|
                if vs[j].voter == u.voter && supersedes(*u, *vs[j]) {
                    u
                } else {
                    vs[j]
                },
        )
    } else {
        vs.insert(insertion_index(vs, u.voter), u)
    }
}

/// Logs each vote of `us` in turn.
pub open spec fn log_all(vs: Seq<Rc<Vote>>, us: Seq<Rc<Vote>>) -> Seq<Rc<Vote>>
    decreases us.len(),
{
    if us.len() == 0 {
        vs
    } else {
        log_one(log_all(vs, us.drop_last()), us.last())
    }
}

/// Voters appear in strictly increasing order.
pub open spec fn voter_sorted(vs: Seq<Rc<Vote>>) -> bool {
    forall|i: int, j: int|
        0 <= i < j < vs.len() ==> crate::actor::actor_lt((#[trigger] vs[i]).voter, (#[trigger] vs[j]).voter)
}

/// `s` lists the actors of `m`, each once.
pub open spec fn member_list(s: Seq<Actor>, m: Set<Actor>) -> bool {
    s.no_duplicates() && s.to_set() == m
}

/// `msgs` carries `vote` once to each actor of `members`.
pub open spec fn broadcast_to(msgs: Seq<VoteMsg>, vote: Rc<Vote>, members: Set<Actor>) -> bool {
    &&& forall|i: int| 0 <= i < msgs.len() ==> (#[trigger] msgs[i]).vote == vote && members.contains(msgs[i].dest)
    &&& forall|a: Actor| members.contains(a) ==> exists|i: int| 0 <= i < msgs.len() && (#[trigger] msgs[i]).dest == a
    &&& forall|i: int, j: int| 0 <= i < j < msgs.len() ==> (#[trigger] msgs[i]).dest != (#[trigger] msgs[j]).dest
}

/// The vote of `voter` in `vs` (meaningful when there is one).
pub open spec fn vote_of(vs: Seq<Rc<Vote>>, voter: Actor) -> Rc<Vote> {
    vs[choose|i: int| 0 <= i < vs.len() && vs[i].voter == voter]
}

/// Some vote of `vs` is from `voter`.
pub open spec fn has_vote(vs: Seq<Rc<Vote>>, voter: Actor) -> bool {
    exists|i: int| 0 <= i < vs.len() && vs[i].voter == voter
}

/// The reconfigs proposed anywhere in `vs`.
pub open spec fn proposed_set(vs: Seq<Rc<Vote>>) -> Set<Reconfig> {
    Set::new(
        |r: Reconfig|
            exists|i: int| 0 <= i < crate::vote::proposals_all(vs).len() && crate::vote::proposals_all(vs)[i].1 == r,
    )
}

/// Two ballots of the same kind with the same content.
pub open spec fn same_ballot(a: Ballot, b: Ballot) -> bool {
    match (a, b) {
        (Ballot::Propose(x), Ballot::Propose(y)) => x == y,
        (Ballot::Merge(x), Ballot::Merge(y)) => x@ == y@,
        (Ballot::SuperMajority(x), Ballot::SuperMajority(y)) => x@ == y@,
        _ => false,
    }
}

impl State {
    /// The reconfigs forced at generation `g`.
    pub open spec fn forced_at(&self, g: int) -> Set<Reconfig> {
        Set::new(
            |r: Reconfig|
                exists|i: int|
                    0 <= i < self.forced_reconfigs@.len() && self.forced_reconfigs@[i].0 == g
                        && self.forced_reconfigs@[i].1 == r,
        )
    }

    /// The member set at generation `g`, replayed from genesis.
    pub open spec fn members_at(&self, g: nat) -> Set<Actor>
        decreases g,
    {
        if g == 0 {
            apply_reconfigs(Set::empty(), self.forced_at(0))
        } else {
            apply_reconfigs(
                apply_reconfigs(self.members_at((g - 1) as nat), self.forced_at(g as int)),
                winning_reconfigs(ballot_votes(self.history@[g - 1].ballot)),
            )
        }
    }

    /// Whether `voter` has a vote logged this round.
    pub open spec fn has_vote_from(&self, voter: Actor) -> bool {
        exists|i: int| 0 <= i < self.votes@.len() && self.votes@[i].voter == voter
    }

    /// Whether `r` may be proposed now.
    pub open spec fn reconfig_ok(&self, r: Reconfig) -> bool {
        let m = self.members_at(self.gen as nat);
        match r {
            Reconfig::Join(a) => !m.contains(a) && m.len() < SOFT_MAX_MEMBERS,
            Reconfig::Leave(a) => m.contains(a),
        }
    }

    /// A new vote from `v.voter` agrees with the one already logged, if any.
    pub open spec fn compatible(&self, v: Vote) -> bool {
        forall|i: int|
            0 <= i < self.votes@.len() && (#[trigger] self.votes@[i]).voter == v.voter ==> supersedes(v, *self.votes@[i])
                || supersedes(*self.votes@[i], v)
    }

    /// Whether `v` passes validation against this state.
    pub open spec fn vote_valid(&self, v: Vote) -> bool
        decreases v,
    {
        &&& vote_signature_ok(v)
        &&& v.gen == self.gen + 1
        &&& self.members_at(self.gen as nat).contains(v.voter)
        &&& self.compatible(v)
        &&& (self.pending_gen != self.gen ==> !changed_mind(crate::vote::proposals_all(self.votes@) + proposals(v)))
        &&& match v.ballot {
            Ballot::Propose(r) => self.reconfig_ok(r),
            Ballot::Merge(vs) => forall|i: int|
                0 <= i < vs@.len() ==> vs@[i].gen == v.gen && self.vote_valid(*vs@[i]),
            Ballot::SuperMajority(vs) => {
                &&& super_majority(
                    crate::vote::distinct_votes(unpack_all(vs@)),
                    self.members_at(self.gen as nat).len(),
                )
                &&& forall|i: int| 0 <= i < vs@.len() ==> vs@[i].gen == v.gen && self.vote_valid(*vs@[i])
            },
        }
    }

    /// `votes` after logging `vote` and everything nested in it.
    pub open spec fn logged(&self, vote: Rc<Vote>) -> Seq<Rc<Vote>> {
        log_all(self.votes@, unpack(vote))
    }

    /// How many members the current generation has.
    pub open spec fn member_count(&self) -> nat {
        self.members_at(self.gen as nat).len()
    }

    /// A split round would make us repeat our own vote: it already advocates
    /// exactly the reconfigs a merge of `vs` would.
    pub open spec fn merge_adds_nothing(&self, vs: Seq<Rc<Vote>>) -> bool {
        has_vote(vs, self.id.view_actor()) && reconfig_set(*vote_of(vs, self.id.view_actor()))
            == proposed_set(simplified(vs))
    }

    /// With a supermajority in `vs`, we hold back: our vote commits to
    /// reconfigs outside the winning set, or is already a `SuperMajority`.
    pub open spec fn super_majority_waits(&self, vs: Seq<Rc<Vote>>) -> bool {
        let me = self.id.view_actor();
        has_vote(vs, me) && (!winning_reconfigs(crate::vote::distinct_votes(unpack(vote_of(vs, me)))).subset_of(
            winning_reconfigs(vs),
        ) || vote_of(vs, me).ballot is SuperMajority)
    }

    /// The error that reconfig validation reports for a reconfig that may
    /// not be proposed.
    pub open spec fn reconfig_rejection(&self, r: Reconfig, e: Error) -> bool {
        let m = self.members_at(self.gen as nat);
        match r {
            Reconfig::Join(a) => if m.contains(a) {
                e is JoinRequestForExistingMember && e->JoinRequestForExistingMember_requester == a && member_list(
                    e->JoinRequestForExistingMember_members@,
                    m,
                )
            } else {
                e is MembersAtCapacity && member_list(e->MembersAtCapacity_members@, m)
            },
            Reconfig::Leave(a) => e is LeaveRequestForNonMember && e->LeaveRequestForNonMember_requester == a
                && member_list(e->LeaveRequestForNonMember_members@, m),
        }
    }

    /// The error that validation reports for the first failing inner vote of
    /// a ballot for generation `gen`.
    pub open spec fn inner_rejection(&self, vs: Seq<Rc<Vote>>, gen: Generation, e: Error) -> bool {
        exists|i: int|
            0 <= i < vs.len() && (forall|j: int| 0 <= j < i ==> vs[j].gen == gen && self.vote_valid(*vs[j])) && if vs[i].gen
                != gen {
                e == Error::VoteNotForNextGeneration { vote_gen: vs[i].gen, gen, pending_gen: gen }
            } else {
                self.rejection(*vs[i], e)
            }
    }

    /// The error that validation reports for an invalid vote `v`: the first
    /// check that fails, in the order signature, generation, voter, agreement
    /// with the voter's logged vote, no change of mind, ballot.
    pub open spec fn rejection(&self, v: Vote, e: Error) -> bool
        decreases v,
    {
        let m = self.members_at(self.gen as nat);
        if !vote_signature_ok(v) {
            e == Error::InvalidSignature
        } else if v.gen != self.gen + 1 {
            e == Error::VoteNotForNextGeneration { vote_gen: v.gen, gen: self.gen, pending_gen: self.pending_gen }
        } else if !m.contains(v.voter) {
            e is VoteFromNonMember && e->VoteFromNonMember_voter == v.voter && member_list(
                e->VoteFromNonMember_members@,
                m,
            )
        } else if !self.compatible(v) {
            e == Error::ExistingVoteIncompatibleWithNewVote { existing_vote: vote_of(self.votes@, v.voter) }
        } else if self.pending_gen != self.gen && changed_mind(crate::vote::proposals_all(self.votes@) + proposals(v)) {
            e is VoterChangedMind && e->VoterChangedMind_reconfigs@ == crate::vote::proposals_all(self.votes@)
                + proposals(v)
        } else {
            match v.ballot {
                Ballot::Propose(r) => self.reconfig_rejection(r, e),
                Ballot::Merge(vs) => exists|i: int|
                    0 <= i < vs@.len() && (forall|j: int| 0 <= j < i ==> vs@[j].gen == v.gen && self.vote_valid(*vs@[j]))
                        && if vs@[i].gen != v.gen {
                        e == Error::VoteNotForNextGeneration { vote_gen: vs@[i].gen, gen: v.gen, pending_gen: v.gen }
                    } else {
                        self.rejection(*vs@[i], e)
                    },
                Ballot::SuperMajority(vs) => if !super_majority(crate::vote::distinct_votes(unpack_all(vs@)), m.len()) {
                    e is SuperMajorityBallotIsNotSuperMajority && *e->SuperMajorityBallotIsNotSuperMajority_vote == v
                        && member_list(e->SuperMajorityBallotIsNotSuperMajority_members@, m)
                } else {
                    exists|i: int|
                        0 <= i < vs@.len() && (forall|j: int|
                            0 <= j < i ==> vs@[j].gen == v.gen && self.vote_valid(*vs@[j])) && if vs@[i].gen != v.gen {
                            e == Error::VoteNotForNextGeneration { vote_gen: vs@[i].gen, gen: v.gen, pending_gen: v.gen }
                        } else {
                            self.rejection(*vs@[i], e)
                        }
                },
            }
        }
    }

    /// The outcome of handling `vote` in this state, ending in state `f`
    /// with result `r`: an invalid vote is refused with the error that
    /// validation reports and changes nothing; a valid one is logged, then
    /// the round takes one step (merge a split vote, commit on a
    /// supermajority of supermajorities, broadcast a supermajority, cast our
    /// first vote, or wait).
    pub open spec fn vote_outcome(&self, vote: Rc<Vote>, f: State, r: Result<Vec<VoteMsg>, Error>) -> bool {
        &&& f.forced_reconfigs == self.forced_reconfigs
        &&& f.id == self.id
        &&& self.gen <= f.gen
        &&& (r is Ok <==> self.vote_valid(*vote))
        &&& r is Err ==> f == *self && self.rejection(*vote, r->Err_0)
        &&& ({
                    let o = *self;
                    let logged = o.logged(vote);
                    let n = o.member_count();
                    let me = o.id.view_actor();
                    let quiet = r is Ok && r->Ok_0@.len() == 0;
                    let waits = quiet && f.votes@ == logged && f.pending_gen == vote.gen && f.gen == o.gen
                        && f.history == o.history;
                    let casts = |m: Rc<Vote>|
                        r is Ok && f.gen == o.gen && f.history == o.history && f.pending_gen == vote.gen
                            && m.gen == vote.gen && m.voter == me && m.sig == o.own_signature(m.ballot, m.gen)
                            && f.votes@ == log_all(logged, unpack(m))
                            && broadcast_to(r->Ok_0@, m, o.members_at(o.gen as nat));
                    let commits = quiet && f.gen == o.gen + 1 && f.pending_gen == f.gen && f.votes@.len() == 0
                        && f.history@.len() == o.history@.len() + 1 && f.history@.subrange(0, o.history@.len() as int)
                        == o.history@;
                    o.vote_valid(*vote) ==> {
                        &&& split_vote(logged, n) && o.merge_adds_nothing(logged) ==> waits
                        &&& split_vote(logged, n) && !o.merge_adds_nothing(logged) ==> exists|m: Rc<Vote>|
                            casts(m) && m.ballot is Merge && ballot_votes(m.ballot) == simplified(logged)
                        &&& !split_vote(logged, n) && super_majority_over_super_majorities(logged, n)
                            && o.members_at(o.gen as nat).contains(me) ==> commits && {
                                let m = f.history@[o.history@.len() as int];
                                &&& m.ballot is SuperMajority
                                &&& ballot_votes(m.ballot) == simplified(logged)
                                &&& m.voter == me
                                &&& m.gen == vote.gen
                                &&& m.sig == o.own_signature(m.ballot, m.gen)
                            }
                        &&& !split_vote(logged, n) && super_majority_over_super_majorities(logged, n)
                            && !o.members_at(o.gen as nat).contains(me) && vote.ballot is SuperMajority
                            && super_majority_over_super_majorities(crate::vote::distinct_votes(unpack(vote)), n)
                            ==> commits && f.history@[o.history@.len() as int] == vote
                        &&& !split_vote(logged, n) && super_majority_over_super_majorities(logged, n)
                            && !o.members_at(o.gen as nat).contains(me) && !(vote.ballot is SuperMajority
                            && super_majority_over_super_majorities(crate::vote::distinct_votes(unpack(vote)), n))
                            ==> waits
                        &&& !split_vote(logged, n) && !super_majority_over_super_majorities(logged, n)
                            && super_majority(logged, n) && o.super_majority_waits(logged) ==> waits
                        &&& !split_vote(logged, n) && !super_majority_over_super_majorities(logged, n)
                            && super_majority(logged, n) && !o.super_majority_waits(logged)
                            ==> exists|m: Rc<Vote>|
                            casts(m) && m.ballot is SuperMajority && ballot_votes(m.ballot) == simplified(logged)
                        &&& !split_vote(logged, n) && !super_majority(logged, n) && !has_vote(logged, me)
                            ==> exists|m: Rc<Vote>| casts(m) && same_ballot(m.ballot, vote.ballot)
                        &&& !split_vote(logged, n) && !super_majority(logged, n) && has_vote(logged, me) ==> waits
                    }
                })
    }

    /// The vote this process signs to propose `reconfig` for the next generation.
    pub open spec fn own_proposal(&self, reconfig: Reconfig) -> Vote {
        Vote {
            gen: (self.gen + 1) as u64,
            ballot: Ballot::Propose(reconfig),
            voter: self.id.view_actor(),
            sig: self.own_signature(Ballot::Propose(reconfig), (self.gen + 1) as u64),
        }
    }

    /// The outcome of proposing `reconfig`, ending in state `f` with result
    /// `r`: our proposal is accepted exactly when it is a valid vote; if not,
    /// nothing changes and the error is the one validation reports; if so,
    /// it is logged and addressed to every member.
    pub open spec fn proposal_result(&self, reconfig: Reconfig, f: State, r: Result<Vec<VoteMsg>, Error>) -> bool {
        let v = self.own_proposal(reconfig);
        &&& (r is Ok <==> self.vote_valid(v))
        &&& r is Err ==> f == *self && self.rejection(v, r->Err_0)
        &&& r is Ok ==> exists|w: Rc<Vote>|
            {
                &&& *w == v
                &&& f.votes@ == log_all(self.votes@, unpack(w))
                &&& f.pending_gen == v.gen
                &&& f.gen == self.gen
                &&& f.history == self.history
                &&& broadcast_to(r->Ok_0@, w, self.members_at(self.gen as nat))
            }
    }

    /// The signature this process puts on `ballot` for `gen`.
    pub open spec fn own_signature(&self, ballot: Ballot, gen: Generation) -> Sig {
        sig_from_bytes(signature_by(self.id.view_secret(), signed_bytes(ballot, gen)))
    }

    /// The state's invariant.
    pub open spec fn wf(&self) -> bool {
        &&& self.history@.len() == self.gen
        &&& self.gen <= self.pending_gen
        &&& self.pending_gen <= self.gen + 1
        &&& self.votes@.len() == 0 ==> self.pending_gen == self.gen
        &&& forall|i: int|
            0 <= i < self.history@.len() ==> {
                &&& (#[trigger] self.history@[i]).ballot is SuperMajority
                &&& self.history@[i].gen == i + 1
            }
        &&& voter_sorted(self.votes@)
    }

    /// A fresh state for `id`, at genesis with no members.
    pub fn new(id: SigningActor) -> (r: State)
        ensures
            r.wf(),
            r.gen == 0,
            r.pending_gen == 0,
            r.forced_reconfigs@.len() == 0,
            r.votes@.len() == 0,
            r.history@.len() == 0,
            r.id == id,
    {
        State {
            id,
            gen: 0,
            pending_gen: 0,
            forced_reconfigs: Vec::new(),
            history: Vec::new(),
            votes: Vec::new(),
        }
    }
}


/// What pushing `a` onto `s` does to membership and repetition.
pub proof fn lemma_push_contains<A>(s: Seq<A>, a: A)
    ensures
        forall|x: A| #[trigger] s.push(a).contains(x) <==> (s.contains(x) || x == a),
        !s.contains(a) && s.no_duplicates() ==> s.push(a).no_duplicates(),
{
    assert forall|x: A| #[trigger] s.push(a).contains(x) <==> (s.contains(x) || x == a) by {
        if s.push(a).contains(x) {
            let j = choose|j: int| 0 <= j < s.push(a).len() && s.push(a)[j] == x;
            if j < s.len() {
                assert(s[j] == x);
            }
        }
        if s.contains(x) {
            let j = choose|j: int| 0 <= j < s.len() && s[j] == x;
            assert(s.push(a)[j] == x);
        }
        if x == a {
            assert(s.push(a)[s.len() as int] == x);
        }
    }
    if !s.contains(a) && s.no_duplicates() {
        assert forall|i: int, j: int| 0 <= i < s.push(a).len() && 0 <= j < s.push(a).len() && i != j implies s.push(a)[i] != s.push(a)[j] by {
            if i < s.len() && j == s.len() {
                assert(s.contains(s[i]));
            }
            if j < s.len() && i == s.len() {
                assert(s.contains(s[j]));
            }
        }
    }
}

/// Whether `a` is in `v`.
pub fn contains_actor(v: &Vec<Actor>, a: Actor) -> (r: bool)
    ensures
        r == v@.contains(a),
{
    let mut i: usize = 0;
    while i < v.len()
        invariant
            0 <= i <= v@.len(),
            forall|j: int| 0 <= j < i ==> v@[j] != a,
        decreases v@.len() - i,
    {
        if v[i] == a {
            return true;
        }
        i = i + 1;
    }
    false
}

/// Whether `r` is in `v`.
pub fn contains_reconfig(v: &Vec<Reconfig>, r: Reconfig) -> (b: bool)
    ensures
        b == v@.contains(r),
{
    let mut i: usize = 0;
    while i < v.len()
        invariant
            0 <= i <= v@.len(),
            forall|j: int| 0 <= j < i ==> v@[j] != r,
        decreases v@.len() - i,
    {
        if v[i] == r {
            return true;
        }
        i = i + 1;
    }
    false
}

/// Whether every reconfig of `a` is in `b`.
fn reconfigs_within(a: &Vec<Reconfig>, b: &Vec<Reconfig>) -> (r: bool)
    ensures
        r == a@.to_set().subset_of(b@.to_set()),
{
    let mut i: usize = 0;
    while i < a.len()
        invariant
            0 <= i <= a@.len(),
            forall|j: int| 0 <= j < i ==> b@.contains(#[trigger] a@[j]),
        decreases a@.len() - i,
    {
        if !contains_reconfig(b, a[i]) {
            assert(a@.to_set().contains(a@[i as int]));
            return false;
        }
        i = i + 1;
    }
    assert forall|x: Reconfig| a@.to_set().contains(x) implies b@.to_set().contains(x) by {
        let j = choose|j: int| 0 <= j < a@.len() && a@[j] == x;
    }
    true
}

/// Whether `a` and `b` hold the same reconfigs.
pub fn same_reconfigs(a: &Vec<Reconfig>, b: &Vec<Reconfig>) -> (r: bool)
    ensures
        r == (a@.to_set() == b@.to_set()),
{
    let x = reconfigs_within(a, b);
    let y = reconfigs_within(b, a);
    if x && y {
        assert(a@.to_set() =~= b@.to_set());
    }
    x && y
}

/// The reconfigs a vote advocates.
pub fn reconfig_list(v: &Vote) -> (r: Vec<Reconfig>)
    ensures
        r@.to_set() == reconfig_set(*v),
{
    let ps = v.reconfigs();
    let mut r: Vec<Reconfig> = Vec::new();
    let mut i: usize = 0;
    while i < ps.len()
        invariant
            0 <= i <= ps@.len(),
            ps@ == proposals(*v),
            r@.len() == i,
            forall|j: int| 0 <= j < i ==> #[trigger] r@[j] == ps@[j].1,
        decreases ps@.len() - i,
    {
        r.push(ps[i].1);
        i = i + 1;
    }
    assert forall|x: Reconfig| r@.to_set().contains(x) <==> reconfig_set(*v).contains(x) by {
        if r@.to_set().contains(x) {
            let j = choose|j: int| 0 <= j < r@.len() && r@[j] == x;
            assert(0 <= j < proposals(*v).len() && proposals(*v)[j].1 == x);
        }
        if reconfig_set(*v).contains(x) {
            let j = choose|j: int| 0 <= j < proposals(*v).len() && proposals(*v)[j].1 == x;
            assert(r@[j] == x);
        }
    }
    assert(r@.to_set() =~= reconfig_set(*v));
    r
}

/// The reconfig set of each vote, as a sorted list.
fn reconfig_lists(votes: &Vec<Rc<Vote>>) -> (r: Vec<Vec<Reconfig>>)
    ensures
        r@.len() == votes@.len(),
        forall|i: int| 0 <= i < votes@.len() ==> (#[trigger] r@[i])@.to_set() == reconfig_set(*votes@[i]),
        forall|i: int| 0 <= i < votes@.len() ==> (#[trigger] r@[i])@ == canonical(reconfig_set(*votes@[i])),
{
    let mut r: Vec<Vec<Reconfig>> = Vec::new();
    let mut i: usize = 0;
    while i < votes.len()
        invariant
            0 <= i <= votes@.len(),
            r@.len() == i,
            forall|j: int| 0 <= j < i ==> (#[trigger] r@[j])@.to_set() == reconfig_set(*votes@[j]),
            forall|j: int| 0 <= j < i ==> (#[trigger] r@[j])@ == canonical(reconfig_set(*votes@[j])),
        decreases votes@.len() - i,
    {
        let list = reconfig_list(&votes[i]);
        r.push(sort_reconfigs(&list));
        i = i + 1;
    }
    r
}

/// How many votes advocate the reconfig set of `votes[k]`.
fn tally_of(votes: &Vec<Rc<Vote>>, sets: &Vec<Vec<Reconfig>>, k: usize) -> (r: usize)
    requires
        sets@.len() == votes@.len(),
        forall|i: int| 0 <= i < votes@.len() ==> (#[trigger] sets@[i])@.to_set() == reconfig_set(*votes@[i]),
        k < votes@.len(),
    ensures
        r == tally(votes@, reconfig_set(*votes@[k as int])),
{
    let mut c: usize = 0;
    let mut j: usize = 0;
    while j < votes.len()
        invariant
            0 <= j <= votes@.len(),
            sets@.len() == votes@.len(),
            forall|i: int| 0 <= i < votes@.len() ==> (#[trigger] sets@[i])@.to_set() == reconfig_set(*votes@[i]),
            k < votes@.len(),
            c == tally(votes@.subrange(0, j as int), reconfig_set(*votes@[k as int])),
            c <= j,
        decreases votes@.len() - j,
    {
        let same = same_reconfigs(&sets[j], &sets[k]);
        if same {
            c = c + 1;
        }
        proof {
            let s = votes@.subrange(0, j + 1);
            assert(s.drop_last() =~= votes@.subrange(0, j as int));
        }
        j = j + 1;
    }
    assert(votes@.subrange(0, votes@.len() as int) =~= votes@);
    c
}

/// The sorted reconfig set of `vs[i]`.
spec fn sorted_set_at(vs: Seq<Rc<Vote>>, i: int) -> Seq<Reconfig> {
    canonical(reconfig_set(*vs[i]))
}

/// Two leaders advocate the same reconfigs, with the same tally.
proof fn lemma_leader_unique(vs: Seq<Rc<Vote>>, i: int, j: int)
    requires
        is_leader(vs, i),
        is_leader(vs, j),
        canonical(reconfig_set(*vs[i])).to_set() == reconfig_set(*vs[i]),
        canonical(reconfig_set(*vs[j])).to_set() == reconfig_set(*vs[j]),
    ensures
        reconfig_set(*vs[i]) == reconfig_set(*vs[j]),
        tally(vs, reconfig_set(*vs[i])) == tally(vs, reconfig_set(*vs[j])),
{
    assert(tally(vs, reconfig_set(*vs[i])) <= tally(vs, reconfig_set(*vs[j])));
    assert(tally(vs, reconfig_set(*vs[j])) <= tally(vs, reconfig_set(*vs[i])));
    assert(canonical(reconfig_set(*vs[j])) == canonical(reconfig_set(*vs[i])) || lex_lt(
        canonical(reconfig_set(*vs[j])),
        canonical(reconfig_set(*vs[i])),
    ));
    assert(canonical(reconfig_set(*vs[i])) == canonical(reconfig_set(*vs[j])) || lex_lt(
        canonical(reconfig_set(*vs[i])),
        canonical(reconfig_set(*vs[j])),
    ));
    if sorted_set_at(vs, i) != sorted_set_at(vs, j) {
        crate::order::lemma_lex_asymmetric(sorted_set_at(vs, j), sorted_set_at(vs, i));
    }
}

/// The index of a leading vote and its tally.
fn leader(votes: &Vec<Rc<Vote>>, sets: &Vec<Vec<Reconfig>>) -> (r: (usize, usize))
    requires
        votes@.len() > 0,
        sets@.len() == votes@.len(),
        forall|i: int| 0 <= i < votes@.len() ==> (#[trigger] sets@[i])@.to_set() == reconfig_set(*votes@[i]),
        forall|i: int| 0 <= i < votes@.len() ==> (#[trigger] sets@[i])@ == canonical(reconfig_set(*votes@[i])),
    ensures
        is_leader(votes@, r.0 as int),
        r.1 == top_tally(votes@),
        reconfig_set(*votes@[r.0 as int]) == winning_reconfigs(votes@),
{
    let mut best: usize = 0;
    let mut best_count = tally_of(votes, sets, 0);
    let mut i: usize = 1;
    while i < votes.len()
        invariant
            1 <= i <= votes@.len(),
            sets@.len() == votes@.len(),
            forall|i: int| 0 <= i < votes@.len() ==> (#[trigger] sets@[i])@.to_set() == reconfig_set(*votes@[i]),
            forall|i: int| 0 <= i < votes@.len() ==> (#[trigger] sets@[i])@ == canonical(reconfig_set(*votes@[i])),
            best < i,
            best_count == tally(votes@, reconfig_set(*votes@[best as int])),
            forall|j: int| 0 <= j < i ==> #[trigger] tally(votes@, reconfig_set(*votes@[j])) <= best_count,
            forall|j: int|
                0 <= j < i && tally(votes@, reconfig_set(*votes@[j])) == best_count ==> (#[trigger] sets@[j])@
                    == sets@[best as int]@ || lex_lt(sets@[j]@, sets@[best as int]@),
        decreases votes@.len() - i,
    {
        let c = tally_of(votes, sets, i);
        let greater = c == best_count && lex_lt_exec(&sets[best], &sets[i]);
        if c > best_count || greater {
            proof {
                if greater {
                    assert forall|j: int|
                        0 <= j < i + 1 && tally(votes@, reconfig_set(*votes@[j])) == c implies (#[trigger] sets@[j])@
                            == sets@[i as int]@ || lex_lt(sets@[j]@, sets@[i as int]@) by {
                        if j < i && sets@[j]@ != sets@[best as int]@ {
                            crate::order::lemma_lex_transitive(sets@[j]@, sets@[best as int]@, sets@[i as int]@);
                        }
                    }
                }
            }
            best = i;
            best_count = c;
        } else {
            proof {
                if c == best_count && sets@[i as int]@ != sets@[best as int]@ {
                    crate::order::lemma_lex_total(sets@[i as int]@, sets@[best as int]@);
                }
            }
        }
        i = i + 1;
    }
    proof {
        assert(is_leader(votes@, best as int)) by {
            assert forall|j: int|
                0 <= j < votes@.len() && tally(votes@, reconfig_set(*votes@[j])) == tally(votes@, reconfig_set(*votes@[best as int])) implies {
                    let cj = #[trigger] canonical(reconfig_set(*votes@[j]));
                    let ci = canonical(reconfig_set(*votes@[best as int]));
                    cj == ci || lex_lt(cj, ci)
                } by {
                assert(sets@[j]@ == canonical(reconfig_set(*votes@[j])));
            }
        }
        let k = choose|k: int| is_leader(votes@, k);
        assert(sets@[k]@ == canonical(reconfig_set(*votes@[k])));
        assert(sets@[best as int]@ == canonical(reconfig_set(*votes@[best as int])));
        lemma_leader_unique(votes@, k, best as int);
    }
    (best, best_count)
}

/// The reconfigs that win among `votes`.
pub fn resolve_votes(votes: &Vec<Rc<Vote>>) -> (r: Vec<Reconfig>)
    ensures
        r@.to_set() == winning_reconfigs(votes@),
        votes@.len() == 0 || exists|i: int| is_leader(votes@, i),
{
    if votes.len() == 0 {
        let r: Vec<Reconfig> = Vec::new();
        assert(r@.to_set() =~= Set::empty());
        return r;
    }
    let sets = reconfig_lists(votes);
    let (best, _) = leader(votes, &sets);
    reconfig_list(&votes[best])
}

/// Applies `rs` to the member list `m`: every join, then every leave.
fn apply_reconfig_list(m: &mut Vec<Actor>, rs: &Vec<Reconfig>)
    requires
        old(m)@.no_duplicates(),
    ensures
        final(m)@.no_duplicates(),
        final(m)@.to_set() == apply_reconfigs(old(m)@.to_set(), rs@.to_set()),
{
    let mut i: usize = 0;
    while i < rs.len()
        invariant
            0 <= i <= rs@.len(),
            m@.no_duplicates(),
            forall|a: Actor| #[trigger] m@.contains(a) <==> (old(m)@.contains(a) || exists|j: int| 0 <= j < i && rs@[j] == Reconfig::Join(a)),
        decreases rs@.len() - i,
    {
        match rs[i] {
            Reconfig::Join(a) => {
                if !contains_actor(m, a) {
                    proof {
                        lemma_push_contains(m@, a);
                    }
                    m.push(a);
                }
            },
            Reconfig::Leave(_) => {},
        }
        i = i + 1;
    }
    let mut kept: Vec<Actor> = Vec::new();
    let mut k: usize = 0;
    while k < m.len()
        invariant
            0 <= k <= m@.len(),
            m@.no_duplicates(),
            kept@.no_duplicates(),
            forall|a: Actor| #[trigger] kept@.contains(a) <==> (exists|j: int| 0 <= j < k && m@[j] == a) && !rs@.contains(Reconfig::Leave(a)),
        decreases m@.len() - k,
    {
        let a = m[k];
        if !contains_reconfig(rs, Reconfig::Leave(a)) {
            proof {
                lemma_push_contains(kept@, a);
                if kept@.contains(a) {
                    let j = choose|j: int| 0 <= j < k && m@[j] == a;
                    assert(m@[j] == m@[k as int]);
                }
            }
            kept.push(a);
        }
        k = k + 1;
    }
    proof {
        let target = apply_reconfigs(old(m)@.to_set(), rs@.to_set());
        assert forall|a: Actor| kept@.to_set().contains(a) <==> target.contains(a) by {
            if rs@.to_set().contains(Reconfig::Join(a)) {
                let j = choose|j: int| 0 <= j < rs@.len() && rs@[j] == Reconfig::Join(a);
                assert(m@.contains(a));
            }
            if m@.contains(a) {
                let j = choose|j: int| 0 <= j < m@.len() && m@[j] == a;
            }
        }
        assert(kept@.to_set() =~= target);
    }
    *m = kept;
}

impl State {
    /// The reconfigs forced at generation `g`.
    fn forced_list(&self, g: Generation) -> (r: Vec<Reconfig>)
        ensures
            r@.to_set() == self.forced_at(g as int),
    {
        let mut r: Vec<Reconfig> = Vec::new();
        let mut i: usize = 0;
        while i < self.forced_reconfigs.len()
            invariant
                0 <= i <= self.forced_reconfigs@.len(),
                forall|x: Reconfig| #[trigger] r@.contains(x) <==> exists|j: int|
                    0 <= j < i && self.forced_reconfigs@[j].0 == g && self.forced_reconfigs@[j].1 == x,
            decreases self.forced_reconfigs@.len() - i,
        {
            if self.forced_reconfigs[i].0 == g {
                proof {
                    lemma_push_contains(r@, self.forced_reconfigs@[i as int].1);
                }
                r.push(self.forced_reconfigs[i].1);
            }
            i = i + 1;
        }
        assert(r@.to_set() =~= self.forced_at(g as int));
        r
    }

    /// The member set at generation `gen`: the forced reconfigs and the
    /// winning reconfigs of each committed generation, replayed from genesis.
    pub fn members(&self, gen: Generation) -> (r: Result<Vec<Actor>, Error>)
        requires
            self.wf(),
        ensures
            gen <= self.gen ==> r is Ok && r->Ok_0@.no_duplicates() && r->Ok_0@.to_set() == self.members_at(gen as nat),
            gen > self.gen ==> (r matches Err(Error::InvalidGeneration(g)) && g == gen),
    {
        let mut m: Vec<Actor> = Vec::new();
        let f0 = self.forced_list(0);
        apply_reconfig_list(&mut m, &f0);
        assert(m@.to_set() == apply_reconfigs(Set::<Actor>::empty(), self.forced_at(0))) by {
            assert(Seq::<Actor>::empty().to_set() =~= Set::<Actor>::empty());
        }
        if gen == 0 {
            return Ok(m);
        }
        if gen > self.gen {
            return Err(Error::InvalidGeneration(gen));
        }
        let hl = self.history.len();
        assert(gen <= hl);
        let n = gen as usize;
        let mut h: usize = 0;
        while h < n
            invariant
                self.wf(),
                0 <= h <= n,
                n == gen,
                gen <= self.gen,
                m@.no_duplicates(),
                m@.to_set() == self.members_at(h as nat),
            decreases n - h,
        {
            let f = self.forced_list((h + 1) as u64);
            apply_reconfig_list(&mut m, &f);
            let entry = &self.history[h];
            let w = match &entry.ballot {
                Ballot::SuperMajority(vs) => resolve_votes(vs),
                _ => {
                    return Err(Error::InvalidVoteInHistory(entry.clone()));
                },
            };
            apply_reconfig_list(&mut m, &w);
            h = h + 1;
        }
        Ok(m)
    }

    /// Forces `actor` into the member set at the current generation, unvoted.
    pub fn force_join(&mut self, actor: Actor)
        requires
            old(self).wf(),
        ensures
            final(self).wf(),
            final(self).gen == old(self).gen,
            final(self).pending_gen == old(self).pending_gen,
            final(self).history == old(self).history,
            final(self).votes == old(self).votes,
            final(self).id == old(self).id,
            forall|g: int|
                #[trigger] final(self).forced_at(g) == if g == old(self).gen {
                    old(self).forced_at(g).remove(Reconfig::Leave(actor)).insert(Reconfig::Join(actor))
                } else {
                    old(self).forced_at(g)
                },
    {
        self.force(Reconfig::Join(actor), Reconfig::Leave(actor));
    }

    /// Forces `actor` out of the member set at the current generation, unvoted.
    pub fn force_leave(&mut self, actor: Actor)
        requires
            old(self).wf(),
        ensures
            final(self).wf(),
            final(self).gen == old(self).gen,
            final(self).pending_gen == old(self).pending_gen,
            final(self).history == old(self).history,
            final(self).votes == old(self).votes,
            final(self).id == old(self).id,
            forall|g: int|
                #[trigger] final(self).forced_at(g) == if g == old(self).gen {
                    old(self).forced_at(g).remove(Reconfig::Join(actor)).insert(Reconfig::Leave(actor))
                } else {
                    old(self).forced_at(g)
                },
    {
        self.force(Reconfig::Leave(actor), Reconfig::Join(actor));
    }

    fn force(&mut self, add: Reconfig, drop: Reconfig)
        requires
            old(self).wf(),
        ensures
            final(self).wf(),
            final(self).gen == old(self).gen,
            final(self).pending_gen == old(self).pending_gen,
            final(self).history == old(self).history,
            final(self).votes == old(self).votes,
            final(self).id == old(self).id,
            forall|g: int|
                #[trigger] final(self).forced_at(g) == if g == old(self).gen {
                    old(self).forced_at(g).remove(drop).insert(add)
                } else {
                    old(self).forced_at(g)
                },
    {
        let gen = self.gen;
        let mut kept: Vec<(Generation, Reconfig)> = Vec::new();
        let mut i: usize = 0;
        while i < self.forced_reconfigs.len()
            invariant
                0 <= i <= self.forced_reconfigs@.len(),
                forall|p: (Generation, Reconfig)| #[trigger] kept@.contains(p) <==> (exists|j: int|
                    0 <= j < i && self.forced_reconfigs@[j] == p) && p != (gen, drop),
            decreases self.forced_reconfigs@.len() - i,
        {
            let p = self.forced_reconfigs[i];
            if !(p.0 == gen && p.1 == drop) {
                proof {
                    lemma_push_contains(kept@, p);
                }
                kept.push(p);
            }
            i = i + 1;
        }
        proof {
            lemma_push_contains(kept@, (gen, add));
        }
        kept.push((gen, add));
        let ghost old_self = *self;
        self.forced_reconfigs = kept;
        proof {
            assert forall|g: int| #[trigger] self.forced_at(g) == if g == old_self.gen {
                old_self.forced_at(g).remove(drop).insert(add)
            } else {
                old_self.forced_at(g)
            } by {
                let target = if g == old_self.gen {
                    old_self.forced_at(g).remove(drop).insert(add)
                } else {
                    old_self.forced_at(g)
                };
                assert forall|r: Reconfig| self.forced_at(g).contains(r) <==> target.contains(r) by {
                    if self.forced_at(g).contains(r) {
                        let j = choose|j: int| 0 <= j < self.forced_reconfigs@.len() && self.forced_reconfigs@[j].0 == g && self.forced_reconfigs@[j].1 == r;
                        assert(self.forced_reconfigs@.contains(self.forced_reconfigs@[j]));
                    }
                    if target.contains(r) {
                        if g == old_self.gen && r == add {
                            assert(self.forced_reconfigs@[self.forced_reconfigs@.len() - 1] == (gen, add));
                        } else {
                            let j = choose|j: int| 0 <= j < old_self.forced_reconfigs@.len() && old_self.forced_reconfigs@[j].0 == g && old_self.forced_reconfigs@[j].1 == r;
                            let p = old_self.forced_reconfigs@[j];
                            assert(self.forced_reconfigs@.contains(p));
                            let k = choose|k: int| 0 <= k < self.forced_reconfigs@.len() && self.forced_reconfigs@[k] == p;
                        }
                    }
                }
                assert(self.forced_at(g) =~= target);
            }
        }
    }
}


/// How many votes of `votes` carry a `SuperMajority` ballot for exactly the
/// reconfigs of `target`.
fn sm_tally_of(votes: &Vec<Rc<Vote>>, sets: &Vec<Vec<Reconfig>>, target: &Vec<Reconfig>) -> (r: usize)
    requires
        sets@.len() == votes@.len(),
        forall|i: int| 0 <= i < votes@.len() ==> (#[trigger] sets@[i])@.to_set() == reconfig_set(*votes@[i]),
    ensures
        r == sm_tally(votes@, target@.to_set()),
{
    let mut c: usize = 0;
    let mut j: usize = 0;
    while j < votes.len()
        invariant
            0 <= j <= votes@.len(),
            sets@.len() == votes@.len(),
            forall|i: int| 0 <= i < votes@.len() ==> (#[trigger] sets@[i])@.to_set() == reconfig_set(*votes@[i]),
            c == sm_tally(votes@.subrange(0, j as int), target@.to_set()),
            c <= j,
        decreases votes@.len() - j,
    {
        let same = same_reconfigs(&sets[j], target);
        if same && votes[j].is_super_majority_ballot() {
            c = c + 1;
        }
        proof {
            let s = votes@.subrange(0, j + 1);
            assert(s.drop_last() =~= votes@.subrange(0, j as int));
        }
        j = j + 1;
    }
    assert(votes@.subrange(0, votes@.len() as int) =~= votes@);
    c
}

/// The highest tally among `votes`.
fn most_votes(votes: &Vec<Rc<Vote>>) -> (r: usize)
    ensures
        r == top_tally(votes@),
        r <= votes@.len(),
{
    if votes.len() == 0 {
        return 0;
    }
    let sets = reconfig_lists(votes);
    let (best, most) = leader(votes, &sets);
    proof {
        lemma_tally_bound(votes@);
    }
    most
}

proof fn lemma_tally_bound(vs: Seq<Rc<Vote>>)
    ensures
        forall|rs: Set<Reconfig>| #[trigger] tally(vs, rs) <= vs.len(),
    decreases vs.len(),
{
    if vs.len() > 0 {
        lemma_tally_bound(vs.drop_last());
        assert forall|rs: Set<Reconfig>| #[trigger] tally(vs, rs) <= vs.len() by {
            assert(tally(vs.drop_last(), rs) <= vs.drop_last().len());
        }
    }
}

/// Whether the votes are split (see `split_vote`) among `n` members.
pub fn is_split_vote(votes: &Vec<Rc<Vote>>, n: usize) -> (r: bool)
    ensures
        r == split_vote(votes@, n as nat),
{
    let most = most_votes(votes) as u128;
    let received = votes.len() as u128;
    let n = n as u128;
    3 * received > 2 * n && 3 * most + n <= 3 * received
}

/// Whether some reconfig set has a supermajority of `n` members.
pub fn is_super_majority(votes: &Vec<Rc<Vote>>, n: usize) -> (r: bool)
    ensures
        r == super_majority(votes@, n as nat),
{
    let most = most_votes(votes) as u128;
    3 * most > 2 * (n as u128)
}

/// Whether a supermajority of `n` members sent `SuperMajority` ballots for
/// the winning reconfigs.
pub fn is_super_majority_over_super_majorities(votes: &Vec<Rc<Vote>>, n: usize) -> (r: bool)
    ensures
        r == super_majority_over_super_majorities(votes@, n as nat),
        r ==> super_majority(votes@, n as nat),
{
    let winning = resolve_votes(votes);
    let sets = reconfig_lists(votes);
    let c = sm_tally_of(votes, &sets, &winning) as u128;
    proof {
        lemma_sm_tally_le_top(votes@);
    }
    3 * c > 2 * (n as u128)
}


/// Whether some voter appears in `ps` with two different reconfigs.
fn has_changed_mind(ps: &Vec<(Actor, Reconfig)>) -> (r: bool)
    ensures
        r == changed_mind(ps@),
{
    let mut i: usize = 0;
    while i < ps.len()
        invariant
            0 <= i <= ps@.len(),
            forall|a: int, b: int| 0 <= a < i && 0 <= b < ps@.len() ==> !(ps@[a].0 == ps@[b].0 && ps@[a].1 != ps@[b].1),
        decreases ps@.len() - i,
    {
        let mut j: usize = 0;
        while j < ps.len()
            invariant
                0 <= i < ps@.len(),
                0 <= j <= ps@.len(),
                forall|a: int, b: int| 0 <= a < i && 0 <= b < ps@.len() ==> !(ps@[a].0 == ps@[b].0 && ps@[a].1 != ps@[b].1),
                forall|b: int| 0 <= b < j ==> !(ps@[i as int].0 == ps@[b].0 && ps@[i as int].1 != ps@[b].1),
            decreases ps@.len() - j,
        {
            if ps[i].0 == ps[j].0 && ps[i].1 != ps[j].1 {
                return true;
            }
            j = j + 1;
        }
        i = i + 1;
    }
    false
}

impl State {
    /// The index of `voter`'s logged vote.
    pub fn vote_index(&self, voter: Actor) -> (r: Option<usize>)
        ensures
            r matches Some(i) ==> i < self.votes@.len() && self.votes@[i as int].voter == voter,
            r is None ==> !self.has_vote_from(voter),
    {
        let mut i: usize = 0;
        while i < self.votes.len()
            invariant
                0 <= i <= self.votes@.len(),
                forall|j: int| 0 <= j < i ==> self.votes@[j].voter != voter,
            decreases self.votes@.len() - i,
        {
            if self.votes[i].voter == voter {
                return Some(i);
            }
            i = i + 1;
        }
        None
    }

    /// Checks that `reconfig` may be proposed against the current members.
    pub fn validate_reconfig(&self, reconfig: &Reconfig) -> (r: Result<(), Error>)
        requires
            self.wf(),
        ensures
            r is Ok <==> self.reconfig_ok(*reconfig),
            r is Err ==> self.reconfig_rejection(*reconfig, r->Err_0),
    {
        let members = match self.members(self.gen) {
            Ok(m) => m,
            Err(e) => return Err(e),
        };
        proof {
            members@.unique_seq_to_set();
        }
        match reconfig {
            Reconfig::Join(actor) => {
                if contains_actor(&members, *actor) {
                    Err(Error::JoinRequestForExistingMember { requester: *actor, members })
                } else if members.len() >= SOFT_MAX_MEMBERS {
                    Err(Error::MembersAtCapacity { members })
                } else {
                    Ok(())
                }
            },
            Reconfig::Leave(actor) => {
                if !contains_actor(&members, *actor) {
                    Err(Error::LeaveRequestForNonMember { requester: *actor, members })
                } else {
                    Ok(())
                }
            },
        }
    }

    /// Checks a vote: its signature, its generation, its voter, its
    /// agreement with the voter's earlier vote, and its ballot.
    pub fn validate_vote(&self, vote: &Rc<Vote>) -> (r: Result<(), Error>)
        requires
            self.wf(),
        ensures
            r is Ok <==> self.vote_valid(**vote),
            r is Err ==> self.rejection(**vote, r->Err_0),
        decreases vote,
    {
        let members = match self.members(self.gen) {
            Ok(m) => m,
            Err(e) => return Err(e),
        };
        let signed = signable_bytes(&vote.ballot, vote.gen);
        if !vote.voter.verify(&signed, &vote.sig) {
            return Err(Error::InvalidSignature);
        }
        if self.gen == u64::MAX || vote.gen != self.gen + 1 {
            return Err(
                Error::VoteNotForNextGeneration {
                    vote_gen: vote.gen,
                    gen: self.gen,
                    pending_gen: self.pending_gen,
                },
            );
        }
        if !contains_actor(&members, vote.voter) {
            return Err(Error::VoteFromNonMember { voter: vote.voter, members });
        }
        match self.vote_index(vote.voter) {
            Some(i) => {
                let existing = &self.votes[i];
                let vote_b = vote.to_bytes();
                let existing_b = existing.to_bytes();
                if !vote.supersedes(existing, &existing_b) && !existing.supersedes(vote, &vote_b) {
                    proof {
                        assert(!self.compatible(**vote));
                    }
                    return Err(Error::ExistingVoteIncompatibleWithNewVote { existing_vote: existing.clone() });
                }
                proof {
                    assert(self.compatible(**vote)) by {
                        assert forall|j: int|
                            0 <= j < self.votes@.len() && (#[trigger] self.votes@[j]).voter == vote.voter implies supersedes(**vote, *self.votes@[j])
                                || supersedes(*self.votes@[j], **vote) by {
                            if j != i {
                                if j < i {
                                    assert(crate::actor::actor_lt(self.votes@[j].voter, self.votes@[i as int].voter));
                                } else {
                                    assert(crate::actor::actor_lt(self.votes@[i as int].voter, self.votes@[j].voter));
                                }
                            }
                        }
                    }
                }
            },
            None => {},
        }
        if self.pending_gen != self.gen {
            let mut pairs: Vec<(Actor, Reconfig)> = Vec::new();
            let mut k: usize = 0;
            while k < self.votes.len()
                invariant
                    0 <= k <= self.votes@.len(),
                    pairs@ == crate::vote::proposals_all(self.votes@.subrange(0, k as int)),
                decreases self.votes@.len() - k,
            {
                let mut more = self.votes[k].reconfigs();
                pairs.append(&mut more);
                proof {
                    let s = self.votes@.subrange(0, k + 1);
                    assert(s.drop_last() =~= self.votes@.subrange(0, k as int));
                }
                k = k + 1;
            }
            assert(self.votes@.subrange(0, self.votes@.len() as int) =~= self.votes@);
            let mut mine = vote.reconfigs();
            pairs.append(&mut mine);
            if has_changed_mind(&pairs) {
                return Err(Error::VoterChangedMind { reconfigs: pairs });
            }
        }
        match &vote.ballot {
            Ballot::Propose(reconfig) => self.validate_reconfig(reconfig),
            Ballot::Merge(vs) => self.validate_inner(vs, vote.gen),
            Ballot::SuperMajority(vs) => {
                let unpacked = crate::vote::unpack_list(vs);
                let distinct = crate::vote::dedup_votes(&unpacked);
                proof {
                    members@.unique_seq_to_set();
                }
                if !is_super_majority(&distinct, members.len()) {
                    return Err(Error::SuperMajorityBallotIsNotSuperMajority { vote: vote.clone(), members });
                }
                self.validate_inner(vs, vote.gen)
            },
        }
    }

    /// Checks each inner vote of a ballot for generation `gen`.
    fn validate_inner(&self, vs: &Vec<Rc<Vote>>, gen: Generation) -> (r: Result<(), Error>)
        requires
            self.wf(),
        ensures
            r is Ok <==> forall|i: int| 0 <= i < vs@.len() ==> vs@[i].gen == gen && self.vote_valid(*vs@[i]),
            r is Err ==> self.inner_rejection(vs@, gen, r->Err_0),
        decreases vs,
    {
        let mut i: usize = 0;
        while i < vs.len()
            invariant
                self.wf(),
                0 <= i <= vs@.len(),
                forall|j: int| 0 <= j < i ==> vs@[j].gen == gen && self.vote_valid(*vs@[j]),
            decreases vs@.len() - i,
        {
            if vs[i].gen != gen {
                return Err(Error::VoteNotForNextGeneration { vote_gen: vs[i].gen, gen, pending_gen: gen });
            }
            proof {
                assert(decreases_to!(vs => vs@[i as int]));
            }
            match self.validate_vote(&vs[i]) {
                Ok(()) => {},
                Err(e) => return Err(e),
            }
            i = i + 1;
        }
        Ok(())
    }
}


/// Logs `u` into the voter-ordered list `vs`.
fn log_one_vote(vs: &mut Vec<Rc<Vote>>, u: &Rc<Vote>)
    requires
        voter_sorted(old(vs)@),
    ensures
        voter_sorted(final(vs)@),
        final(vs)@ == log_one(old(vs)@, *u),
        final(vs)@.len() > 0,
{
    let ghost old_vs = vs@;
    let mut i: usize = 0;
    while i < vs.len() && !u.voter.lt(&vs[i].voter) && vs[i].voter != u.voter
        invariant
            0 <= i <= vs@.len(),
            vs@ == old_vs,
            voter_sorted(vs@),
            forall|j: int| 0 <= j < i ==> vs@[j].voter != u.voter && crate::actor::actor_lt(vs@[j].voter, u.voter),
        decreases vs@.len() - i,
    {
        i = i + 1;
    }
    if i < vs.len() && vs[i].voter == u.voter {
        let existing_bytes = vs[i].to_bytes();
        let sup = u.supersedes(&vs[i], &existing_bytes);
        proof {
            assert(forall|j: int| 0 <= j < old_vs.len() && j != i ==> old_vs[j].voter != u.voter) by {
                assert forall|j: int| 0 <= j < old_vs.len() && j != i implies old_vs[j].voter != u.voter by {
                    if j > i {
                        assert(crate::actor::actor_lt(old_vs[i as int].voter, old_vs[j].voter));
                    }
                }
            }
        }
        if sup {
            vs.set(i, u.clone());
        }
        proof {
            reveal(log_one);
            assert(exists|j: int| 0 <= j < old_vs.len() && old_vs[j].voter == u.voter);
            assert(vs@ =~= log_one(old_vs, *u));
            assert forall|a: int, b: int| 0 <= a < b < vs@.len() implies crate::actor::actor_lt((#[trigger] vs@[a]).voter, (#[trigger] vs@[b]).voter) by {
                assert(vs@[a].voter == old_vs[a].voter);
                assert(vs@[b].voter == old_vs[b].voter);
            }
        }
    } else {
        proof {
            reveal(log_one);
            assert forall|j: int| i <= j < old_vs.len() implies crate::actor::actor_lt(u.voter, #[trigger] old_vs[j].voter) by {
                if j > i {
                    assert(crate::actor::actor_lt(old_vs[i as int].voter, old_vs[j].voter));
                }
            }
            assert(!exists|k: int| 0 <= k < old_vs.len() && old_vs[k].voter == u.voter) by {
                if exists|k: int| 0 <= k < old_vs.len() && old_vs[k].voter == u.voter {
                    let k = choose|k: int| 0 <= k < old_vs.len() && old_vs[k].voter == u.voter;
                    if k >= i {
                        assert(crate::actor::actor_lt(u.voter, old_vs[k].voter));
                    }
                }
            }
            assert(is_insertion_point(old_vs, u.voter, i as int));
            let k = insertion_index(old_vs, u.voter);
            assert(is_insertion_point(old_vs, u.voter, k));
            if k < i {
                assert(crate::actor::actor_lt(u.voter, old_vs[k].voter));
            } else if k > i {
                assert(crate::actor::actor_lt(old_vs[i as int].voter, u.voter));
            }
            assert(k == i);
        }
        vs.insert(i, u.clone());
        proof {
            reveal(log_one);
            assert(vs@ == old_vs.insert(i as int, *u));
            assert forall|a: int, b: int| 0 <= a < b < vs@.len() implies crate::actor::actor_lt((#[trigger] vs@[a]).voter, (#[trigger] vs@[b]).voter) by {
                if b < i {
                } else if a < i && b == i {
                } else if a < i && b > i {
                    assert(vs@[b] == old_vs[b - 1]);
                } else if a == i {
                    assert(vs@[b] == old_vs[b - 1]);
                } else {
                    assert(vs@[b] == old_vs[b - 1]);
                    assert(vs@[a] == old_vs[a - 1]);
                }
            }
        }
    }
}

impl State {
    /// Logs `vote` and every vote nested in it.
    #[verifier::rlimit(50)]
    fn log_vote(&mut self, vote: &Rc<Vote>)
        requires
            old(self).wf(),
        ensures
            final(self).votes@ == log_all(old(self).votes@, unpack(*vote)),
            voter_sorted(final(self).votes@),
            final(self).gen == old(self).gen,
            final(self).pending_gen == old(self).pending_gen,
            final(self).history == old(self).history,
            final(self).forced_reconfigs == old(self).forced_reconfigs,
            final(self).id == old(self).id,
            final(self).votes@.len() > 0,
            final(self).wf(),
    {
        let us = unpack_votes(vote);
        assert(us@.len() > 0);
        let mut i: usize = 0;
        while i < us.len()
            invariant
                0 <= i <= us@.len(),
                us@ == unpack(*vote),
                voter_sorted(self.votes@),
                self.votes@ == log_all(old(self).votes@, us@.subrange(0, i as int)),
                self.gen == old(self).gen,
                self.pending_gen == old(self).pending_gen,
                self.history == old(self).history,
                self.forced_reconfigs == old(self).forced_reconfigs,
                self.id == old(self).id,
                i > 0 ==> self.votes@.len() > 0,
            decreases us@.len() - i,
        {
            log_one_vote(&mut self.votes, &us[i]);
            proof {
                let s = us@.subrange(0, i + 1);
                assert(s.drop_last() =~= us@.subrange(0, i as int));
                assert(s.last() == us@[i as int]);
                assert(log_all(old(self).votes@, s) == log_one(log_all(old(self).votes@, s.drop_last()), s.last()));
            }
            i = i + 1;
        }
        assert(us@.subrange(0, us@.len() as int) =~= us@);
    }
}


/// The member sets depend only on the forced reconfigs and the history.
pub proof fn lemma_members_at_frame(a: State, b: State, g: nat)
    requires
        a.forced_reconfigs@ == b.forced_reconfigs@,
        a.history@ == b.history@,
    ensures
        a.members_at(g) == b.members_at(g),
    decreases g,
{
    assert(a.forced_at(g as int) == b.forced_at(g as int));
    assert(a.forced_at(0) == b.forced_at(0));
    if g > 0 {
        lemma_members_at_frame(a, b, (g - 1) as nat);
    }
}

/// The committed generation never passes the generation being voted on,
/// which is at most one ahead.
pub proof fn law_generation_within_pending(s: State)
    requires
        s.wf(),
    ensures
        s.gen <= s.pending_gen <= s.gen + 1,
{
}

/// Two processes that forced the same reconfigs up to generation `g` and
/// whose committed votes resolve to the same reconfigs agree on the members
/// at `g`: the member set is determined by those alone.
pub proof fn law_members_determined(a: State, b: State, g: nat)
    requires
        a.wf(),
        b.wf(),
        g <= a.gen,
        g <= b.gen,
        forall|h: int| 0 <= h <= g ==> #[trigger] a.forced_at(h) == b.forced_at(h),
        forall|h: int|
            0 <= h < g ==> #[trigger] winning_reconfigs(ballot_votes(a.history@[h].ballot)) == winning_reconfigs(
                ballot_votes(b.history@[h].ballot),
            ),
    ensures
        a.members_at(g) == b.members_at(g),
    decreases g,
{
    assert(a.forced_at(0) == b.forced_at(0));
    if g > 0 {
        law_members_determined(a, b, (g - 1) as nat);
        assert(a.forced_at(g as int) == b.forced_at(g as int));
        assert(winning_reconfigs(ballot_votes(a.history@[g - 1].ballot)) == winning_reconfigs(
            ballot_votes(b.history@[g - 1].ballot),
        ));
    }
}

/// A ballot of the same kind and content as `b`.
pub fn copy_ballot(b: &Ballot) -> (r: Ballot)
    ensures
        same_ballot(r, *b),
        ballot_bytes(r) == ballot_bytes(*b),
{
    match b {
        Ballot::Propose(x) => Ballot::Propose(*x),
        Ballot::Merge(vs) => {
            let c = copy_votes(vs);
            Ballot::Merge(c)
        },
        Ballot::SuperMajority(vs) => {
            let c = copy_votes(vs);
            Ballot::SuperMajority(c)
        },
    }
}

fn copy_votes(vs: &Vec<Rc<Vote>>) -> (r: Vec<Rc<Vote>>)
    ensures
        r@ == vs@,
{
    let mut r: Vec<Rc<Vote>> = Vec::new();
    let mut i: usize = 0;
    while i < vs.len()
        invariant
            0 <= i <= vs@.len(),
            r@ == vs@.subrange(0, i as int),
        decreases vs@.len() - i,
    {
        r.push(vs[i].clone());
        i = i + 1;
        assert(r@ =~= vs@.subrange(0, i as int));
    }
    assert(vs@.subrange(0, vs@.len() as int) =~= vs@);
    r
}

impl State {
    /// Signs `ballot` for `gen` as this process.
    pub fn build_vote(&self, gen: Generation, ballot: Ballot) -> (r: Rc<Vote>)
        ensures
            r.gen == gen,
            r.ballot == ballot,
            r.voter == self.id.view_actor(),
            r.sig == self.own_signature(r.ballot, r.gen),
    {
        let bytes = signable_bytes(&ballot, gen);
        let sig = self.id.sign(&bytes);
        Rc::new(Vote { gen, ballot, voter: self.id.actor(), sig })
    }

    /// Addresses `vote` to every member of the current generation.
    pub fn broadcast(&self, vote: &Rc<Vote>) -> (r: Vec<VoteMsg>)
        requires
            self.wf(),
        ensures
            broadcast_to(r@, *vote, self.members_at(self.gen as nat)),
    {
        let members = match self.members(self.gen) {
            Ok(m) => m,
            Err(_) => Vec::new(),
        };
        let mut r: Vec<VoteMsg> = Vec::new();
        let mut i: usize = 0;
        while i < members.len()
            invariant
                0 <= i <= members@.len(),
                members@.no_duplicates(),
                members@.to_set() == self.members_at(self.gen as nat),
                r@.len() == i,
                forall|k: int| 0 <= k < i ==> (#[trigger] r@[k]).vote == *vote && r@[k].dest == members@[k],
            decreases members@.len() - i,
        {
            r.push(VoteMsg { vote: vote.clone(), dest: members[i] });
            i = i + 1;
        }
        proof {
            assert forall|k: int| 0 <= k < r@.len() implies (#[trigger] r@[k]).vote == *vote && self.members_at(self.gen as nat).contains(r@[k].dest) by {
                assert(members@.contains(members@[k]));
            }
            assert forall|a: Actor| self.members_at(self.gen as nat).contains(a) implies exists|k: int| 0 <= k < r@.len() && (#[trigger] r@[k]).dest == a by {
                assert(members@.to_set().contains(a));
                let k = choose|k: int| 0 <= k < members@.len() && members@[k] == a;
                assert(r@[k].dest == a);
            }
        }
        r
    }

    /// Records our own vote and addresses it to every member.
    fn cast_vote(&mut self, vote: Rc<Vote>) -> (r: Vec<VoteMsg>)
        requires
            old(self).wf(),
            vote.gen == old(self).gen + 1,
        ensures
            final(self).wf(),
            final(self).votes@ == log_all(old(self).votes@, unpack(vote)),
            final(self).pending_gen == vote.gen,
            final(self).gen == old(self).gen,
            final(self).history == old(self).history,
            final(self).forced_reconfigs == old(self).forced_reconfigs,
            final(self).id == old(self).id,
            broadcast_to(r@, vote, old(self).members_at(old(self).gen as nat)),
    {
        self.log_vote(&vote);
        self.pending_gen = vote.gen;
        proof {
            lemma_members_at_frame(*self, *old(self), old(self).gen as nat);
        }
        self.broadcast(&vote)
    }

    /// Proposes `reconfig` for the next generation: our signed `Propose`
    /// vote is validated like any other, then logged and sent to every member.
    pub fn propose(&mut self, reconfig: Reconfig) -> (r: Result<Vec<VoteMsg>, Error>)
        requires
            old(self).wf(),
            old(self).gen < u64::MAX,
        ensures
            final(self).wf(),
            final(self).id == old(self).id,
            final(self).forced_reconfigs == old(self).forced_reconfigs,
            !old(self).reconfig_ok(reconfig) ==> r is Err,
            !old(self).members_at(old(self).gen as nat).contains(old(self).id.view_actor()) ==> r is Err,
            old(self).proposal_result(reconfig, *final(self), r),
    {
        let vote = self.build_vote(self.gen + 1, Ballot::Propose(reconfig));
        assert(*vote == old(self).own_proposal(reconfig));
        match self.validate_vote(&vote) {
            Ok(()) => {},
            Err(e) => return Err(e),
        }
        let ghost w = vote;
        let msgs = self.cast_vote(vote);
        assert(*w == old(self).own_proposal(reconfig));
        assert(broadcast_to(msgs@, w, old(self).members_at(old(self).gen as nat)));
        assert(self.votes@ == log_all(old(self).votes@, unpack(w)));
        let r: Result<Vec<VoteMsg>, Error> = Ok(msgs);
        assert(r->Ok_0@ == msgs@);
        r
    }

    /// The votes a peer that has seen generation `from_gen` is missing: each
    /// committed generation after it, then every vote of the current round,
    /// all addressed to `actor`.
    pub fn anti_entropy(&self, from_gen: Generation, actor: Actor) -> (r: Vec<VoteMsg>)
        requires
            self.wf(),
        ensures
            ({
                let start = if from_gen < self.gen { from_gen as int } else { self.gen as int };
                let missing = self.history@.subrange(start, self.history@.len() as int) + self.votes@;
                &&& r@.len() == missing.len()
                &&& forall|k: int| 0 <= k < r@.len() ==> (#[trigger] r@[k]).vote == missing[k] && r@[k].dest == actor
            }),
    {
        let mut r: Vec<VoteMsg> = Vec::new();
        let hl = self.history.len();
        let start: usize = if from_gen < self.gen { from_gen as usize } else { hl };
        let mut i: usize = start;
        while i < self.history.len()
            invariant
                start <= i <= self.history@.len(),
                start == (if from_gen < self.gen { from_gen as int } else { self.gen as int }),
                self.wf(),
                r@.len() == i - start,
                forall|k: int| 0 <= k < r@.len() ==> (#[trigger] r@[k]).vote == self.history@[start + k] && r@[k].dest == actor,
            decreases self.history@.len() - i,
        {
            r.push(VoteMsg { vote: self.history[i].clone(), dest: actor });
            i = i + 1;
        }
        let h = r.len();
        let mut j: usize = 0;
        while j < self.votes.len()
            invariant
                0 <= j <= self.votes@.len(),
                h == self.history@.len() - start,
                start <= self.history@.len(),
                r@.len() == h + j,
                forall|k: int| 0 <= k < h ==> (#[trigger] r@[k]).vote == self.history@[start + k] && r@[k].dest == actor,
                forall|k: int| h <= k < h + j ==> (#[trigger] r@[k]).vote == self.votes@[k - h] && r@[k].dest == actor,
            decreases self.votes@.len() - j,
        {
            r.push(VoteMsg { vote: self.votes[j].clone(), dest: actor });
            j = j + 1;
        }
        r
    }
}


impl State {
    /// Handles a vote from a peer: validates it, logs it, then runs one step
    /// of the round: merge a split vote, commit on a supermajority of
    /// supermajorities, broadcast a supermajority, or cast our first vote.
    #[verifier::rlimit(80)]
    pub fn handle_vote(&mut self, vote: Rc<Vote>) -> (r: Result<Vec<VoteMsg>, Error>)
        requires
            old(self).wf(),
        ensures
            final(self).wf(),
            old(self).vote_outcome(vote, *final(self), r),
    {
        match self.validate_vote(&vote) {
            Ok(()) => {},
            Err(e) => return Err(e),
        }
        let ghost o = *self;
        self.log_vote(&vote);
        self.pending_gen = vote.gen;
        proof {
            lemma_members_at_frame(*self, o, o.gen as nat);
        }
        let members = match self.members(self.gen) {
            Ok(m) => m,
            Err(e) => return Err(e),
        };
        proof {
            members@.unique_seq_to_set();
        }
        let n = members.len();
        let me = self.id.actor();
        let ghost logged = self.votes@;

        if is_split_vote(&self.votes, n) {
            let ballot = Ballot::Merge(copy_votes(&self.votes)).simplify();
            let merge_vote = self.build_vote(self.pending_gen, ballot);
            let ghost mv = merge_vote;
            match self.vote_index(me) {
                Some(i) => {
                    let ours = reconfig_list(&self.votes[i]);
                    let theirs = reconfig_list(&merge_vote);
                    proof {
                        lemma_vote_of(logged, me, i as int);
                        lemma_proposed_set(mv);
                    }
                    if same_reconfigs(&ours, &theirs) {
                        return Ok(Vec::new());
                    }
                },
                None => {},
            }
            let ghost m = merge_vote;
            let msgs = self.cast_vote(merge_vote);
            assert(ballot_votes(m.ballot) == simplified(logged));
            return Ok(msgs);
        }

        if is_super_majority_over_super_majorities(&self.votes, n) {
            let is_member = contains_actor(&members, me);
            if is_member {
                let ballot = Ballot::SuperMajority(copy_votes(&self.votes)).simplify();
                let sm_vote = self.build_vote(self.pending_gen, ballot);
                self.history.push(sm_vote);
                self.votes = Vec::new();
                self.gen = self.pending_gen;
                assert(self.history@.subrange(0, o.history@.len() as int) =~= o.history@);
                return Ok(Vec::new());
            }
            let unpacked = unpack_votes(&vote);
            let distinct = crate::vote::dedup_votes(&unpacked);
            if vote.is_super_majority_ballot() && is_super_majority_over_super_majorities(&distinct, n) {
                self.history.push(vote);
                self.votes = Vec::new();
                self.gen = self.pending_gen;
                assert(self.history@.subrange(0, o.history@.len() as int) =~= o.history@);
                return Ok(Vec::new());
            }
            return Ok(Vec::new());
        }

        if is_super_majority(&self.votes, n) {
            match self.vote_index(me) {
                Some(i) => {
                    proof {
                        lemma_vote_of(logged, me, i as int);
                    }
                    let super_majority_reconfigs = resolve_votes(&self.votes);
                    let our_unpacked = unpack_votes(&self.votes[i]);
                    let our_distinct = crate::vote::dedup_votes(&our_unpacked);
                    let ours = resolve_votes(&our_distinct);
                    let within = reconfigs_within(&ours, &super_majority_reconfigs);
                    if !within {
                        return Ok(Vec::new());
                    } else if self.votes[i].is_super_majority_ballot() {
                        return Ok(Vec::new());
                    }
                },
                None => {},
            }
            let ballot = Ballot::SuperMajority(copy_votes(&self.votes)).simplify();
            let sm_vote = self.build_vote(self.pending_gen, ballot);
            let ghost m = sm_vote;
            let msgs = self.cast_vote(sm_vote);
            assert(ballot_votes(m.ballot) == simplified(logged));
            return Ok(msgs);
        }

        match self.vote_index(me) {
            Some(i) => {
                proof {
                    lemma_vote_of(logged, me, i as int);
                }
                Ok(Vec::new())
            },
            None => {
                let ballot = copy_ballot(&vote.ballot);
                let own = self.build_vote(self.pending_gen, ballot);
                let ghost m = own;
                let msgs = self.cast_vote(own);
                assert(same_ballot(m.ballot, vote.ballot));
                Ok(msgs)
            },
        }
    }
}

/// The vote found at index `i` is the one `vote_of` names.
proof fn lemma_vote_of(vs: Seq<Rc<Vote>>, voter: Actor, i: int)
    requires
        voter_sorted(vs),
        0 <= i < vs.len(),
        vs[i].voter == voter,
    ensures
        has_vote(vs, voter),
        vote_of(vs, voter) == vs[i],
{
    let k = choose|k: int| 0 <= k < vs.len() && vs[k].voter == voter;
    if k < i {
        assert(crate::actor::actor_lt(vs[k].voter, vs[i].voter));
    } else if k > i {
        assert(crate::actor::actor_lt(vs[i].voter, vs[k].voter));
    }
}

/// A merge ballot advocates what its inner votes propose.
proof fn lemma_proposed_set(v: Rc<Vote>)
    requires
        v.ballot is Merge,
    ensures
        reconfig_set(*v) == proposed_set(ballot_votes(v.ballot)),
{
    assert(reconfig_set(*v) =~= proposed_set(ballot_votes(v.ballot)));
}

/// Counting only `SuperMajority` ballots never exceeds the plain tally.
proof fn lemma_sm_tally_le_tally(vs: Seq<Rc<Vote>>, rs: Set<Reconfig>)
    ensures
        sm_tally(vs, rs) <= tally(vs, rs),
    decreases vs.len(),
{
    if vs.len() > 0 {
        lemma_sm_tally_le_tally(vs.drop_last(), rs);
    }
}

/// The winning set's `SuperMajority` count is at most the top tally.
proof fn lemma_sm_tally_le_top(vs: Seq<Rc<Vote>>)
    requires
        vs.len() == 0 || exists|i: int| is_leader(vs, i),
    ensures
        sm_tally(vs, winning_reconfigs(vs)) <= top_tally(vs),
{
    lemma_sm_tally_le_tally(vs, winning_reconfigs(vs));
}

} // verus!
