//! Reconfigurations, ballots and votes, the recursive values of the
//! membership protocol, with their canonical encoding.

use crate::actor::{actor_bytes, sig_bytes, Actor, Sig};
use crate::codec::{le8, push_all, push_u64};
use std::rc::Rc;
use vstd::prelude::*;

verus! {

/// A membership generation. Genesis is 0.
pub type Generation = u64;

/// A change to the member set.
#[derive(Clone, Copy, Debug, PartialEq, Eq, Structural, Hash)]
pub enum Reconfig {
    Join(Actor),
    Leave(Actor),
}

/// A voting stance for the next generation.
#[derive(Debug)]
pub enum Ballot {
    Propose(Reconfig),
    Merge(Vec<Rc<Vote>>),
    SuperMajority(Vec<Rc<Vote>>),
}

/// A signed ballot for a generation. The signature covers the ballot and the
/// generation.
#[derive(Debug)]
pub struct Vote {
    pub gen: Generation,
    pub ballot: Ballot,
    pub voter: Actor,
    pub sig: Sig,
}

/// A vote addressed to one actor.
#[derive(Debug)]
pub struct VoteMsg {
    pub vote: Rc<Vote>,
    pub dest: Actor,
}

/// The encoding of a reconfig: a tag, then the actor.
pub open spec fn reconfig_bytes(r: Reconfig) -> Seq<u8> {
    match r {
        Reconfig::Join(a) => seq![0u8] + actor_bytes(a),
        Reconfig::Leave(a) => seq![1u8] + actor_bytes(a),
    }
}

/// The encoding of a ballot: a tag, then the reconfig or the list of votes.
pub open spec fn ballot_bytes(b: Ballot) -> Seq<u8>
    decreases b,
{
    match b {
        Ballot::Propose(r) => seq![0u8] + reconfig_bytes(r),
        Ballot::Merge(vs) => seq![1u8] + le8(vs@.len() as u64) + votes_bytes(vs@),
        Ballot::SuperMajority(vs) => seq![2u8] + le8(vs@.len() as u64) + votes_bytes(vs@),
    }
}

/// The concatenated encodings of a list of votes.
pub open spec fn votes_bytes(vs: Seq<Rc<Vote>>) -> Seq<u8>
    decreases vs,
{
    if vs.len() == 0 {
        seq![]
    } else {
        votes_bytes(vs.drop_last()) + vote_bytes(*vs.last())
    }
}

/// The encoding of a vote: generation, ballot, voter, signature.
pub open spec fn vote_bytes(v: Vote) -> Seq<u8>
    decreases v,
{
    le8(v.gen) + ballot_bytes(v.ballot) + actor_bytes(v.voter) + sig_bytes(v.sig)
}

/// What a vote's signature covers: the ballot, then the generation.
pub open spec fn signed_bytes(b: Ballot, gen: Generation) -> Seq<u8> {
    ballot_bytes(b) + le8(gen)
}

/// Appends the encoding of `r`.
pub fn push_reconfig(out: &mut Vec<u8>, r: &Reconfig)
    ensures
        final(out)@ == old(out)@ + reconfig_bytes(*r),
{
    let (tag, a) = match r {
        Reconfig::Join(a) => (0u8, a),
        Reconfig::Leave(a) => (1u8, a),
    };
    out.push(tag);
    let k = a.key_bytes();
    push_all(out, &k);
    assert(final(out)@ =~= old(out)@ + reconfig_bytes(*r));
}

/// Appends the encoding of `b`.
pub fn push_ballot(out: &mut Vec<u8>, b: &Ballot)
    ensures
        final(out)@ == old(out)@ + ballot_bytes(*b),
    decreases b,
{
    match b {
        Ballot::Propose(r) => {
            out.push(0u8);
            push_reconfig(out, r);
        },
        Ballot::Merge(vs) => {
            out.push(1u8);
            push_u64(out, vs.len() as u64);
            push_votes(out, vs);
        },
        Ballot::SuperMajority(vs) => {
            out.push(2u8);
            push_u64(out, vs.len() as u64);
            push_votes(out, vs);
        },
    }
    assert(final(out)@ =~= old(out)@ + ballot_bytes(*b));
}

/// Appends the encodings of `vs`, one after the other.
pub fn push_votes(out: &mut Vec<u8>, vs: &Vec<Rc<Vote>>)
    ensures
        final(out)@ == old(out)@ + votes_bytes(vs@),
    decreases vs,
{
    let mut i: usize = 0;
    while i < vs.len()
        invariant
            0 <= i <= vs@.len(),
            out@ == old(out)@ + votes_bytes(vs@.subrange(0, i as int)),
        decreases vs@.len() - i,
    {
        proof {
            assert(decreases_to!(vs => vs@[i as int]));
        }
        push_vote(out, &vs[i]);
        proof {
            let s = vs@.subrange(0, i + 1);
            assert(s.drop_last() =~= vs@.subrange(0, i as int));
            assert(s.last() == vs@[i as int]);
        }
        i = i + 1;
    }
    assert(vs@.subrange(0, vs@.len() as int) =~= vs@);
}

/// Appends the encoding of `v`.
pub fn push_vote(out: &mut Vec<u8>, v: &Vote)
    ensures
        final(out)@ == old(out)@ + vote_bytes(*v),
    decreases v,
{
    push_u64(out, v.gen);
    push_ballot(out, &v.ballot);
    let k = v.voter.key_bytes();
    push_all(out, &k);
    let s = v.sig.to_bytes();
    push_all(out, &s);
    assert(final(out)@ =~= old(out)@ + vote_bytes(*v));
}

impl Vote {
    /// The canonical encoding of this vote.
    pub fn to_bytes(&self) -> (r: Vec<u8>)
        ensures
            r@ == vote_bytes(*self),
    {
        let mut r: Vec<u8> = Vec::new();
        push_vote(&mut r, self);
        assert(r@ =~= vote_bytes(*self));
        r
    }
}

/// The bytes a voter signs for `ballot` at `gen`.
pub fn signable_bytes(ballot: &Ballot, gen: Generation) -> (r: Vec<u8>)
    ensures
        r@ == signed_bytes(*ballot, gen),
{
    let mut r: Vec<u8> = Vec::new();
    push_ballot(&mut r, ballot);
    push_u64(&mut r, gen);
    assert(r@ =~= signed_bytes(*ballot, gen));
    r
}


/// Whether `a` is `b` or carries `b` somewhere inside its ballots.
/// Votes are compared by their encodings.
pub open spec fn supersedes(a: Vote, b: Vote) -> bool
    decreases a,
{
    vote_bytes(a) == vote_bytes(b) || match a.ballot {
        Ballot::Propose(_) => false,
        Ballot::Merge(vs) => exists|i: int| 0 <= i < vs@.len() && supersedes(*vs@[i], b),
        Ballot::SuperMajority(vs) => exists|i: int| 0 <= i < vs@.len() && supersedes(*vs@[i], b),
    }
}

/// A vote followed by every vote nested in it, depth first.
pub open spec fn unpack(v: Rc<Vote>) -> Seq<Rc<Vote>>
    decreases v,
{
    seq![v] + match v.ballot {
        Ballot::Propose(_) => Seq::empty(),
        Ballot::Merge(vs) => unpack_all(vs@),
        Ballot::SuperMajority(vs) => unpack_all(vs@),
    }
}

/// Each vote of `vs` followed by the votes nested in it.
pub open spec fn unpack_all(vs: Seq<Rc<Vote>>) -> Seq<Rc<Vote>>
    decreases vs,
{
    if vs.len() == 0 {
        Seq::empty()
    } else {
        unpack_all(vs.drop_last()) + unpack(vs.last())
    }
}

/// The (voter, reconfig) proposals that a vote carries.
pub open spec fn proposals(v: Vote) -> Seq<(Actor, Reconfig)>
    decreases v,
{
    match v.ballot {
        Ballot::Propose(r) => seq![(v.voter, r)],
        Ballot::Merge(vs) => proposals_all(vs@),
        Ballot::SuperMajority(vs) => proposals_all(vs@),
    }
}

/// The proposals carried by the votes of `vs`.
pub open spec fn proposals_all(vs: Seq<Rc<Vote>>) -> Seq<(Actor, Reconfig)>
    decreases vs,
{
    if vs.len() == 0 {
        Seq::empty()
    } else {
        proposals_all(vs.drop_last()) + proposals(*vs.last())
    }
}

/// The reconfigs a vote advocates.
pub open spec fn reconfig_set(v: Vote) -> Set<Reconfig> {
    Set::new(|r: Reconfig| exists|i: int| 0 <= i < proposals(v).len() && proposals(v)[i].1 == r)
}

/// The vote carries a `SuperMajority` ballot.
pub open spec fn is_super_majority_ballot(v: Vote) -> bool {
    v.ballot is SuperMajority
}

/// Whether some other vote of `vs` supersedes `v`.
pub open spec fn superseded_in(vs: Seq<Rc<Vote>>, v: Rc<Vote>) -> bool {
    exists|j: int|
        0 <= j < vs.len() && vote_bytes(*vs[j]) != vote_bytes(*v) && supersedes(*vs[j], *v)
}

/// `vs` without the votes that another vote of `vs` supersedes.
pub open spec fn simplified(vs: Seq<Rc<Vote>>) -> Seq<Rc<Vote>> {
    vs.filter(|v: Rc<Vote>| !superseded_in(vs, v))
}

impl Vote {
    /// Whether this vote is `other` (whose encoding is `other_bytes`) or
    /// carries it.
    pub fn supersedes(&self, other: &Vote, other_bytes: &Vec<u8>) -> (r: bool)
        requires
            other_bytes@ == vote_bytes(*other),
        ensures
            r == supersedes(*self, *other),
        decreases self,
    {
        let mine = self.to_bytes();
        if crate::codec::bytes_equal(&mine, other_bytes) {
            return true;
        }
        match &self.ballot {
            Ballot::Propose(_) => false,
            Ballot::Merge(vs) => any_supersedes(vs, other, other_bytes),
            Ballot::SuperMajority(vs) => any_supersedes(vs, other, other_bytes),
        }
    }

    /// Whether this vote carries a `SuperMajority` ballot.
    pub fn is_super_majority_ballot(&self) -> (r: bool)
        ensures
            r == is_super_majority_ballot(*self),
    {
        match &self.ballot {
            Ballot::SuperMajority(_) => true,
            _ => false,
        }
    }

    /// The (voter, reconfig) proposals carried by this vote.
    pub fn reconfigs(&self) -> (r: Vec<(Actor, Reconfig)>)
        ensures
            r@ == proposals(*self),
        decreases self,
    {
        match &self.ballot {
            Ballot::Propose(rc) => {
                let mut r: Vec<(Actor, Reconfig)> = Vec::new();
                r.push((self.voter, *rc));
                assert(r@ =~= proposals(*self));
                r
            },
            Ballot::Merge(vs) => reconfigs_all(vs),
            Ballot::SuperMajority(vs) => reconfigs_all(vs),
        }
    }
}

fn any_supersedes(vs: &Vec<Rc<Vote>>, other: &Vote, other_bytes: &Vec<u8>) -> (r: bool)
    requires
        other_bytes@ == vote_bytes(*other),
    ensures
        r == exists|i: int| 0 <= i < vs@.len() && supersedes(*vs@[i], *other),
    decreases vs,
{
    let mut i: usize = 0;
    while i < vs.len()
        invariant
            0 <= i <= vs@.len(),
            other_bytes@ == vote_bytes(*other),
            forall|j: int| 0 <= j < i ==> !supersedes(*vs@[j], *other),
        decreases vs@.len() - i,
    {
        proof {
            assert(decreases_to!(vs => vs@[i as int]));
        }
        if vs[i].supersedes(other, other_bytes) {
            return true;
        }
        i = i + 1;
    }
    false
}

fn reconfigs_all(vs: &Vec<Rc<Vote>>) -> (r: Vec<(Actor, Reconfig)>)
    ensures
        r@ == proposals_all(vs@),
    decreases vs,
{
    let mut r: Vec<(Actor, Reconfig)> = Vec::new();
    let mut i: usize = 0;
    while i < vs.len()
        invariant
            0 <= i <= vs@.len(),
            r@ == proposals_all(vs@.subrange(0, i as int)),
        decreases vs@.len() - i,
    {
        proof {
            assert(decreases_to!(vs => vs@[i as int]));
        }
        let mut more = vs[i].reconfigs();
        r.append(&mut more);
        proof {
            let s = vs@.subrange(0, i + 1);
            assert(s.drop_last() =~= vs@.subrange(0, i as int));
            assert(s.last() == vs@[i as int]);
        }
        i = i + 1;
    }
    assert(vs@.subrange(0, vs@.len() as int) =~= vs@);
    r
}

/// A vote followed by every vote nested in it.
pub fn unpack_votes(v: &Rc<Vote>) -> (r: Vec<Rc<Vote>>)
    ensures
        r@ == unpack(*v),
    decreases v,
{
    let mut r: Vec<Rc<Vote>> = Vec::new();
    r.push(v.clone());
    match &v.ballot {
        Ballot::Propose(_) => {},
        Ballot::Merge(vs) => {
            let mut more = unpack_list(vs);
            r.append(&mut more);
        },
        Ballot::SuperMajority(vs) => {
            let mut more = unpack_list(vs);
            r.append(&mut more);
        },
    }
    assert(r@ =~= unpack(*v));
    r
}

/// Every vote of `vs` followed by the votes nested in it.
pub fn unpack_list(vs: &Vec<Rc<Vote>>) -> (r: Vec<Rc<Vote>>)
    ensures
        r@ == unpack_all(vs@),
    decreases vs,
{
    let mut r: Vec<Rc<Vote>> = Vec::new();
    let mut i: usize = 0;
    while i < vs.len()
        invariant
            0 <= i <= vs@.len(),
            r@ == unpack_all(vs@.subrange(0, i as int)),
        decreases vs@.len() - i,
    {
        proof {
            assert(decreases_to!(vs => vs@[i as int]));
        }
        let mut more = unpack_votes(&vs[i]);
        r.append(&mut more);
        proof {
            let s = vs@.subrange(0, i + 1);
            assert(s.drop_last() =~= vs@.subrange(0, i as int));
            assert(s.last() == vs@[i as int]);
        }
        i = i + 1;
    }
    assert(vs@.subrange(0, vs@.len() as int) =~= vs@);
    r
}

impl Ballot {
    /// The same ballot with every vote that another of its votes supersedes
    /// dropped; a proposal is already as simple as it gets.
    pub fn simplify(&self) -> (r: Ballot)
        ensures
            self is Propose ==> r == *self,
            self is Merge ==> r is Merge && r->Merge_0@ == simplified(self->Merge_0@),
            self is SuperMajority ==> r is SuperMajority && r->SuperMajority_0@ == simplified(self->SuperMajority_0@),
    {
        match self {
            Ballot::Propose(rc) => Ballot::Propose(*rc),
            Ballot::Merge(vs) => Ballot::Merge(simplify_votes(vs)),
            Ballot::SuperMajority(vs) => Ballot::SuperMajority(simplify_votes(vs)),
        }
    }
}

/// Drops from `votes` each vote that another vote of `votes` supersedes.
pub fn simplify_votes(votes: &Vec<Rc<Vote>>) -> (r: Vec<Rc<Vote>>)
    ensures
        r@ == simplified(votes@),
{
    let mut r: Vec<Rc<Vote>> = Vec::new();
    let mut i: usize = 0;
    while i < votes.len()
        invariant
            0 <= i <= votes@.len(),
            r@ == votes@.subrange(0, i as int).filter(|v: Rc<Vote>| !superseded_in(votes@, v)),
        decreases votes@.len() - i,
    {
        let v = &votes[i];
        let v_bytes = v.to_bytes();
        let mut superseded = false;
        let mut j: usize = 0;
        while j < votes.len()
            invariant
                0 <= i < votes@.len(),
                0 <= j <= votes@.len(),
                v == votes@[i as int],
                v_bytes@ == vote_bytes(**v),
                superseded == exists|k: int|
                    0 <= k < j && vote_bytes(*votes@[k]) != vote_bytes(**v) && supersedes(
                        *votes@[k],
                        **v,
                    ),
            decreases votes@.len() - j,
        {
            let o_bytes = votes[j].to_bytes();
            if !crate::codec::bytes_equal(&o_bytes, &v_bytes) && votes[j].supersedes(v, &v_bytes) {
                superseded = true;
            }
            j = j + 1;
        }
        if !superseded {
            r.push(v.clone());
        }
        proof {
            let pred = |v: Rc<Vote>| !superseded_in(votes@, v);
            let s = votes@.subrange(0, i + 1);
            assert(s.drop_last() =~= votes@.subrange(0, i as int));
            reveal(Seq::filter);
            assert(s.filter(pred) == if pred(s.last()) { s.drop_last().filter(pred).push(s.last()) } else { s.drop_last().filter(pred) });
        }
        i = i + 1;
    }
    assert(votes@.subrange(0, votes@.len() as int) =~= votes@);
    r
}


/// `vs` with each vote kept only at its first occurrence (by encoding).
pub open spec fn distinct_votes(vs: Seq<Rc<Vote>>) -> Seq<Rc<Vote>>
    decreases vs.len(),
{
    if vs.len() == 0 {
        vs
    } else if exists|k: int| 0 <= k < vs.len() - 1 && vote_bytes(*vs[k]) == vote_bytes(*vs.last()) {
        distinct_votes(vs.drop_last())
    } else {
        distinct_votes(vs.drop_last()).push(vs.last())
    }
}

/// Removes repeated votes, keeping the first of each.
pub fn dedup_votes(vs: &Vec<Rc<Vote>>) -> (r: Vec<Rc<Vote>>)
    ensures
        r@ == distinct_votes(vs@),
{
    let mut r: Vec<Rc<Vote>> = Vec::new();
    let mut seen: Vec<Vec<u8>> = Vec::new();
    let mut i: usize = 0;
    while i < vs.len()
        invariant
            0 <= i <= vs@.len(),
            seen@.len() == i,
            forall|k: int| 0 <= k < i ==> (#[trigger] seen@[k])@ == vote_bytes(*vs@[k]),
            r@ == distinct_votes(vs@.subrange(0, i as int)),
        decreases vs@.len() - i,
    {
        let b = vs[i].to_bytes();
        let mut dup = false;
        let mut k: usize = 0;
        while k < i
            invariant
                0 <= k <= i,
                i < vs@.len(),
                seen@.len() == i,
                forall|k: int| 0 <= k < i ==> (#[trigger] seen@[k])@ == vote_bytes(*vs@[k]),
                b@ == vote_bytes(*vs@[i as int]),
                dup == exists|j: int| 0 <= j < k && vote_bytes(*vs@[j]) == vote_bytes(*vs@[i as int]),
            decreases i - k,
        {
            if crate::codec::bytes_equal(&seen[k], &b) {
                dup = true;
            }
            k = k + 1;
        }
        if !dup {
            r.push(vs[i].clone());
        }
        seen.push(b);
        proof {
            let s = vs@.subrange(0, i + 1);
            assert(s.drop_last() =~= vs@.subrange(0, i as int));
            assert(s.last() == vs@[i as int]);
            assert(dup == exists|j: int| 0 <= j < s.len() - 1 && vote_bytes(*s[j]) == vote_bytes(*s.last())) by {
                if dup {
                    let j = choose|j: int| 0 <= j < i && vote_bytes(*vs@[j]) == vote_bytes(*vs@[i as int]);
                    assert(s[j] == vs@[j]);
                }
            }
        }
        i = i + 1;
    }
    assert(vs@.subrange(0, vs@.len() as int) =~= vs@);
    r
}

} // verus!
