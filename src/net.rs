//! A network of processes held in memory, for driving several processes
//! of one data type against each other.

use crate::actor::{Actor, SigningActor};
use crate::brb_data_type::BRBDataType;
use crate::deterministic_brb::{packet_signed, DeterministicBRB, Signature};
use crate::membership::contains_actor;
use crate::packet::{same_msg, Msg, Packet};
use vstd::prelude::*;

verus! {

/// A data type that a simulated network can run.
pub trait BRBDT: BRBDataType {}

impl<T: BRBDataType> BRBDT for T {}

/// Processes that exchange packets in memory.
pub struct Net<DT: BRBDT> {
    /// The processes of the network.
    pub procs: Vec<DeterministicBRB<DT>>,
    /// How many packets were delivered (saturating).
    pub n_packets: u64,
    /// How many packets each actor refused (saturating).
    pub invalid_packets: Vec<(Actor, u64)>,
}

/// Two delivery logs hold the same messages with the same proofs, in order.
pub open spec fn same_log(a: Seq<(Msg, Vec<Signature>)>, b: Seq<(Msg, Vec<Signature>)>) -> bool {
    &&& a.len() == b.len()
    &&& forall|k: int| 0 <= k < a.len() ==> same_msg((#[trigger] a[k]).0, b[k].0) && a[k].1@ == b[k].1@
}

/// The refusals counted for `a`.
pub open spec fn invalid_count(v: Seq<(Actor, u64)>, a: Actor) -> u64 {
    if exists|i: int| 0 <= i < v.len() && v[i].0 == a {
        v[choose|i: int| 0 <= i < v.len() && v[i].0 == a].1
    } else {
        0
    }
}

/// The sum of the counts in `v`.
pub open spec fn total_invalid(v: Seq<(Actor, u64)>) -> int
    decreases v.len(),
{
    if v.len() == 0 {
        0
    } else {
        total_invalid(v.drop_last()) + v.last().1
    }
}

impl<DT: BRBDT> Net<DT> {
    /// Every process is well formed, and each actor has at most one count.
    pub open spec fn wf(&self) -> bool {
        &&& forall|i: int| 0 <= i < self.procs@.len() ==> (#[trigger] self.procs@[i]).wf()
        &&& forall|i: int, j: int|
            0 <= i < j < self.invalid_packets@.len() ==> (#[trigger] self.invalid_packets@[i]).0
                != (#[trigger] self.invalid_packets@[j]).0
    }

    /// `j` is the first process whose actor is `a`.
    pub open spec fn is_first_proc(&self, a: Actor, j: int) -> bool {
        &&& 0 <= j < self.procs@.len()
        &&& self.procs@[j].me() == a
        &&& forall|k: int| 0 <= k < j ==> (#[trigger] self.procs@[k]).me() != a
    }

    /// The peers of process `i` that run here and count it as a peer too.
    pub open spec fn mutual_peers(&self, i: int) -> Set<Actor> {
        let p = self.procs@[i];
        Set::new(
            |q: Actor|
                p.membership.members_at(p.membership.gen as nat).contains(q) && exists|j: int|
                    #[trigger] self.is_first_proc(q, j) && self.procs@[j].membership.members_at(
                        self.procs@[j].membership.gen as nat,
                    ).contains(p.me()),
        )
    }

    /// `m` lists without repetition the mutual peers of some process, and
    /// no process has more of them (none when there are no processes).
    pub open spec fn is_largest_mutual(&self, m: Seq<Actor>) -> bool {
        &&& m.no_duplicates()
        &&& self.procs@.len() == 0 ==> m.len() == 0
        &&& self.procs@.len() > 0 ==> exists|i: int|
            0 <= i < self.procs@.len() && m.to_set() == #[trigger] self.mutual_peers(i)
        &&& forall|k: int|
            0 <= k < self.procs@.len() ==> (#[trigger] self.mutual_peers(k)).finite() && self.mutual_peers(k).len() <= m.len()
    }

    /// Two processes delivered the same messages from every source.
    pub open spec fn histories_agree(p: DeterministicBRB<DT>, q: DeterministicBRB<DT>) -> bool {
        forall|a: Actor| same_log(#[trigger] p.source_log(a), q.source_log(a))
    }

    /// The first process of every actor of `m` delivered what the first
    /// process of `m[0]` delivered.
    pub open spec fn agree_on(&self, m: Seq<Actor>) -> bool {
        forall|x: int, jx: int, j0: int|
            0 <= x < m.len() && #[trigger] self.is_first_proc(m[x], jx) && #[trigger] self.is_first_proc(m[0], j0)
                ==> Self::histories_agree(self.procs@[j0], self.procs@[jx])
    }

    /// An empty network.
    pub fn new() -> (r: Self)
        ensures
            r.wf(),
            r.procs@.len() == 0,
            r.n_packets == 0,
            r.invalid_packets@.len() == 0,
    {
        Net { procs: Vec::new(), n_packets: 0, invalid_packets: Vec::new() }
    }

    /// The actor of each process, in order.
    pub fn actors(&self) -> (r: Vec<Actor>)
        ensures
            r@.len() == self.procs@.len(),
            forall|i: int| 0 <= i < r@.len() ==> r@[i] == (#[trigger] self.procs@[i]).me(),
    {
        let mut r: Vec<Actor> = Vec::new();
        let mut i: usize = 0;
        while i < self.procs.len()
            invariant
                0 <= i <= self.procs@.len(),
                r@.len() == i,
                forall|k: int| 0 <= k < i ==> r@[k] == (#[trigger] self.procs@[k]).me(),
            decreases self.procs@.len() - i,
        {
            r.push(self.procs[i].actor());
            i = i + 1;
        }
        r
    }

    /// Adds a process for `id`; it does not ask to join anyone.
    pub fn initialize_proc(&mut self, id: SigningActor) -> (r: Actor)
        requires
            old(self).wf(),
        ensures
            final(self).wf(),
            r == id.view_actor(),
            final(self).procs@.len() == old(self).procs@.len() + 1,
            forall|i: int| 0 <= i < old(self).procs@.len() ==> final(self).procs@[i] == old(self).procs@[i],
            final(self).procs@.last().me() == r,
            final(self).procs@.last().membership.gen == 0,
            final(self).invalid_packets == old(self).invalid_packets,
    {
        let p = DeterministicBRB::new(id);
        let actor = p.actor();
        self.procs.push(p);
        actor
    }

    /// The index of the first process whose actor is `actor`.
    pub fn proc_index(&self, actor: &Actor) -> (r: Option<usize>)
        ensures
            r matches Some(j) ==> self.is_first_proc(*actor, j as int),
            r is None ==> forall|k: int| 0 <= k < self.procs@.len() ==> (#[trigger] self.procs@[k]).me() != *actor,
    {
        let mut i: usize = 0;
        while i < self.procs.len()
            invariant
                0 <= i <= self.procs@.len(),
                forall|k: int| 0 <= k < i ==> (#[trigger] self.procs@[k]).me() != *actor,
            decreases self.procs@.len() - i,
        {
            if self.procs[i].actor() == *actor {
                return Some(i);
            }
            i = i + 1;
        }
        None
    }

    /// Adds one refusal to `actor`'s count.
    fn count_invalid(&mut self, actor: Actor)
        requires
            old(self).wf(),
        ensures
            final(self).wf(),
            final(self).procs == old(self).procs,
            final(self).n_packets == old(self).n_packets,
            invalid_count(final(self).invalid_packets@, actor) == if invalid_count(old(self).invalid_packets@, actor)
                < u64::MAX {
                (invalid_count(old(self).invalid_packets@, actor) + 1) as u64
            } else {
                invalid_count(old(self).invalid_packets@, actor)
            },
    {
        let ghost o = self.invalid_packets@;
        let mut i: usize = 0;
        while i < self.invalid_packets.len() && self.invalid_packets[i].0 != actor
            invariant
                0 <= i <= self.invalid_packets@.len(),
                self.invalid_packets@ == o,
                forall|k: int| 0 <= k < i ==> self.invalid_packets@[k].0 != actor,
            decreases self.invalid_packets@.len() - i,
        {
            i = i + 1;
        }
        if i < self.invalid_packets.len() {
            let c = self.invalid_packets[i].1;
            let n = if c < u64::MAX { c + 1 } else { c };
            self.invalid_packets.set(i, (actor, n));
            proof {
                let k = choose|k: int| 0 <= k < o.len() && o[k].0 == actor;
                if k > i {
                    assert(o[i as int].0 != o[k].0);
                }
                assert(self.invalid_packets@[i as int].0 == actor);
                let k2 = choose|k: int| 0 <= k < self.invalid_packets@.len() && self.invalid_packets@[k].0 == actor;
                if k2 != i {
                    assert(self.invalid_packets@[k2] == o[k2]);
                    if k2 > i {
                        assert(o[i as int].0 != o[k2].0);
                    }
                }
                assert forall|a: int, b: int| 0 <= a < b < self.invalid_packets@.len() implies (#[trigger] self.invalid_packets@[a]).0
                    != (#[trigger] self.invalid_packets@[b]).0 by {
                    assert(self.invalid_packets@[a].0 == o[a].0);
                    assert(self.invalid_packets@[b].0 == o[b].0);
                }
            }
        } else {
            self.invalid_packets.push((actor, 1));
            proof {
                let v = self.invalid_packets@;
                assert(v[v.len() - 1].0 == actor);
                let k2 = choose|k: int| 0 <= k < v.len() && v[k].0 == actor;
                if k2 < v.len() - 1 {
                    assert(o[k2].0 == actor);
                }
            }
        }
    }

    /// Delivers `packet` to its destination and returns what that process
    /// sends in reply. A packet for an actor with no process here is
    /// dropped; a refused packet is counted against its destination.
    pub fn deliver_packet(&mut self, packet: Packet) -> (r: Vec<Packet>)
        requires
            old(self).wf(),
        ensures
            final(self).wf(),
            final(self).procs@.len() == old(self).procs@.len(),
            final(self).n_packets == if old(self).n_packets < u64::MAX {
                (old(self).n_packets + 1) as u64
            } else {
                old(self).n_packets
            },
            (forall|k: int| 0 <= k < old(self).procs@.len() ==> (#[trigger] old(self).procs@[k]).me() != packet.dest)
                ==> r@.len() == 0 && final(self).procs == old(self).procs,
            forall|k: int|
                0 <= k < old(self).procs@.len() && (#[trigger] old(self).procs@[k]).me() != packet.dest
                    ==> final(self).procs@[k] == old(self).procs@[k],
            forall|k: int|
                0 <= k < old(self).procs@.len() ==> (#[trigger] final(self).procs@[k]).me() == old(self).procs@[k].me(),
            (exists|j: int| old(self).is_first_proc(packet.dest, j)) && !packet_signed(packet) ==> r@.len() == 0
                && invalid_count(final(self).invalid_packets@, packet.dest) == if invalid_count(
                old(self).invalid_packets@,
                packet.dest,
            ) < u64::MAX {
                (invalid_count(old(self).invalid_packets@, packet.dest) + 1) as u64
            } else {
                invalid_count(old(self).invalid_packets@, packet.dest)
            },
    {
        if self.n_packets < u64::MAX {
            self.n_packets = self.n_packets + 1;
        }
        let dest = packet.dest;
        match self.proc_index(&dest) {
            None => Vec::new(),
            Some(i) => {
                let ghost o = self.procs@;
                let mut p = self.procs.remove(i);
                let res = p.handle_packet(packet);
                self.procs.insert(i, p);
                proof {
                    assert forall|k: int| 0 <= k < self.procs@.len() && k != i implies #[trigger] self.procs@[k] == o[k] by {
                    }
                    assert forall|k: int| 0 <= k < self.procs@.len() implies (#[trigger] self.procs@[k]).wf() by {
                        if k != i {
                            assert(self.procs@[k] == o[k]);
                        }
                    }
                }
                match res {
                    Ok(out) => out,
                    Err(_) => {
                        self.count_invalid(dest);
                        Vec::new()
                    },
                }
            },
        }
    }

    /// The mutual peers of process `i`.
    fn mutual_list(&self, i: usize) -> (r: Vec<Actor>)
        requires
            self.wf(),
            i < self.procs@.len(),
        ensures
            r@.no_duplicates(),
            r@.to_set() == self.mutual_peers(i as int),
    {
        let p = &self.procs[i];
        let me = p.actor();
        let peers = match p.peers() {
            Ok(m) => m,
            Err(_) => Vec::new(),
        };
        let mut r: Vec<Actor> = Vec::new();
        let mut k: usize = 0;
        while k < peers.len()
            invariant
                self.wf(),
                i < self.procs@.len(),
                *p == self.procs@[i as int],
                me == p.me(),
                0 <= k <= peers@.len(),
                peers@.no_duplicates(),
                peers@.to_set() == p.membership.members_at(p.membership.gen as nat),
                r@.no_duplicates(),
                forall|q: Actor| #[trigger] r@.contains(q) <==> (exists|x: int| 0 <= x < k && peers@[x] == q) && exists|j: int|
                    #[trigger] self.is_first_proc(q, j) && self.procs@[j].membership.members_at(
                        self.procs@[j].membership.gen as nat,
                    ).contains(me),
            decreases peers@.len() - k,
        {
            let q = peers[k];
            match self.proc_index(&q) {
                Some(j) => {
                    let theirs = match self.procs[j].peers() {
                        Ok(m) => m,
                        Err(_) => Vec::new(),
                    };
                    if contains_actor(&theirs, me) {
                        proof {
                            crate::membership::lemma_push_contains(r@, q);
                            if r@.contains(q) {
                                let x = choose|x: int| 0 <= x < k && peers@[x] == q;
                                assert(peers@[x] == peers@[k as int]);
                            }
                        }
                        r.push(q);
                    } else {
                        proof {
                            assert forall|j2: int| #[trigger] self.is_first_proc(q, j2) implies !self.procs@[j2].membership.members_at(
                                self.procs@[j2].membership.gen as nat,
                            ).contains(me) by {
                                if j2 < j {
                                    assert(self.procs@[j2].me() != q);
                                } else if j2 > j {
                                    assert(self.procs@[j as int].me() != q);
                                }
                            }
                        }
                    }
                },
                None => {},
            }
            k = k + 1;
        }
        proof {
            let target = self.mutual_peers(i as int);
            assert forall|q: Actor| r@.to_set().contains(q) <==> target.contains(q) by {
                if r@.contains(q) {
                    let x = choose|x: int| 0 <= x < peers@.len() && peers@[x] == q;
                    assert(peers@.to_set().contains(q));
                }
                if target.contains(q) {
                    assert(peers@.to_set().contains(q));
                    let x = choose|x: int| 0 <= x < peers@.len() && peers@[x] == q;
                }
            }
            assert(r@.to_set() =~= target);
        }
        r
    }

    /// The largest set of processes that see each other as peers: the
    /// mutual peers of the process that has the most (the last such).
    pub fn members(&self) -> (r: Vec<Actor>)
        requires
            self.wf(),
        ensures
            self.is_largest_mutual(r@),
    {
        let mut best: Vec<Actor> = Vec::new();
        let mut i: usize = 0;
        while i < self.procs.len()
            invariant
                self.wf(),
                0 <= i <= self.procs@.len(),
                best@.no_duplicates(),
                i == 0 ==> best@.len() == 0,
                i > 0 ==> exists|x: int| 0 <= x < i && best@.to_set() == #[trigger] self.mutual_peers(x),
                forall|k: int| 0 <= k < i ==> (#[trigger] self.mutual_peers(k)).finite() && self.mutual_peers(k).len() <= best@.len(),
            decreases self.procs@.len() - i,
        {
            let m = self.mutual_list(i);
            proof {
                m@.unique_seq_to_set();
            }
            if m.len() >= best.len() {
                best = m;
            }
            i = i + 1;
        }
        best
    }

    /// Whether every member's process delivered the same messages, with the
    /// same proofs, as the first member's.
    pub fn members_are_in_agreement(&self) -> (r: bool)
        requires
            self.wf(),
        ensures
            exists|m: Seq<Actor>| self.is_largest_mutual(m) && r == self.agree_on(m),
    {
        let m = self.members();
        if m.len() == 0 {
            assert(self.agree_on(m@));
            return true;
        }
        let j0 = match self.proc_index(&m[0]) {
            Some(j) => j,
            None => {
                proof {
                    assert(forall|j: int| !self.is_first_proc(m@[0], j));
                }
                assert(self.agree_on(m@));
                return true;
            },
        };
        let mut x: usize = 0;
        while x < m.len()
            invariant
                self.wf(),
                0 <= x <= m@.len(),
                m@.len() > 0,
                self.is_largest_mutual(m@),
                self.is_first_proc(m@[0], j0 as int),
                forall|y: int, jy: int|
                    0 <= y < x && #[trigger] self.is_first_proc(m@[y], jy) ==> Self::histories_agree(
                        self.procs@[j0 as int],
                        self.procs@[jy],
                    ),
            decreases m@.len() - x,
        {
            match self.proc_index(&m[x]) {
                Some(jx) => {
                    let same = histories_match(&self.procs[j0], &self.procs[jx]);
                    proof {
                        assert forall|jy: int| #[trigger] self.is_first_proc(m@[x as int], jy) implies jy == jx by {
                            if jy < jx {
                                assert(self.procs@[jy].me() != m@[x as int]);
                            } else if jy > jx {
                                assert(self.procs@[jx as int].me() != m@[x as int]);
                            }
                        }
                    }
                    if !same {
                        proof {
                            assert(!Self::histories_agree(self.procs@[j0 as int], self.procs@[jx as int]));
                            assert(!self.agree_on(m@)) by {
                                assert(self.is_first_proc(m@[x as int], jx as int));
                                assert(self.is_first_proc(m@[0], j0 as int));
                            }
                        }
                        return false;
                    }
                },
                None => {},
            }
            x = x + 1;
        }
        proof {
            assert forall|y: int, jy: int, jz: int|
                0 <= y < m@.len() && #[trigger] self.is_first_proc(m@[y], jy) && #[trigger] self.is_first_proc(m@[0], jz)
                    implies Self::histories_agree(self.procs@[jz], self.procs@[jy]) by {
                if jz < j0 {
                    assert(self.procs@[jz].me() != m@[0]);
                } else if jz > j0 {
                    assert(self.procs@[j0 as int].me() != m@[0]);
                }
            }
        }
        true
    }

    /// The refusals counted over all actors, saturating at `u64::MAX`.
    pub fn count_invalid_packets(&self) -> (r: u64)
        ensures
            r == if total_invalid(self.invalid_packets@) < u64::MAX {
                total_invalid(self.invalid_packets@)
            } else {
                u64::MAX as int
            },
    {
        let mut sum: u128 = 0;
        let mut i: usize = 0;
        while i < self.invalid_packets.len()
            invariant
                0 <= i <= self.invalid_packets@.len(),
                sum == total_invalid(self.invalid_packets@.subrange(0, i as int)),
                sum <= i * (u64::MAX as int),
                i <= self.invalid_packets@.len(),
            decreases self.invalid_packets@.len() - i,
        {
            proof {
                let q = self.invalid_packets@.subrange(0, i + 1);
                assert(q.drop_last() =~= self.invalid_packets@.subrange(0, i as int));
                assert(i * (u64::MAX as int) + u64::MAX as int == (i + 1) * (u64::MAX as int)) by (nonlinear_arith);
                assert((i + 1) * (u64::MAX as int) <= usize::MAX as int * (u64::MAX as int)) by (nonlinear_arith)
                    requires i + 1 <= usize::MAX;
                assert(usize::MAX as int * (u64::MAX as int) < u128::MAX) by (nonlinear_arith);
            }
            sum = sum + self.invalid_packets[i].1 as u128;
            i = i + 1;
        }
        assert(self.invalid_packets@.subrange(0, self.invalid_packets@.len() as int) =~= self.invalid_packets@);
        if sum < u64::MAX as u128 {
            sum as u64
        } else {
            u64::MAX
        }
    }
}


/// Whether two delivery logs hold the same messages and proofs in order.
fn logs_match(a: &Vec<(Msg, Vec<Signature>)>, b: &Vec<(Msg, Vec<Signature>)>) -> (r: bool)
    ensures
        r == same_log(a@, b@),
{
    if a.len() != b.len() {
        return false;
    }
    let mut k: usize = 0;
    while k < a.len()
        invariant
            a@.len() == b@.len(),
            0 <= k <= a@.len(),
            forall|x: int| 0 <= x < k ==> same_msg((#[trigger] a@[x]).0, b@[x].0) && a@[x].1@ == b@[x].1@,
        decreases a@.len() - k,
    {
        if !a[k].0.same(&b[k].0) {
            return false;
        }
        if !signatures_match(&a[k].1, &b[k].1) {
            return false;
        }
        k = k + 1;
    }
    true
}

fn signatures_match(a: &Vec<Signature>, b: &Vec<Signature>) -> (r: bool)
    ensures
        r == (a@ == b@),
{
    if a.len() != b.len() {
        return false;
    }
    let mut k: usize = 0;
    while k < a.len()
        invariant
            a@.len() == b@.len(),
            0 <= k <= a@.len(),
            forall|x: int| 0 <= x < k ==> a@[x] == b@[x],
        decreases a@.len() - k,
    {
        if a[k].0 != b[k].0 || a[k].1 != b[k].1 {
            return false;
        }
        k = k + 1;
    }
    assert(a@ =~= b@);
    true
}

/// The delivery log of `a` in `p`, found by a scan.
fn log_of<DT: BRBDT>(p: &DeterministicBRB<DT>, a: Actor) -> (r: Option<usize>)
    requires
        p.wf(),
    ensures
        r matches Some(i) ==> i < p.history_from_source@.len() && p.history_from_source@[i as int].0 == a
            && p.source_log(a) == p.history_from_source@[i as int].1@,
        r is None ==> p.source_log(a).len() == 0,
{
    let mut i: usize = 0;
    while i < p.history_from_source.len()
        invariant
            p.wf(),
            0 <= i <= p.history_from_source@.len(),
            forall|k: int| 0 <= k < i ==> p.history_from_source@[k].0 != a,
        decreases p.history_from_source@.len() - i,
    {
        if p.history_from_source[i].0 == a {
            proof {
                crate::deterministic_brb::lemma_source_log(*p, a, i as int);
            }
            return Some(i);
        }
        i = i + 1;
    }
    None
}

/// Whether `p` and `q` delivered the same messages from every source.
fn histories_match<DT: BRBDT>(p: &DeterministicBRB<DT>, q: &DeterministicBRB<DT>) -> (r: bool)
    requires
        p.wf(),
        q.wf(),
    ensures
        r == Net::<DT>::histories_agree(*p, *q),
{
    let empty: Vec<(Msg, Vec<Signature>)> = Vec::new();
    let mut i: usize = 0;
    while i < p.history_from_source.len()
        invariant
            p.wf(),
            q.wf(),
            empty@.len() == 0,
            0 <= i <= p.history_from_source@.len(),
            forall|k: int| 0 <= k < i ==> same_log(p.source_log(#[trigger] p.history_from_source@[k].0), q.source_log(p.history_from_source@[k].0)),
        decreases p.history_from_source@.len() - i,
    {
        let a = p.history_from_source[i].0;
        proof {
            crate::deterministic_brb::lemma_source_log(*p, a, i as int);
        }
        let same = match log_of(q, a) {
            Some(j) => logs_match(&p.history_from_source[i].1, &q.history_from_source[j].1),
            None => logs_match(&p.history_from_source[i].1, &empty),
        };
        if !same {
            return false;
        }
        i = i + 1;
    }
    let mut j: usize = 0;
    while j < q.history_from_source.len()
        invariant
            p.wf(),
            q.wf(),
            empty@.len() == 0,
            0 <= j <= q.history_from_source@.len(),
            forall|k: int| 0 <= k < p.history_from_source@.len() ==> same_log(p.source_log(#[trigger] p.history_from_source@[k].0), q.source_log(p.history_from_source@[k].0)),
            forall|k: int| 0 <= k < j ==> same_log(p.source_log(#[trigger] q.history_from_source@[k].0), q.source_log(q.history_from_source@[k].0)),
        decreases q.history_from_source@.len() - j,
    {
        let a = q.history_from_source[j].0;
        proof {
            crate::deterministic_brb::lemma_source_log(*q, a, j as int);
        }
        match log_of(p, a) {
            Some(_) => {
                proof {
                    let k = choose|k: int| 0 <= k < p.history_from_source@.len() && p.history_from_source@[k].0 == a;
                    assert(same_log(p.source_log(p.history_from_source@[k].0), q.source_log(p.history_from_source@[k].0)));
                }
            },
            None => {
                if !logs_match(&empty, &q.history_from_source[j].1) {
                    return false;
                }
            },
        }
        j = j + 1;
    }
    proof {
        assert forall|a: Actor| same_log(#[trigger] p.source_log(a), q.source_log(a)) by {
            if exists|k: int| 0 <= k < p.history_from_source@.len() && p.history_from_source@[k].0 == a {
                let k = choose|k: int| 0 <= k < p.history_from_source@.len() && p.history_from_source@[k].0 == a;
                assert(same_log(p.source_log(p.history_from_source@[k].0), q.source_log(p.history_from_source@[k].0)));
            } else if exists|k: int| 0 <= k < q.history_from_source@.len() && q.history_from_source@[k].0 == a {
                let k = choose|k: int| 0 <= k < q.history_from_source@.len() && q.history_from_source@[k].0 == a;
                assert(same_log(p.source_log(q.history_from_source@[k].0), q.source_log(q.history_from_source@[k].0)));
            } else {
                assert(p.source_log(a).len() == 0);
                assert(q.source_log(a).len() == 0);
            }
        }
    }
    true
}

} // verus!
