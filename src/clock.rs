//! Version clocks, kept in a `crdts::VClock` keyed by the two halves of an
//! actor's key, and dots.

use crate::actor::{actor_lt, Actor};
use vstd::prelude::*;

verus! {

/// The key under which a clock files an actor.
pub type ActorKey = (u128, u128);

/// A version clock over actors.
pub type Clock = crdts::VClock<ActorKey>;

/// The key under which `a` is filed.
pub open spec fn key_of(a: Actor) -> ActorKey {
    (a.hi, a.lo)
}

/// A version marker for one actor: its `counter`-th message.
#[derive(Clone, Copy, Debug, PartialEq, Eq, Structural, Hash)]
pub struct Dot {
    pub actor: Actor,
    pub counter: u64,
}

/// crdts' version clock; what it holds is `clock_counters`.
#[verifier::external_type_specification]
#[verifier::external_body]
#[verifier::reject_recursive_types(A)]
pub struct ExVClock<A: Ord>(crdts::VClock<A>);

/// The counters a clock holds; actors it does not hold count 0.
pub uninterp spec fn clock_counters(c: crdts::VClock<ActorKey>) -> Map<ActorKey, u64>;

/// The counter of `a` in `c`.
pub open spec fn counter(c: Clock, a: Actor) -> u64 {
    if clock_counters(c).contains_key(key_of(a)) {
        clock_counters(c)[key_of(a)]
    } else {
        0
    }
}

/// `s` lists the entries of `m` in increasing key order.
pub open spec fn is_listing(s: Seq<(Actor, u64)>, m: Map<ActorKey, u64>) -> bool {
    &&& forall|i: int, j: int| 0 <= i < j < s.len() ==> actor_lt(#[trigger] s[i].0, #[trigger] s[j].0)
    &&& forall|i: int| 0 <= i < s.len() ==> m.contains_key(key_of(#[trigger] s[i].0)) && m[key_of(s[i].0)] == s[i].1
    &&& forall|k: ActorKey| m.contains_key(k) ==> exists|i: int| 0 <= i < s.len() && key_of(#[trigger] s[i].0) == k
}

/// The entries of a clock in increasing actor order.
pub open spec fn clock_listing(c: Clock) -> Seq<(Actor, u64)> {
    choose|s: Seq<(Actor, u64)>| is_listing(s, clock_counters(c))
}

/// Relies on `VClock::new`: a clock with no entries.
#[verifier::external_body]
pub fn clock_new() -> (r: Clock)
    ensures
        forall|k: ActorKey| !(#[trigger] clock_counters(r).contains_key(k)),
{
    crdts::VClock::new()
}

/// Relies on `VClock::get`: the stored counter, or 0 for an absent actor.
#[verifier::external_body]
pub fn clock_get(c: &Clock, a: Actor) -> (r: u64)
    ensures
        r == counter(*c, a),
{
    c.get(&(a.hi, a.lo))
}

/// Relies on `VClock::inc`: the dot after the actor's current counter.
#[verifier::external_body]
pub fn clock_inc(c: &Clock, a: Actor) -> (r: Dot)
    requires
        counter(*c, a) < u64::MAX,
    ensures
        r == (Dot { actor: a, counter: (counter(*c, a) + 1) as u64 }),
{
    let d = c.inc((a.hi, a.lo));
    Dot { actor: a, counter: d.counter }
}

/// Relies on `CmRDT::apply` for `VClock`: the actor's counter becomes the
/// dot's counter if that is larger.
#[verifier::external_body]
pub fn clock_apply(c: &mut Clock, d: Dot)
    ensures
        clock_counters(*final(c)) == if counter(*old(c), d.actor) < d.counter {
            clock_counters(*old(c)).insert(key_of(d.actor), d.counter)
        } else {
            clock_counters(*old(c))
        },
{
    crdts::CmRDT::apply(c, crdts::Dot::new((d.actor.hi, d.actor.lo), d.counter))
}

/// Relies on the derived `Clone` of `VClock`: the same counters.
#[verifier::external_body]
pub fn clock_clone(c: &Clock) -> (r: Clock)
    ensures
        clock_counters(r) == clock_counters(*c),
{
    c.clone()
}

/// Relies on `VClock::iter`, which walks its `BTreeMap` in increasing key
/// order: the entries, sorted by actor.
#[verifier::external_body]
pub fn clock_entries(c: &Clock) -> (r: Vec<(Actor, u64)>)
    ensures
        r@ == clock_listing(*c),
{
    c.iter().map(|d| (Actor { hi: d.actor.0, lo: d.actor.1 }, d.counter)).collect()
}

} // verus!
