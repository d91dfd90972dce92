//! The order on reconfigs, and the lexicographic order on reconfig sets
//! written as sorted lists, which breaks ties between equally supported sets.

use crate::actor::actor_lt;
use crate::vote::Reconfig;
use vstd::prelude::*;

verus! {

/// Every join sorts before every leave; within a kind, by actor.
pub open spec fn reconfig_lt(a: Reconfig, b: Reconfig) -> bool {
    match (a, b) {
        (Reconfig::Join(x), Reconfig::Join(y)) => actor_lt(x, y),
        (Reconfig::Join(_), Reconfig::Leave(_)) => true,
        (Reconfig::Leave(_), Reconfig::Join(_)) => false,
        (Reconfig::Leave(x), Reconfig::Leave(y)) => actor_lt(x, y),
    }
}

/// Whether `a` sorts strictly before `b`.
pub fn reconfig_lt_exec(a: &Reconfig, b: &Reconfig) -> (r: bool)
    ensures
        r == reconfig_lt(*a, *b),
{
    match (a, b) {
        (Reconfig::Join(x), Reconfig::Join(y)) => x.lt(y),
        (Reconfig::Join(_), Reconfig::Leave(_)) => true,
        (Reconfig::Leave(_), Reconfig::Join(_)) => false,
        (Reconfig::Leave(x), Reconfig::Leave(y)) => x.lt(y),
    }
}

/// Strictly increasing.
pub open spec fn strictly_sorted(s: Seq<Reconfig>) -> bool {
    forall|i: int, j: int| 0 <= i < j < s.len() ==> reconfig_lt(#[trigger] s[i], #[trigger] s[j])
}

/// Lexicographic order; a proper prefix sorts first.
pub open spec fn lex_lt(a: Seq<Reconfig>, b: Seq<Reconfig>) -> bool
    decreases a.len(),
{
    if b.len() == 0 {
        false
    } else if a.len() == 0 {
        true
    } else if reconfig_lt(a[0], b[0]) {
        true
    } else if a[0] == b[0] {
        lex_lt(a.drop_first(), b.drop_first())
    } else {
        false
    }
}

/// The sorted list of a set of reconfigs.
pub open spec fn canonical(rs: Set<Reconfig>) -> Seq<Reconfig> {
    choose|s: Seq<Reconfig>| strictly_sorted(s) && s.to_set() == rs
}

/// `reconfig_lt` is a strict total order.
pub proof fn lemma_reconfig_lt_order()
    ensures
        forall|a: Reconfig| !reconfig_lt(a, a),
        forall|a: Reconfig, b: Reconfig| #[trigger] reconfig_lt(a, b) ==> !reconfig_lt(b, a),
        forall|a: Reconfig, b: Reconfig, c: Reconfig|
            #[trigger] reconfig_lt(a, b) && #[trigger] reconfig_lt(b, c) ==> reconfig_lt(a, c),
        forall|a: Reconfig, b: Reconfig| a != b ==> #[trigger] reconfig_lt(a, b) || reconfig_lt(b, a),
{
}

/// `lex_lt` is asymmetric.
pub proof fn lemma_lex_asymmetric(a: Seq<Reconfig>, b: Seq<Reconfig>)
    requires
        lex_lt(a, b),
    ensures
        !lex_lt(b, a),
    decreases a.len(),
{
    lemma_reconfig_lt_order();
    if a.len() > 0 && b.len() > 0 && a[0] == b[0] {
        lemma_lex_asymmetric(a.drop_first(), b.drop_first());
    }
}

/// `lex_lt` is transitive.
pub proof fn lemma_lex_transitive(a: Seq<Reconfig>, b: Seq<Reconfig>, c: Seq<Reconfig>)
    requires
        lex_lt(a, b),
        lex_lt(b, c),
    ensures
        lex_lt(a, c),
    decreases a.len(),
{
    lemma_reconfig_lt_order();
    if a.len() > 0 && b.len() > 0 && c.len() > 0 && a[0] == b[0] && b[0] == c[0] {
        lemma_lex_transitive(a.drop_first(), b.drop_first(), c.drop_first());
    }
}

/// Of two different lists, one sorts before the other.
pub proof fn lemma_lex_total(a: Seq<Reconfig>, b: Seq<Reconfig>)
    requires
        a != b,
    ensures
        lex_lt(a, b) || lex_lt(b, a),
    decreases a.len(),
{
    lemma_reconfig_lt_order();
    if a.len() == 0 {
        if b.len() == 0 {
            assert(a =~= b);
        }
    } else if b.len() == 0 {
    } else if a[0] == b[0] {
        if a.drop_first() == b.drop_first() {
            assert(a =~= seq![a[0]] + a.drop_first());
            assert(b =~= seq![b[0]] + b.drop_first());
        }
        lemma_lex_total(a.drop_first(), b.drop_first());
    }
}

/// Two sorted lists of the same reconfigs are the same list.
pub proof fn lemma_sorted_unique(a: Seq<Reconfig>, b: Seq<Reconfig>)
    requires
        strictly_sorted(a),
        strictly_sorted(b),
        a.to_set() == b.to_set(),
    ensures
        a == b,
    decreases a.len(),
{
    lemma_reconfig_lt_order();
    if a.len() == 0 {
        if b.len() > 0 {
            assert(b.to_set().contains(b[0]));
        }
        assert(b.len() == 0);
    } else {
        if b.len() == 0 {
            assert(a.to_set().contains(a[0]));
        }
        assert(b.len() > 0);
        assert(a.to_set().contains(a[0]));
        assert(b.to_set().contains(b[0]));
        let i = choose|i: int| 0 <= i < b.len() && b[i] == a[0];
        let j = choose|j: int| 0 <= j < a.len() && a[j] == b[0];
        if i > 0 {
            assert(reconfig_lt(b[0], b[i]));
            if j > 0 {
                assert(reconfig_lt(a[0], a[j]));
            }
        }
        assert(a[0] == b[0]);
        let a1 = a.drop_first();
        let b1 = b.drop_first();
        assert forall|x: Reconfig| a1.to_set().contains(x) <==> b1.to_set().contains(x) by {
            if a1.to_set().contains(x) {
                let k = choose|k: int| 0 <= k < a1.len() && a1[k] == x;
                assert(a[k + 1] == x);
                assert(reconfig_lt(a[0], a[k + 1]));
                assert(b.to_set().contains(x));
                let m = choose|m: int| 0 <= m < b.len() && b[m] == x;
                assert(m != 0);
                assert(b1[m - 1] == x);
            }
            if b1.to_set().contains(x) {
                let k = choose|k: int| 0 <= k < b1.len() && b1[k] == x;
                assert(b[k + 1] == x);
                assert(reconfig_lt(b[0], b[k + 1]));
                assert(a.to_set().contains(x));
                let m = choose|m: int| 0 <= m < a.len() && a[m] == x;
                assert(m != 0);
                assert(a1[m - 1] == x);
            }
        }
        assert(a1.to_set() =~= b1.to_set());
        lemma_sorted_unique(a1, b1);
        assert(a =~= seq![a[0]] + a1);
        assert(b =~= seq![b[0]] + b1);
    }
}

/// A sorted list of the reconfigs of `v`, each once.
pub fn sort_reconfigs(v: &Vec<Reconfig>) -> (r: Vec<Reconfig>)
    ensures
        strictly_sorted(r@),
        r@.to_set() == v@.to_set(),
        r@ == canonical(v@.to_set()),
{
    proof {
        lemma_reconfig_lt_order();
    }
    let mut r: Vec<Reconfig> = Vec::new();
    let mut i: usize = 0;
    while i < v.len()
        invariant
            0 <= i <= v@.len(),
            strictly_sorted(r@),
            forall|x: Reconfig| #[trigger] r@.contains(x) <==> exists|k: int| 0 <= k < i && v@[k] == x,
        decreases v@.len() - i,
    {
        let x = v[i];
        let mut k: usize = 0;
        while k < r.len() && reconfig_lt_exec(&r[k], &x)
            invariant
                0 <= k <= r@.len(),
                forall|m: int| 0 <= m < k ==> reconfig_lt(r@[m], x),
            decreases r@.len() - k,
        {
            k = k + 1;
        }
        if k < r.len() && r[k] == x {
        } else {
            let ghost old_r = r@;
            proof {
                if k < old_r.len() {
                    assert(!reconfig_lt(old_r[k as int], x));
                    assert(reconfig_lt(x, old_r[k as int]));
                }
            }
            r.insert(k, x);
            proof {
                assert(r@ == old_r.insert(k as int, x));
                assert forall|a: int, b: int| 0 <= a < b < r@.len() implies reconfig_lt(#[trigger] r@[a], #[trigger] r@[b]) by {
                    if b < k {
                    } else if a < k && b == k {
                    } else if a < k && b > k {
                        assert(r@[b] == old_r[b - 1]);
                        assert(reconfig_lt(old_r[a], x));
                    } else if a == k {
                        assert(r@[b] == old_r[b - 1]);
                        if b - 1 > k {
                            assert(reconfig_lt(old_r[k as int], old_r[b - 1]));
                        }
                    } else {
                        assert(r@[b] == old_r[b - 1]);
                        assert(r@[a] == old_r[a - 1]);
                    }
                }
                assert forall|y: Reconfig| #[trigger] r@.contains(y) <==> (old_r.contains(y) || y == x) by {
                    if r@.contains(y) {
                        let m = choose|m: int| 0 <= m < r@.len() && r@[m] == y;
                        if m < k {
                            assert(old_r[m] == y);
                        } else if m > k {
                            assert(old_r[m - 1] == y);
                        }
                    }
                    if old_r.contains(y) {
                        let m = choose|m: int| 0 <= m < old_r.len() && old_r[m] == y;
                        if m < k {
                            assert(r@[m] == y);
                        } else {
                            assert(r@[m + 1] == y);
                        }
                    }
                    if y == x {
                        assert(r@[k as int] == x);
                    }
                }
            }
        }
        i = i + 1;
    }
    proof {
        assert(r@.to_set() =~= v@.to_set());
        let c = canonical(v@.to_set());
        assert(strictly_sorted(c) && c.to_set() == v@.to_set());
        lemma_sorted_unique(r@, c);
    }
    r
}

/// Whether `a` sorts strictly before `b`, lexicographically.
pub fn lex_lt_exec(a: &Vec<Reconfig>, b: &Vec<Reconfig>) -> (r: bool)
    ensures
        r == lex_lt(a@, b@),
{
    let mut i: usize = 0;
    assert(a@.subrange(0, a@.len() as int) =~= a@);
    assert(b@.subrange(0, b@.len() as int) =~= b@);
    while i < a.len() && i < b.len() && a[i] == b[i]
        invariant
            0 <= i <= a@.len(),
            i <= b@.len(),
            lex_lt(a@, b@) == lex_lt(a@.subrange(i as int, a@.len() as int), b@.subrange(i as int, b@.len() as int)),
        decreases a@.len() - i,
    {
        proof {
            let sa = a@.subrange(i as int, a@.len() as int);
            let sb = b@.subrange(i as int, b@.len() as int);
            assert(sa.drop_first() =~= a@.subrange(i + 1, a@.len() as int));
            assert(sb.drop_first() =~= b@.subrange(i + 1, b@.len() as int));
        }
        i = i + 1;
    }
    if i == b.len() {
        false
    } else if i == a.len() {
        true
    } else {
        reconfig_lt_exec(&a[i], &b[i])
    }
}

} // verus!
