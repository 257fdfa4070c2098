//! The equivalence cache of a type checker: a union-find over expressions
//! with union by rank. `is_equiv` decides structural equality up to binder
//! names and annotations, `let` names and dependency flags, metadata and
//! projection structure names, short-circuited by pointer identity, an
//! optional hash fast-reject and the union-find classes; it merges the
//! classes of every pair it proves. `merge` records a pair the caller has
//! proved equal by other means.
//!
//! What it promises: a pair is reported equivalent only when every
//! congruence (an equivalence relation closed under the structural steps
//! above) that relates all recorded pairs relates it too.
use crate::error::KernelError;
use crate::expr::{
    expr_height, lemma_expr_view, lemma_node_view, levels_eq, literal_eq, node_view, Expr, ExprNode,
    SExpr,
};
use crate::guard::{RecGuard, MAX_REC_DEPTH};
use crate::level::Level;
use crate::shared::{node_address, same_node, share};
use crate::subst::tree_height;
use std::collections::HashMap;
use std::sync::Arc;
use vstd::prelude::*;

verus! {

broadcast use {lemma_expr_view, lemma_node_view};

/// One structural step: `a` and `b` have the same shape and `rel` relates
/// their children; binder names and annotations, `let` names and flags,
/// metadata and projection structure names are ignored; other nodes must
/// be equal.
pub open spec fn equiv_step(rel: spec_fn(SExpr, SExpr) -> bool, a: SExpr, b: SExpr) -> bool {
    match (a, b) {
        (SExpr::App(f1, x1), SExpr::App(f2, x2)) => rel(*f1, *f2) && rel(*x1, *x2),
        (SExpr::Lam(_, d1, b1, _), SExpr::Lam(_, d2, b2, _)) => rel(*d1, *d2) && rel(*b1, *b2),
        (SExpr::ForallE(_, d1, b1, _), SExpr::ForallE(_, d2, b2, _)) => rel(*d1, *d2) && rel(
            *b1,
            *b2,
        ),
        (SExpr::LetE(_, t1, v1, b1, _), SExpr::LetE(_, t2, v2, b2, _)) => rel(*t1, *t2) && rel(
            *v1,
            *v2,
        ) && rel(*b1, *b2),
        (SExpr::MData(_, x1), SExpr::MData(_, x2)) => rel(*x1, *x2),
        (SExpr::Proj(_, i1, s1), SExpr::Proj(_, i2, s2)) => i1 == i2 && rel(*s1, *s2),
        _ => a == b,
    }
}

/// The structural equivalence the comparison decides without a cache:
/// `equiv_step` all the way down.
pub open spec fn equiv_shape(a: SExpr, b: SExpr) -> bool
    decreases a,
{
    match (a, b) {
        (SExpr::App(f1, x1), SExpr::App(f2, x2)) => equiv_shape(*f1, *f2) && equiv_shape(*x1, *x2),
        (SExpr::Lam(_, d1, b1, _), SExpr::Lam(_, d2, b2, _)) => equiv_shape(*d1, *d2) && equiv_shape(
            *b1,
            *b2,
        ),
        (SExpr::ForallE(_, d1, b1, _), SExpr::ForallE(_, d2, b2, _)) => equiv_shape(*d1, *d2)
            && equiv_shape(*b1, *b2),
        (SExpr::LetE(_, t1, v1, b1, _), SExpr::LetE(_, t2, v2, b2, _)) => equiv_shape(*t1, *t2)
            && equiv_shape(*v1, *v2) && equiv_shape(*b1, *b2),
        (SExpr::MData(_, x1), SExpr::MData(_, x2)) => equiv_shape(*x1, *x2),
        (SExpr::Proj(_, i1, s1), SExpr::Proj(_, i2, s2)) => i1 == i2 && equiv_shape(*s1, *s2),
        _ => a == b,
    }
}

/// An equivalence relation closed under `equiv_step`.
pub open spec fn is_congruence(rel: spec_fn(SExpr, SExpr) -> bool) -> bool {
    &&& forall|a: SExpr| #[trigger] rel(a, a)
    &&& forall|a: SExpr, b: SExpr| #[trigger] rel(a, b) ==> rel(b, a)
    &&& forall|a: SExpr, b: SExpr, c: SExpr| #[trigger] rel(a, b) && #[trigger] rel(b, c) ==> rel(
        a,
        c,
    )
    &&& forall|a: SExpr, b: SExpr| #[trigger] equiv_step(rel, a, b) ==> rel(a, b)
}

/// `rel` relates every recorded pair.
pub open spec fn respects(rel: spec_fn(SExpr, SExpr) -> bool, eqs: Seq<(SExpr, SExpr)>) -> bool {
    forall|k: int| 0 <= k < eqs.len() ==> rel(#[trigger] eqs[k].0, eqs[k].1)
}

/// Every congruence that relates the recorded pairs relates `a` and `b`.
pub open spec fn entails(eqs: Seq<(SExpr, SExpr)>, a: SExpr, b: SExpr) -> bool {
    forall|rel: spec_fn(SExpr, SExpr) -> bool|
        is_congruence(rel) && respects(rel, eqs) ==> #[trigger] rel(a, b)
}

pub proof fn lemma_entails_refl(eqs: Seq<(SExpr, SExpr)>, a: SExpr)
    ensures
        entails(eqs, a, a),
{
    assert forall|rel: spec_fn(SExpr, SExpr) -> bool|
        is_congruence(rel) && respects(rel, eqs) implies #[trigger] rel(a, a) by {}
}

/// A constant itself, and nothing for any other node.
spec fn const_key(e: SExpr) -> Option<SExpr> {
    if e is Const {
        Some(e)
    } else {
        None
    }
}

/// With no recorded equation, a constant is entailed equal only to
/// itself.
pub proof fn lemma_entails_nothing_const(a: SExpr, b: SExpr)
    requires
        entails(Seq::<(SExpr, SExpr)>::empty(), a, b),
        a is Const,
    ensures
        a == b,
{
    let rel = |x: SExpr, y: SExpr| const_key(x) == const_key(y);
    assert forall|x: SExpr, y: SExpr| #[trigger] equiv_step(rel, x, y) implies rel(x, y) by {}
    assert(is_congruence(rel));
    assert(respects(rel, Seq::<(SExpr, SExpr)>::empty()));
    assert(rel(a, b));
}

pub proof fn lemma_entails_trans(eqs: Seq<(SExpr, SExpr)>, a: SExpr, b: SExpr, c: SExpr)
    requires
        entails(eqs, a, b),
        entails(eqs, b, c),
    ensures
        entails(eqs, a, c),
{
    assert forall|rel: spec_fn(SExpr, SExpr) -> bool|
        is_congruence(rel) && respects(rel, eqs) implies #[trigger] rel(a, c) by {
        assert(rel(a, b));
        assert(rel(b, c));
    }
}

pub proof fn lemma_entails_symm(eqs: Seq<(SExpr, SExpr)>, a: SExpr, b: SExpr)
    requires
        entails(eqs, a, b),
    ensures
        entails(eqs, b, a),
{
    assert forall|rel: spec_fn(SExpr, SExpr) -> bool|
        is_congruence(rel) && respects(rel, eqs) implies #[trigger] rel(b, a) by {
        assert(rel(a, b));
    }
}

pub proof fn lemma_entails_extend(eqs: Seq<(SExpr, SExpr)>, p: (SExpr, SExpr), a: SExpr, b: SExpr)
    requires
        entails(eqs, a, b),
    ensures
        entails(eqs.push(p), a, b),
{
    assert forall|rel: spec_fn(SExpr, SExpr) -> bool|
        is_congruence(rel) && respects(rel, eqs.push(p)) implies #[trigger] rel(a, b) by {
        assert forall|k: int| 0 <= k < eqs.len() implies rel(#[trigger] eqs[k].0, eqs[k].1) by {
            assert(eqs.push(p)[k] == eqs[k]);
        }
    }
}

pub proof fn lemma_entails_recorded(eqs: Seq<(SExpr, SExpr)>, a: SExpr, b: SExpr)
    ensures
        entails(eqs.push((a, b)), a, b),
{
    let e2 = eqs.push((a, b));
    assert forall|rel: spec_fn(SExpr, SExpr) -> bool|
        is_congruence(rel) && respects(rel, e2) implies #[trigger] rel(a, b) by {
        let k = eqs.len() as int;
        assert(e2[k] == (a, b));
        assert(rel(e2[k].0, e2[k].1));
    }
}

/// The shape of the structural step with `entails` for the children.
pub open spec fn step_entailed(eqs: Seq<(SExpr, SExpr)>, a: SExpr, b: SExpr) -> bool {
    match (a, b) {
        (SExpr::App(f1, x1), SExpr::App(f2, x2)) => entails(eqs, *f1, *f2) && entails(eqs, *x1, *x2),
        (SExpr::Lam(_, d1, b1, _), SExpr::Lam(_, d2, b2, _)) => entails(eqs, *d1, *d2) && entails(
            eqs,
            *b1,
            *b2,
        ),
        (SExpr::ForallE(_, d1, b1, _), SExpr::ForallE(_, d2, b2, _)) => entails(eqs, *d1, *d2)
            && entails(eqs, *b1, *b2),
        (SExpr::LetE(_, t1, v1, b1, _), SExpr::LetE(_, t2, v2, b2, _)) => entails(eqs, *t1, *t2)
            && entails(eqs, *v1, *v2) && entails(eqs, *b1, *b2),
        (SExpr::MData(_, x1), SExpr::MData(_, x2)) => entails(eqs, *x1, *x2),
        (SExpr::Proj(_, i1, s1), SExpr::Proj(_, i2, s2)) => i1 == i2 && entails(eqs, *s1, *s2),
        _ => a == b,
    }
}

pub proof fn lemma_entails_step(eqs: Seq<(SExpr, SExpr)>, a: SExpr, b: SExpr)
    requires
        step_entailed(eqs, a, b),
    ensures
        entails(eqs, a, b),
{
    assert forall|rel: spec_fn(SExpr, SExpr) -> bool|
        is_congruence(rel) && respects(rel, eqs) implies #[trigger] rel(a, b) by {
        match (a, b) {
            (SExpr::App(f1, x1), SExpr::App(f2, x2)) => {
                assert(rel(*f1, *f2));
                assert(rel(*x1, *x2));
            },
            (SExpr::Lam(_, d1, b1, _), SExpr::Lam(_, d2, b2, _)) => {
                assert(rel(*d1, *d2));
                assert(rel(*b1, *b2));
            },
            (SExpr::ForallE(_, d1, b1, _), SExpr::ForallE(_, d2, b2, _)) => {
                assert(rel(*d1, *d2));
                assert(rel(*b1, *b2));
            },
            (SExpr::LetE(_, t1, v1, b1, _), SExpr::LetE(_, t2, v2, b2, _)) => {
                assert(rel(*t1, *t2));
                assert(rel(*v1, *v2));
                assert(rel(*b1, *b2));
            },
            (SExpr::MData(_, x1), SExpr::MData(_, x2)) => {
                assert(rel(*x1, *x2));
            },
            (SExpr::Proj(_, _, s1), SExpr::Proj(_, _, s2)) => {
                assert(rel(*s1, *s2));
            },
            _ => {
                assert(rel(a, a));
            },
        }
        assert(equiv_step(rel, a, b));
    }
}

/// A union-find over expressions, keyed by node identity.
pub struct UnionFind {
    parent: Vec<usize>,
    rank: Vec<usize>,
    nodes: Vec<Arc<Expr>>,
    index: HashMap<usize, usize>,
    /// The root of each node's class.
    repr: Ghost<Seq<int>>,
    /// The number of merges of two classes so far.
    merges: Ghost<nat>,
    /// The roots.
    roots: Ghost<Set<int>>,
    /// The pairs recorded by `merge`.
    eqs: Ghost<Seq<(SExpr, SExpr)>>,
}

impl UnionFind {
    /// The number of nodes.
    pub closed spec fn len(self) -> nat {
        self.nodes@.len()
    }

    /// The expression of node `i`.
    pub closed spec fn node(self, i: int) -> SExpr {
        self.nodes@[i]@
    }

    /// The pairs recorded by `merge`.
    pub closed spec fn equations(self) -> Seq<(SExpr, SExpr)> {
        self.eqs@
    }

    /// The root of node `i`'s class.
    pub closed spec fn root(self, i: int) -> int {
        self.repr@[i]
    }

    /// The structure is consistent: parents and roots in range, every
    /// node's class root reached through its parent, ranks growing toward
    /// the root and bounded by the merge count, one root fewer per merge,
    /// and every node entailed equal to its root.
    pub closed spec fn wf(self) -> bool {
        let n = self.nodes@.len();
        &&& self.parent@.len() == n
        &&& self.rank@.len() == n
        &&& self.repr@.len() == n
        &&& forall|i: int| 0 <= i < n ==> (#[trigger] self.parent@[i]) < n
        &&& forall|i: int| 0 <= i < n ==> 0 <= #[trigger] self.repr@[i] < n
        &&& forall|i: int|
            0 <= i < n ==> self.repr@[self.parent@[i] as int] == #[trigger] self.repr@[i]
        &&& forall|i: int| 0 <= i < n ==> self.parent@[#[trigger] self.repr@[i]] == self.repr@[i]
        &&& forall|i: int| 0 <= i < n && #[trigger] self.parent@[i] == i ==> self.repr@[i] == i
        &&& forall|i: int|
            0 <= i < n && #[trigger] self.parent@[i] != i ==> self.rank@[self.parent@[i] as int]
                > self.rank@[i]
        &&& forall|i: int| 0 <= i < n ==> #[trigger] self.rank@[i] <= self.merges@
        &&& self.roots@.finite()
        &&& self.roots@ == Set::new(|i: int| 0 <= i < n && self.parent@[i] == i)
        &&& self.merges@ + self.roots@.len() == n
        &&& forall|i: int|
            0 <= i < n ==> entails(self.eqs@, #[trigger] self.nodes@[i]@, self.nodes@[self.repr@[i]]@)
    }

    /// `self` has every node of `old`, with the same expression.
    pub open spec fn extends(self, old: UnionFind) -> bool {
        &&& old.len() <= self.len()
        &&& forall|i: int| 0 <= i < old.len() ==> #[trigger] self.node(i) == old.node(i)
    }

    /// An empty union-find.
    pub fn new() -> (r: UnionFind)
        ensures
            r.wf(),
            r.len() == 0,
            r.equations() == Seq::<(SExpr, SExpr)>::empty(),
    {
        let r = UnionFind {
            parent: Vec::new(),
            rank: Vec::new(),
            nodes: Vec::new(),
            index: HashMap::new(),
            repr: Ghost(Seq::empty()),
            merges: Ghost(0),
            roots: Ghost(Set::empty()),
            eqs: Ghost(Seq::empty()),
        };
        proof {
            assert(r.roots@ =~= Set::new(|i: int| 0 <= i < 0 && r.parent@[i] == i));
        }
        r
    }

    /// The node of `e`: the one made for this very `Arc` if there is one,
    /// else a new singleton class.
    fn to_node(&mut self, e: &Arc<Expr>) -> (r: usize)
        requires
            old(self).wf(),
        ensures
            final(self).wf(),
            final(self).extends(*old(self)),
            final(self).equations() == old(self).equations(),
            r < final(self).len(),
            final(self).node(r as int) == e@,
            forall|i: int| 0 <= i < old(self).len() ==> final(self).root(i) == old(self).root(i),
    {
        let key = node_address(e);
        let hit = match self.index.get(&key) {
            Some(i) => Some(*i),
            None => None,
        };
        if let Some(i) = hit {
            if i < self.nodes.len() && same_node(&self.nodes[i], e) {
                return i;
            }
        }
        let ghost old_self = *self;
        let i = self.nodes.len();
        self.parent.push(i);
        self.rank.push(0);
        self.nodes.push(share(e));
        self.index.insert(key, i);
        proof {
            let n = old_self.nodes@.len();
            self.repr@ = self.repr@.push(i as int);
            assert(!self.roots@.contains(i as int));
            self.roots@ = self.roots@.insert(i as int);
            lemma_entails_refl(self.eqs@, e@);
            assert(self.roots@ =~= Set::new(|j: int| 0 <= j < n + 1 && self.parent@[j] == j));
            assert forall|j: int| 0 <= j < n + 1 implies entails(
                self.eqs@,
                #[trigger] self.nodes@[j]@,
                self.nodes@[self.repr@[j]]@,
            ) by {
                if j < n {
                    assert(old_self.nodes@[j] == self.nodes@[j]);
                    assert(old_self.nodes@[old_self.repr@[j]] == self.nodes@[self.repr@[j]]);
                }
            }
            assert forall|j: int| 0 <= j < n + 1 implies self.repr@[self.parent@[j] as int]
                == #[trigger] self.repr@[j] by {
                if j < n {
                    assert(old_self.parent@[j] == self.parent@[j]);
                }
            }
            assert forall|j: int| 0 <= j < n + 1 implies self.parent@[#[trigger] self.repr@[j]]
                == self.repr@[j] by {
                if j < n {
                    assert(old_self.repr@[j] == self.repr@[j]);
                }
            }
            assert forall|j: int|
                0 <= j < n + 1 && #[trigger] self.parent@[j] != j implies self.rank@[self.parent@[j] as int]
                > self.rank@[j] by {
                if j < n {
                    assert(old_self.parent@[j] == self.parent@[j]);
                }
            }
            assert forall|j: int| 0 <= j < old_self.len() implies #[trigger] self.node(j)
                == old_self.node(j) by {
                assert(self.nodes@[j] == old_self.nodes@[j]);
            }
        }
        i
    }

    /// Merges the classes of nodes `n1` and `n2`, union by rank.
    fn merge_refs(&mut self, n1: usize, n2: usize)
        requires
            old(self).wf(),
            n1 < old(self).len(),
            n2 < old(self).len(),
            entails(old(self).equations(), old(self).node(n1 as int), old(self).node(n2 as int)),
        ensures
            final(self).wf(),
            final(self).len() == old(self).len(),
            final(self).extends(*old(self)),
            final(self).equations() == old(self).equations(),
            final(self).repr@[n1 as int] == final(self).repr@[n2 as int],
            forall|i: int|
                0 <= i < old(self).len() ==> #[trigger] final(self).repr@[i] == if old(self).repr@[i]
                    == old(self).repr@[n1 as int] || old(self).repr@[i] == old(self).repr@[n2 as int] {
                    final(self).repr@[n1 as int]
                } else {
                    old(self).repr@[i]
                },
    {
        let r1 = self.find(n1);
        let r2 = self.find(n2);
        if r1 == r2 {
            return;
        }
        let ghost old_self = *self;
        let ghost n = self.nodes@.len();
        let ghost eqs = self.eqs@;
        proof {
            assert(entails(eqs, self.nodes@[n1 as int]@, self.nodes@[self.repr@[n1 as int]]@));
            assert(entails(eqs, self.nodes@[n2 as int]@, self.nodes@[self.repr@[n2 as int]]@));
            lemma_entails_symm(eqs, self.node(n1 as int), self.node(r1 as int));
            lemma_entails_trans(eqs, self.node(r1 as int), self.node(n1 as int), self.node(n2 as int));
            lemma_entails_trans(eqs, self.node(r1 as int), self.node(n2 as int), self.node(r2 as int));
            assert(self.roots@.contains(r1 as int));
            assert(self.roots@.contains(r2 as int));
            assert(self.roots@.remove(r1 as int).contains(r2 as int));
            assert(self.roots@.remove(r1 as int).remove(r2 as int).len() == self.roots@.len() - 2);
        }
        let total = self.nodes.len();
        let k1 = self.rank[r1];
        let k2 = self.rank[r2];
        proof {
            assert(self.rank@[r1 as int] <= self.merges@);
            assert(k1 + 2 <= total);
        }
        let (lo, hi) = if k1 < k2 {
            (r1, r2)
        } else {
            (r2, r1)
        };
        proof {
            if k1 >= k2 {
                lemma_entails_symm(eqs, self.node(r1 as int), self.node(r2 as int));
            }
        }
        self.parent.set(lo, hi);
        if k1 == k2 {
            self.rank.set(hi, k1 + 1);
        }
        proof {
            let lo = lo as int;
            let hi = hi as int;
            self.repr@ = Seq::new(n, |i: int| if old_self.repr@[i] == lo { hi } else { old_self.repr@[i] });
            self.roots@ = old_self.roots@.remove(lo);
            self.merges@ = old_self.merges@ + 1;
            assert(self.roots@ =~= Set::new(|i: int| 0 <= i < n && self.parent@[i] == i));
            assert forall|i: int| 0 <= i < n implies self.repr@[self.parent@[i] as int]
                == #[trigger] self.repr@[i] by {
                if i != lo {
                    assert(self.parent@[i] == old_self.parent@[i]);
                }
            }
            assert forall|i: int| 0 <= i < n implies self.parent@[#[trigger] self.repr@[i]]
                == self.repr@[i] by {
                assert(old_self.parent@[old_self.repr@[i]] == old_self.repr@[i]);
            }
            assert forall|i: int|
                0 <= i < n && #[trigger] self.parent@[i] != i implies self.rank@[self.parent@[i] as int]
                > self.rank@[i] by {
                if i != lo {
                    assert(self.parent@[i] == old_self.parent@[i]);
                }
            }
            assert forall|i: int| 0 <= i < n implies #[trigger] self.rank@[i] <= self.merges@ by {
                assert(old_self.rank@[i] <= old_self.merges@);
            }
            assert forall|i: int| 0 <= i < n implies entails(
                eqs,
                #[trigger] self.nodes@[i]@,
                self.nodes@[self.repr@[i]]@,
            ) by {
                assert(entails(eqs, old_self.nodes@[i]@, old_self.nodes@[old_self.repr@[i]]@));
                if old_self.repr@[i] == lo {
                    lemma_entails_trans(eqs, self.nodes@[i]@, self.nodes@[lo]@, self.nodes@[hi]@);
                }
            }
        }
    }

    /// The root of node `n`'s class, by following parents.
    fn find(&self, n: usize) -> (r: usize)
        requires
            self.wf(),
            n < self.len(),
        ensures
            r == self.root(n as int),
            r < self.len(),
    {
        let mut cur = n;
        while self.parent[cur] != cur
            invariant
                self.wf(),
                cur < self.len(),
                self.repr@[cur as int] == self.repr@[n as int],
            decreases self.merges@ - self.rank@[cur as int],
        {
            cur = self.parent[cur];
        }
        cur
    }
}

impl UnionFind {
    /// Records that `t` and `s` are equal (proved by the caller) and
    /// merges their classes.
    pub fn merge(&mut self, t: &Arc<Expr>, s: &Arc<Expr>)
        requires
            old(self).wf(),
        ensures
            final(self).wf(),
            final(self).extends(*old(self)),
            final(self).equations() == old(self).equations().push((t@, s@)),
    {
        let ghost old_self = *self;
        let ghost e2 = self.eqs@.push((t@, s@));
        proof {
            assert forall|i: int| 0 <= i < self.nodes@.len() implies entails(
                e2,
                #[trigger] self.nodes@[i]@,
                self.nodes@[self.repr@[i]]@,
            ) by {
                lemma_entails_extend(self.eqs@, (t@, s@), self.nodes@[i]@, self.nodes@[self.repr@[i]]@);
            }
            self.eqs@ = e2;
            lemma_entails_recorded(old_self.eqs@, t@, s@);
        }
        let a = self.to_node(t);
        let b = self.to_node(s);
        self.merge_refs(a, b);
    }

    /// Whether `a` and `b` are equivalent: pointer identity, then (with
    /// `use_hash`) unequal hashes reject, then the classes, then a
    /// structural comparison one guard frame deeper whose success merges
    /// the two classes.
    pub fn is_equiv(&mut self, a: &Arc<Expr>, b: &Arc<Expr>, use_hash: bool, g: &mut RecGuard) -> (r:
        Result<bool, KernelError>)
        requires
            old(self).wf(),
        ensures
            final(self).wf(),
            final(self).extends(*old(self)),
            final(self).equations() == old(self).equations(),
            *final(g) == *old(g),
            r matches Ok(x) ==> (x ==> entails(old(self).equations(), a@, b@)) && (!use_hash
                && equiv_shape(a@, b@) ==> x) && (a@ == b@ ==> x),
            r matches Err(e) ==> e is DeepRecursion,
            old(g).depth() + expr_height(a@) < MAX_REC_DEPTH ==> r is Ok,
    {
        self.is_equiv_core(a, b, use_hash, g)
    }

    fn is_equiv_core(&mut self, a: &Arc<Expr>, b: &Arc<Expr>, use_hash: bool, g: &mut RecGuard) -> (r:
        Result<bool, KernelError>)
        requires
            old(self).wf(),
        ensures
            final(self).wf(),
            final(self).extends(*old(self)),
            final(self).equations() == old(self).equations(),
            *final(g) == *old(g),
            r matches Ok(x) ==> (x ==> entails(old(self).equations(), a@, b@)) && (!use_hash
                && equiv_shape(a@, b@) ==> x) && (a@ == b@ ==> x),
            r matches Err(e) ==> e is DeepRecursion,
            old(g).depth() + expr_height(a@) < MAX_REC_DEPTH ==> r is Ok,
        decreases tree_height(a@), 1nat,
    {
        let ghost eqs = self.eqs@;
        if same_node(a, b) {
            proof {
                lemma_entails_refl(eqs, a@);
            }
            return Ok(true);
        }
        if use_hash && a.data().hash() != b.data().hash() {
            return Ok(false);
        }
        match (&(**a).node, &(**b).node) {
            (ExprNode::BVar { idx: ia }, ExprNode::BVar { idx: ib }) => {
                proof {
                    lemma_entails_refl(eqs, a@);
                }
                return Ok(ia.beq(ib));
            },
            _ => {},
        }
        let na = self.to_node(a);
        let nb = self.to_node(b);
        let r1 = self.find(na);
        let r2 = self.find(nb);
        let ghost before = *self;
        proof {
            assert(entails(eqs, self.nodes@[na as int]@, self.nodes@[self.repr@[na as int]]@));
            assert(entails(eqs, self.nodes@[nb as int]@, self.nodes@[self.repr@[nb as int]]@));
        }
        if r1 == r2 {
            proof {
                lemma_entails_symm(eqs, b@, self.node(r2 as int));
                lemma_entails_trans(eqs, a@, self.node(r1 as int), b@);
            }
            return Ok(true);
        }
        if g.current_depth() >= MAX_REC_DEPTH {
            return Err(KernelError::DeepRecursion);
        }
        let mut uf = UnionFind::new();
        std::mem::swap(self, &mut uf);
        let (a2, b2) = (share(a), share(b));
        let run = move |g2: RecGuard| -> (r: Result<(UnionFind, Result<bool, KernelError>), KernelError>)
            requires
                uf.wf(),
            ensures
                r matches Ok(p) && p.0.wf() && p.0.extends(uf) && p.0.equations() == uf.equations()
                    && (p.1 matches Ok(x) ==> (x ==> entails(uf.equations(), a2@, b2@)) && (
                !use_hash && equiv_shape(a2@, b2@) ==> x) && (a2@ == b2@ ==> x)) && (p.1 matches Err(e)
                    ==> e is DeepRecursion) && (p.1 is Err ==> g2.depth() + expr_height(a2@)
                    > MAX_REC_DEPTH),
            {
                let mut uf = uf;
                let mut g3 = g2;
                let res = compare_nodes(&mut uf, &a2, &b2, use_hash, &mut g3);
                Ok((uf, res))
            };
        let (back, result) = match g.enter(run) {
            Ok(p) => p,
            Err(e) => {
                proof {
                    assert(false);
                }
                return Err(e);
            },
        };
        *self = back;
        let result = match result {
            Ok(x) => x,
            Err(e) => {
                return Err(e);
            },
        };
        if result {
            proof {
                assert(self.node(r1 as int) == before.node(r1 as int));
                assert(self.node(r2 as int) == before.node(r2 as int));
                lemma_entails_symm(eqs, a@, before.node(r1 as int));
                lemma_entails_trans(eqs, before.node(r1 as int), a@, b@);
                lemma_entails_trans(eqs, before.node(r1 as int), b@, before.node(r2 as int));
            }
            self.merge_refs(r1, r2);
        }
        Ok(result)
    }
}

/// The structural comparison under `is_equiv_core`, node by node.
fn compare_nodes(uf: &mut UnionFind, a: &Arc<Expr>, b: &Arc<Expr>, use_hash: bool, g: &mut RecGuard) -> (r:
    Result<bool, KernelError>)
    requires
        old(uf).wf(),
    ensures
        final(uf).wf(),
        final(uf).extends(*old(uf)),
        final(uf).equations() == old(uf).equations(),
        *final(g) == *old(g),
        r matches Ok(x) ==> (x ==> entails(old(uf).equations(), a@, b@)) && (!use_hash
            && equiv_shape(a@, b@) ==> x) && (a@ == b@ ==> x),
        r matches Err(e) ==> e is DeepRecursion,
        old(g).depth() + expr_height(a@) <= MAX_REC_DEPTH ==> r is Ok,
    decreases tree_height(a@), 0nat,
{
    let ghost eqs = uf.eqs@;
    let res: bool = match (&(**a).node, &(**b).node) {
        (ExprNode::BVar { idx: ia }, ExprNode::BVar { idx: ib }) => ia.beq(ib),
        (ExprNode::Const { name: n1, levels: l1 }, ExprNode::Const { name: n2, levels: l2 }) => {
            n1.equal(n2) && levels_eq(l1, l2, g)?
        },
        (ExprNode::MVar { id: i1 }, ExprNode::MVar { id: i2 }) => i1.equal(i2),
        (ExprNode::FVar { id: i1 }, ExprNode::FVar { id: i2 }) => i1.equal(i2),
        (ExprNode::App { f: f1, arg: a1 }, ExprNode::App { f: f2, arg: a2 }) => {
            uf.is_equiv_core(f1, f2, use_hash, g)? && uf.is_equiv_core(a1, a2, use_hash, g)?
        },
        (
            ExprNode::Lam { binder_type: d1, body: b1, .. },
            ExprNode::Lam { binder_type: d2, body: b2, .. },
        ) => {
            uf.is_equiv_core(d1, d2, use_hash, g)? && uf.is_equiv_core(b1, b2, use_hash, g)?
        },
        (
            ExprNode::ForallE { binder_type: d1, body: b1, .. },
            ExprNode::ForallE { binder_type: d2, body: b2, .. },
        ) => {
            uf.is_equiv_core(d1, d2, use_hash, g)? && uf.is_equiv_core(b1, b2, use_hash, g)?
        },
        (ExprNode::Sort { level: l1 }, ExprNode::Sort { level: l2 }) => {
            Level::structural_eq(l1, l2, g)?
        },
        (ExprNode::Lit(v1), ExprNode::Lit(v2)) => literal_eq(v1, v2),
        (ExprNode::MData { expr: e1, .. }, ExprNode::MData { expr: e2, .. }) => {
            uf.is_equiv_core(e1, e2, use_hash, g)?
        },
        (
            ExprNode::Proj { idx: ix1, structure: s1, .. },
            ExprNode::Proj { idx: ix2, structure: s2, .. },
        ) => {
            uf.is_equiv_core(s1, s2, use_hash, g)? && ix1.beq(ix2)
        },
        (
            ExprNode::LetE { ty: t1, value: v1, body: b1, .. },
            ExprNode::LetE { ty: t2, value: v2, body: b2, .. },
        ) => {
            uf.is_equiv_core(t1, t2, use_hash, g)? && uf.is_equiv_core(v1, v2, use_hash, g)?
                && uf.is_equiv_core(b1, b2, use_hash, g)?
        },
        _ => false,
    };
    proof {
        if res {
            lemma_entails_refl(eqs, a@);
            lemma_entails_step(eqs, a@, b@);
        }
    }
    Ok(res)
}

} // verus!
