//! Memo tables of the type checker, keyed by node identity. A table holds
//! each key it records, so an address names one live key while its entry
//! stands; every hit is checked against the key with `same_node`.
use crate::expr::{Expr, SExpr};
use crate::shared::{node_address, same_node, share};
use std::collections::HashMap;
use std::sync::Arc;
use vstd::prelude::*;

verus! {

broadcast use {
    vstd::std_specs::hash::axiom_maps_deref_key_to_value,
    vstd::std_specs::hash::axiom_contains_deref_key,
    vstd::std_specs::hash::axiom_usize_obeys_hash_table_key_model,
    vstd::std_specs::hash::axiom_random_state_builds_valid_hashers,
};

/// A memo table from expressions to expressions.
pub struct ExprCache {
    map: HashMap<usize, (Arc<Expr>, Arc<Expr>)>,
}

impl ExprCache {
    /// The recorded pairs, by their views.
    pub closed spec fn pairs(self) -> Set<(SExpr, SExpr)> {
        Set::new(
            |p: (SExpr, SExpr)|
                exists|a: usize|
                    #![trigger self.map@[a]]
                    self.map@.contains_key(a) && p == (self.map@[a].0@, self.map@[a].1@),
        )
    }

    /// An empty table.
    pub fn new() -> (r: ExprCache)
        ensures
            r.pairs() == Set::<(SExpr, SExpr)>::empty(),
    {
        let r = ExprCache { map: HashMap::new() };
        proof {
            assert(r.pairs() =~= Set::<(SExpr, SExpr)>::empty());
        }
        r
    }

    /// The value recorded for `e`, if any.
    pub fn get(&self, e: &Arc<Expr>) -> (r: Option<Arc<Expr>>)
        ensures
            r matches Some(v) ==> self.pairs().contains((e@, v@)),
    {
        let a = node_address(e);
        match self.map.get(&a) {
            Some(kv) => {
                if same_node(&kv.0, e) {
                    proof {
                        assert(self.map@.contains_key(a) && (e@, kv.1@) == (
                            self.map@[a].0@,
                            self.map@[a].1@,
                        ));
                    }
                    Some(share(&kv.1))
                } else {
                    None
                }
            },
            None => None,
        }
    }

    /// Records `v` for `k`; the pair replaces at most one older pair.
    pub fn insert(&mut self, k: &Arc<Expr>, v: &Arc<Expr>)
        ensures
            final(self).pairs().subset_of(old(self).pairs().insert((k@, v@))),
            final(self).pairs().contains((k@, v@)),
    {
        let a = node_address(k);
        self.map.insert(a, (share(k), share(v)));
        proof {
            assert(self.map@.contains_key(a) && (k@, v@) == (self.map@[a].0@, self.map@[a].1@));
            assert forall|p: (SExpr, SExpr)| #[trigger] self.pairs().contains(p) implies old(
                self,
            ).pairs().insert((k@, v@)).contains(p) by {
                let b = choose|b: usize|
                    #![trigger self.map@[b]]
                    self.map@.contains_key(b) && p == (self.map@[b].0@, self.map@[b].1@);
                if b != a {
                    assert(old(self).map@.contains_key(b) && p == (
                        old(self).map@[b].0@,
                        old(self).map@[b].1@,
                    ));
                }
            }
        }
    }
}

/// A set of expression pairs, keyed by the identity of the first.
pub struct PairCache {
    map: HashMap<usize, Vec<(Arc<Expr>, Arc<Expr>)>>,
}

impl PairCache {
    /// The recorded pairs, by their views.
    pub closed spec fn pairs(self) -> Set<(SExpr, SExpr)> {
        Set::new(
            |p: (SExpr, SExpr)|
                exists|k: usize, i: int|
                    #![trigger self.map@[k]@[i]]
                    self.map@.contains_key(k) && 0 <= i < self.map@[k]@.len() && p == (
                        self.map@[k]@[i].0@,
                        self.map@[k]@[i].1@,
                    ),
        )
    }

    /// An empty set.
    pub fn new() -> (r: PairCache)
        ensures
            r.pairs() == Set::<(SExpr, SExpr)>::empty(),
    {
        let r = PairCache { map: HashMap::new() };
        proof {
            assert(r.pairs() =~= Set::<(SExpr, SExpr)>::empty());
        }
        r
    }

    /// Whether the pair `(a, b)`, by node identity, was recorded. A pair
    /// recorded for other handles of equal values may go unseen.
    pub fn contains(&self, a: &Arc<Expr>, b: &Arc<Expr>) -> (r: bool)
        ensures
            r ==> self.pairs().contains((a@, b@)),
    {
        let k = node_address(a);
        match self.map.get(&k) {
            Some(v) => {
                let mut i: usize = 0;
                while i < v.len()
                    invariant
                        i <= v@.len(),
                        self.map@.contains_key(k),
                        *v == self.map@[k],
                    decreases v@.len() - i,
                {
                    if same_node(&v[i].0, a) && same_node(&v[i].1, b) {
                        proof {
                            assert(self.map@.contains_key(k) && 0 <= i < self.map@[k]@.len() && (
                            a@, b@) == (self.map@[k]@[i as int].0@, self.map@[k]@[i as int].1@));
                        }
                        return true;
                    }
                    i = i + 1;
                }
                false
            },
            None => false,
        }
    }

    /// Records the pair `(a, b)`.
    pub fn insert(&mut self, a: &Arc<Expr>, b: &Arc<Expr>)
        ensures
            final(self).pairs() == old(self).pairs().insert((a@, b@)),
    {
        let k = node_address(a);
        let mut v: Vec<(Arc<Expr>, Arc<Expr>)> = match self.map.remove(&k) {
            Some(v) => v,
            None => Vec::new(),
        };
        let ghost prev = v@;
        proof {
            assert(old(self).map@.contains_key(k) ==> prev == old(self).map@[k]@);
            assert(!old(self).map@.contains_key(k) ==> prev.len() == 0);
        }
        v.push((share(a), share(b)));
        self.map.insert(k, v);
        proof {
            let np = self.pairs();
            let op = old(self).pairs().insert((a@, b@));
            assert(self.map@[k]@ == prev.push((*a, *b)));
            assert forall|p: (SExpr, SExpr)| op.contains(p) implies np.contains(p) by {
                if p == (a@, b@) {
                    let i = prev.len() as int;
                    assert(self.map@[k]@[i].0@ == a@);
                    assert(self.map@.contains_key(k) && 0 <= i < self.map@[k]@.len() && p == (
                        self.map@[k]@[i].0@,
                        self.map@[k]@[i].1@,
                    ));
                } else {
                    let (k2, i) = choose|k2: usize, i: int|
                        #![trigger old(self).map@[k2]@[i]]
                        old(self).map@.contains_key(k2) && 0 <= i < old(self).map@[k2]@.len()
                            && p == (old(self).map@[k2]@[i].0@, old(self).map@[k2]@[i].1@);
                    if k2 == k {
                        assert(self.map@[k]@[i] == old(self).map@[k]@[i]);
                    } else {
                        assert(self.map@[k2] == old(self).map@[k2]);
                    }
                    assert(self.map@.contains_key(k2) && 0 <= i < self.map@[k2]@.len() && p == (
                        self.map@[k2]@[i].0@,
                        self.map@[k2]@[i].1@,
                    ));
                }
            }
            assert forall|p: (SExpr, SExpr)| np.contains(p) implies op.contains(p) by {
                let (k2, i) = choose|k2: usize, i: int|
                    #![trigger self.map@[k2]@[i]]
                    self.map@.contains_key(k2) && 0 <= i < self.map@[k2]@.len() && p == (
                        self.map@[k2]@[i].0@,
                        self.map@[k2]@[i].1@,
                    );
                if k2 == k {
                    if i < prev.len() {
                        assert(old(self).map@.contains_key(k) && 0 <= i < old(self).map@[k]@.len() && p == (
                            old(self).map@[k]@[i].0@,
                            old(self).map@[k]@[i].1@,
                        ));
                    }
                } else {
                    assert(self.map@[k2] == old(self).map@[k2]);
                    assert(old(self).map@.contains_key(k2) && 0 <= i < old(self).map@[k2]@.len() && p == (
                        old(self).map@[k2]@[i].0@,
                        old(self).map@[k2]@[i].1@,
                    ));
                }
            }
            assert(np =~= op);
        }
    }
}

} // verus!
