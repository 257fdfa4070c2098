//! Hash-consing of universe levels: a batch canonicalizer that maps
//! structurally equal levels to one shared `Arc`. Interning only ever
//! replaces a level by an equal one.
use crate::error::KernelError;
use crate::guard::{RecGuard, MAX_REC_DEPTH};
use crate::level::{level_height, Level, SLevel};
use crate::shared::{node_address, same_node, share};
use std::collections::HashMap;
use std::sync::Arc;
use vstd::prelude::*;

verus! {

broadcast use {
    vstd::std_specs::hash::axiom_maps_deref_key_to_value,
    vstd::std_specs::hash::axiom_contains_deref_key,
    vstd::std_specs::hash::axiom_deref_key_removed,
    vstd::std_specs::hash::axiom_u64_obeys_hash_table_key_model,
    vstd::std_specs::hash::axiom_usize_obeys_hash_table_key_model,
    vstd::std_specs::hash::axiom_random_state_builds_valid_hashers,
};

/// Canonical levels bucketed by structural hash, and the levels already
/// interned by node identity.
pub struct Interner {
    levels: HashMap<u64, Vec<Arc<Level>>>,
    level_memo: HashMap<usize, (Arc<Level>, Arc<Level>)>,
}

impl Interner {
    /// Every remembered canonical level equals the level it stands for.
    pub closed spec fn wf(self) -> bool {
        forall|k: usize|
            #[trigger] self.level_memo@.contains_key(k) ==> self.level_memo@[k].0@
                == self.level_memo@[k].1@
    }

    /// An empty interner.
    pub fn new() -> (r: Interner)
        ensures
            r.wf(),
    {
        Interner { levels: HashMap::new(), level_memo: HashMap::new() }
    }

    /// The canonical level equal to `l`, built bottom-up from canonical
    /// children; a structurally equal level interned before comes back as
    /// the same `Arc`.
    pub fn intern_level(&mut self, l: &Arc<Level>, g: &mut RecGuard) -> (r: Result<
        Arc<Level>,
        KernelError,
    >)
        requires
            old(self).wf(),
        ensures
            final(self).wf(),
            *final(g) == *old(g),
            r matches Ok(c) ==> c@ == l@,
            r matches Err(e) ==> e is DeepRecursion,
            old(g).depth() + level_height(l@) < MAX_REC_DEPTH ==> r is Ok,
        decreases l, 1nat,
    {
        let key = node_address(l);
        let hit = match self.level_memo.get(&key) {
            Some(p) => {
                if same_node(&p.0, l) {
                    Some(share(&p.1))
                } else {
                    None
                }
            },
            None => None,
        };
        if let Some(c) = hit {
            return Ok(c);
        }
        if g.current_depth() >= MAX_REC_DEPTH {
            return Err(KernelError::DeepRecursion);
        }
        let mut it = Interner::new();
        std::mem::swap(self, &mut it);
        let l2 = share(l);
        let run = move |g2: RecGuard| -> (r: Result<(Interner, Result<Arc<Level>, KernelError>), KernelError>)
            requires
                it.wf(),
            ensures
                r matches Ok(p) && p.0.wf() && (p.1 matches Ok(c) ==> c@ == l2@) && (p.1 matches Err(
                    e,
                ) ==> e is DeepRecursion) && (p.1 is Err ==> g2.depth() + level_height(l2@)
                    > MAX_REC_DEPTH),
            {
                let mut it = it;
                let mut g3 = g2;
                let res = canonicalize(&mut it, &l2, &mut g3);
                Ok((it, res))
            };
        let (back, res) = match g.enter(run) {
            Ok(p) => p,
            Err(e) => {
                proof {
                    assert(false);
                }
                return Err(e);
            },
        };
        *self = back;
        let canon = match res {
            Ok(c) => c,
            Err(e) => {
                return Err(e);
            },
        };
        self.level_memo.insert(key, (share(l), share(&canon)));
        Ok(canon)
    }
}

/// Rebuilds `l` with canonical children and returns the bucket's equal
/// level, or records the rebuilt one as canonical.
fn canonicalize(it: &mut Interner, l: &Arc<Level>, g: &mut RecGuard) -> (r: Result<
    Arc<Level>,
    KernelError,
>)
    requires
        old(it).wf(),
    ensures
        final(it).wf(),
        *final(g) == *old(g),
        r matches Ok(c) ==> c@ == l@,
        r matches Err(e) ==> e is DeepRecursion,
        old(g).depth() + level_height(l@) <= MAX_REC_DEPTH ==> r is Ok,
    decreases l, 0nat,
{
    let rebuilt: Arc<Level> = match &**l {
        Level::Zero | Level::Param(_) | Level::MVar(_) => share(l),
        Level::Succ(a) => Arc::new(Level::Succ(it.intern_level(a, g)?)),
        Level::Max(a, b) => {
            let a2 = it.intern_level(a, g)?;
            let b2 = it.intern_level(b, g)?;
            Arc::new(Level::Max(a2, b2))
        },
        Level::IMax(a, b) => {
            let a2 = it.intern_level(a, g)?;
            let b2 = it.intern_level(b, g)?;
            Arc::new(Level::IMax(a2, b2))
        },
    };
    let h = Level::hash_val(&rebuilt, g)?;
    let mut bucket = match it.levels.remove(&h) {
        Some(b) => b,
        None => Vec::new(),
    };
    let mut i: usize = 0;
    while i < bucket.len()
        invariant
            i <= bucket@.len(),
            *g == *old(g),
            rebuilt@ == l@,
            it.wf(),
        decreases bucket@.len() - i,
    {
        let same = match Level::structural_eq(&rebuilt, &bucket[i], g) {
            Ok(x) => x,
            Err(e) => {
                it.levels.insert(h, bucket);
                return Err(e);
            },
        };
        if same {
            let c = share(&bucket[i]);
            it.levels.insert(h, bucket);
            return Ok(c);
        }
        i = i + 1;
    }
    bucket.push(share(&rebuilt));
    it.levels.insert(h, bucket);
    Ok(rebuilt)
}

impl Default for Interner {
    fn default() -> (r: Interner)
        ensures
            r.wf(),
    {
        Interner::new()
    }
}

} // verus!
