//! The environment: the admitted constants, found by name, and whether
//! the quotient extension is initialized; and the admission checks on a
//! constant's name, universe parameters and type that need no type
//! checker. Constants are found through buckets keyed by the hash of
//! their name.
use crate::decl::{ConstantInfo, ConstantVal};
use crate::error::KernelError;
use crate::expr::Expr;
use crate::expr_laws::{expr_has_expr_mvar, expr_has_fvar, expr_has_level_mvar, lemma_flags_exact};
use crate::level::names_view;
use crate::name::{name_hash, Name, NameComp};
use crate::shared::share;
use std::collections::HashMap;
use std::sync::Arc;
use vstd::prelude::*;

verus! {

broadcast use {
    vstd::std_specs::hash::axiom_maps_deref_key_to_value,
    vstd::std_specs::hash::axiom_contains_deref_key,
    vstd::std_specs::hash::axiom_deref_key_removed,
    vstd::std_specs::hash::axiom_u64_obeys_hash_table_key_model,
    vstd::std_specs::hash::axiom_random_state_builds_valid_hashers,
};

/// Why building an environment failed.
#[derive(Debug)]
pub enum EnvironmentError {
    DuplicateName(Arc<Name>),
    Bank(KernelError),
}

/// The name of a constant.
pub open spec fn const_name(c: ConstantInfo) -> Seq<NameComp> {
    c.spec_constant_val().name@
}

/// Whether a constant of `cs` is named `n`.
pub open spec fn declares(cs: Seq<ConstantInfo>, n: Seq<NameComp>) -> bool {
    exists|i: int| 0 <= i < cs.len() && const_name(#[trigger] cs[i]) == n
}

/// No two constants share a name.
pub open spec fn names_distinct(cs: Seq<ConstantInfo>) -> bool {
    forall|i: int, j: int|
        0 <= i < j < cs.len() ==> const_name(#[trigger] cs[i]) != const_name(#[trigger] cs[j])
}

/// Every name `old` declares, `new` declares too.
pub open spec fn keeps_names(new: Seq<ConstantInfo>, old: Seq<ConstantInfo>) -> bool {
    forall|n: Seq<NameComp>| declares(old, n) ==> #[trigger] declares(new, n)
}

/// The constant of `cs` named `n`, if any.
pub open spec fn lookup(cs: Seq<ConstantInfo>, n: Seq<NameComp>) -> Option<ConstantInfo> {
    if declares(cs, n) {
        Some(cs[choose|i: int| 0 <= i < cs.len() && const_name(#[trigger] cs[i]) == n])
    } else {
        None
    }
}

/// The bucket key of a constant: the hash of its name.
#[verifier::opaque]
pub open spec fn key_of(c: ConstantInfo) -> u64 {
    name_hash(const_name(c))
}

/// Each constant sits in the bucket of its key.
pub open spec fn bucketed(cs: Seq<ConstantInfo>, m: Map<u64, Vec<usize>>) -> bool {
    forall|i: int|
        0 <= i < cs.len() ==> #[trigger] m.contains_key(key_of(cs[i])) && m[key_of(
            cs[i],
        )]@.contains(i as usize)
}

/// A declared name is found in the bucket of its hash.
proof fn lemma_in_bucket(cs: Seq<ConstantInfo>, m: Map<u64, Vec<usize>>, n: Seq<NameComp>)
    requires
        bucketed(cs, m),
        declares(cs, n),
        cs.len() <= usize::MAX,
    ensures
        m.contains_key(name_hash(n)),
        exists|j: int|
            0 <= j < m[name_hash(n)]@.len() && m[name_hash(n)]@[j] < cs.len() && const_name(
                cs[m[name_hash(n)]@[j] as int],
            ) == n,
{
    let i = choose|i: int| 0 <= i < cs.len() && const_name(#[trigger] cs[i]) == n;
    reveal(key_of);
    assert(key_of(cs[i]) == name_hash(n));
    assert(m.contains_key(key_of(cs[i])));
    let ps = m[name_hash(n)]@;
    assert(ps.contains(i as usize));
    let j = choose|j: int| 0 <= j < ps.len() && ps[j] == i as usize;
    assert(ps[j] < cs.len() && const_name(cs[ps[j] as int]) == n);
}

proof fn lemma_distinct_push(cs: Seq<ConstantInfo>, c: ConstantInfo)
    requires
        names_distinct(cs),
        !declares(cs, const_name(c)),
    ensures
        names_distinct(cs.push(c)),
{
    let s = cs.push(c);
    assert forall|i: int, j: int| 0 <= i < j < s.len() implies const_name(#[trigger] s[i])
        != const_name(#[trigger] s[j]) by {
        assert(s[i] == cs[i]);
        if j < cs.len() {
            assert(s[j] == cs[j]);
        }
    }
}

proof fn lemma_bucketed_push(
    cs: Seq<ConstantInfo>,
    m: Map<u64, Vec<usize>>,
    c: ConstantInfo,
    m2: Map<u64, Vec<usize>>,
    h: u64,
    b0: Seq<usize>,
)
    requires
        bucketed(cs, m),
        key_of(c) == h,
        cs.len() < usize::MAX,
        m2.contains_key(h),
        m.contains_key(h) ==> b0 == m[h]@,
        m2[h]@ == b0.push(cs.len() as usize),
        forall|k: u64| k != h ==> (m2.contains_key(k) == m.contains_key(k) && (m.contains_key(k)
            ==> m2[k] == m[k])),
    ensures
        bucketed(cs.push(c), m2),
{
    let s = cs.push(c);
    assert forall|i: int| 0 <= i < s.len() implies #[trigger] m2.contains_key(key_of(s[i]))
        && m2[key_of(s[i])]@.contains(i as usize) by {
        if i < cs.len() {
            assert(s[i] == cs[i]);
            assert(m.contains_key(key_of(cs[i])));
            let hi = key_of(cs[i]);
            assert(m[hi]@.contains(i as usize));
            if hi == h {
                let w = choose|w: int| 0 <= w < b0.len() && b0[w] == i as usize;
                assert(m2[h]@[w] == i as usize);
            }
        } else {
            assert(m2[h]@[b0.len() as int] == i as usize);
        }
    }
}

/// The admitted constants.
pub struct Environment {
    constants: Vec<ConstantInfo>,
    buckets: HashMap<u64, Vec<usize>>,
    quot_initialized: bool,
}

impl Environment {
    /// The admitted constants, in admission order.
    pub closed spec fn constants(self) -> Seq<ConstantInfo> {
        self.constants@
    }

    /// Whether the quotient extension is initialized.
    pub closed spec fn quot_init(self) -> bool {
        self.quot_initialized
    }

    /// Names are distinct and each constant sits in the bucket of its
    /// name's hash.
    #[verifier::type_invariant]
    closed spec fn indexed(self) -> bool {
        &&& names_distinct(self.constants@)
        &&& bucketed(self.constants@, self.buckets@)
    }

    /// An empty environment.
    pub fn new() -> (r: Environment)
        ensures
            r.constants() == Seq::<ConstantInfo>::empty(),
            !r.quot_init(),
    {
        Environment { constants: Vec::new(), buckets: HashMap::new(), quot_initialized: false }
    }

    /// The position of the constant named `n`.
    #[verifier::spinoff_prover]
    fn position(&self, n: &Name) -> (r: Option<usize>)
        ensures
            r matches Some(p) ==> p < self.constants@.len() && const_name(self.constants@[p as int])
                == n@,
            r is None ==> !declares(self.constants@, n@),
    {
        proof {
            use_type_invariant(self);
        }
        let h = n.hash_u64();
        let len = self.constants.len();
        let ghost cs = self.constants@;
        let ghost m = self.buckets@;
        proof {
            assert(bucketed(cs, m));
            assert(cs.len() == len);
        }
        match self.buckets.get(&h) {
            None => {
                proof {
                    assert(!m.contains_key(h));
                    if declares(cs, n@) {
                        lemma_in_bucket(cs, m, n@);
                    }
                }
                None
            },
            Some(ps) => {
                proof {
                    assert(m.contains_key(h) && m[h] == *ps);
                }
                let found = find_in_bucket(&self.constants, ps, n);
                proof {
                    if found is None && declares(cs, n@) {
                        lemma_in_bucket(cs, m, n@);
                    }
                }
                found
            },
        }
    }

    /// The constant named `n`.
    pub fn get(&self, n: &Name) -> (r: Option<&ConstantInfo>)
        ensures
            match lookup(self.constants(), n@) {
                Some(c) => r matches Some(x) && *x == c,
                None => r is None,
            },
    {
        proof {
            use_type_invariant(self);
        }
        match self.position(n) {
            Some(p) => {
                proof {
                    lemma_lookup_at(self.constants@, n@, p as int);
                }
                Some(&self.constants[p])
            },
            None => None,
        }
    }

    /// The constant named `n`, or `UnknownConstant`.
    pub fn get_with(&self, n: &Arc<Name>) -> (r: Result<&ConstantInfo, KernelError>)
        ensures
            match lookup(self.constants(), n@) {
                Some(c) => r matches Ok(x) && *x == c,
                None => r matches Err(e) && e matches KernelError::UnknownConstant(m) && m@ == n@,
            },
    {
        match self.get(n) {
            Some(c) => Ok(c),
            None => Err(KernelError::UnknownConstant(share(n))),
        }
    }

    /// Whether `name` is an inductive type with one constructor, no
    /// indices, and no recursion.
    pub fn is_structure_like(&self, name: &Name) -> (r: bool)
        ensures
            r == (match lookup(self.constants(), name@) {
                Some(ConstantInfo::Induct(v)) => v.ctors@.len() == 1 && v.num_indices@ == 0
                    && !v.is_rec,
                _ => false,
            }),
    {
        match self.get(name) {
            Some(ConstantInfo::Induct(v)) => v.ctors.len() == 1 && v.num_indices.is_zero() && !v.is_rec,
            _ => false,
        }
    }

    /// Whether the quotient extension is initialized.
    pub fn quot_initialized(&self) -> (r: bool)
        ensures
            r == self.quot_init(),
    {
        self.quot_initialized
    }

    /// The number of constants.
    pub fn len(&self) -> (r: usize)
        ensures
            r == self.constants().len(),
    {
        self.constants.len()
    }

    /// Whether there are no constants.
    pub fn is_empty(&self) -> (r: bool)
        ensures
            r == (self.constants().len() == 0),
    {
        self.constants.len() == 0
    }

    /// Adds `ci` without checking it, unless its name is taken.
    pub fn admit_unchecked(&mut self, ci: ConstantInfo) -> (r: Result<(), EnvironmentError>)
        ensures
            final(self).quot_init() == old(self).quot_init(),
            match r {
                Ok(()) => !declares(old(self).constants(), const_name(ci))
                    && final(self).constants() == old(self).constants().push(ci),
                Err(e) => declares(old(self).constants(), const_name(ci)) && final(self).constants()
                    == old(self).constants() && (match e {
                    EnvironmentError::DuplicateName(d) => d@ == const_name(ci),
                    _ => false,
                }),
            },
    {
        proof {
            use_type_invariant(&*self);
        }
        let name = share(ci.name());
        if self.get(&name).is_some() {
            return Err(EnvironmentError::DuplicateName(name));
        }
        let h = name.hash_u64();
        let mut me = Environment::new();
        std::mem::swap(self, &mut me);
        let Environment { mut constants, mut buckets, quot_initialized } = me;
        let idx = constants.len();
        let ghost old_cs = constants@;
        let ghost old_b = buckets@;
        let mut bucket = match buckets.remove(&h) {
            Some(b) => b,
            None => Vec::new(),
        };
        let ghost b0 = bucket@;
        bucket.push(idx);
        constants.push(ci);
        let _grown = constants.len();
        buckets.insert(h, bucket);
        proof {
            assert(buckets@[h]@ == b0.push(idx));
            assert(old_b.contains_key(h) ==> b0 == old_b[h]@);
        }
        proof {
            assert(key_of(ci) == h) by {
                reveal(key_of);
            }
            lemma_distinct_push(old_cs, ci);
            lemma_bucketed_push(old_cs, old_b, ci, buckets@, h, b0);
        }
        *self = Environment { constants, buckets, quot_initialized };
        Ok(())
    }
}

/// The first position in `ps` that holds a constant named `n`.
fn find_in_bucket(cs: &Vec<ConstantInfo>, ps: &Vec<usize>, n: &Name) -> (r: Option<usize>)
    ensures
        r matches Some(p) ==> p < cs@.len() && const_name(cs@[p as int]) == n@,
        r is None ==> forall|j: int|
            0 <= j < ps@.len() ==> ps@[j] >= cs@.len() || const_name(cs@[ps@[j] as int]) != n@,
{
    let mut k: usize = 0;
    while k < ps.len()
        invariant
            k <= ps@.len(),
            forall|j: int|
                0 <= j < k ==> ps@[j] >= cs@.len() || const_name(cs@[ps@[j] as int]) != n@,
        decreases ps@.len() - k,
    {
        let p = ps[k];
        if p < cs.len() && cs[p].name().equal(n) {
            return Some(p);
        }
        k = k + 1;
    }
    None
}

/// With distinct names, a constant named `n` is the one `lookup` finds.
proof fn lemma_lookup_at(cs: Seq<ConstantInfo>, n: Seq<NameComp>, p: int)
    requires
        names_distinct(cs),
        0 <= p < cs.len(),
        const_name(cs[p]) == n,
    ensures
        lookup(cs, n) == Some(cs[p]),
{
    assert(declares(cs, n));
    let i = choose|i: int| 0 <= i < cs.len() && const_name(#[trigger] cs[i]) == n;
    if i < p {
        assert(const_name(cs[i]) != const_name(cs[p]));
    } else if i > p {
        assert(const_name(cs[p]) != const_name(cs[i]));
    }
}

/// `cs` with `c` in place of the constant of the same name, or with `c`
/// after the others when no constant has its name.
pub open spec fn put(cs: Seq<ConstantInfo>, c: ConstantInfo) -> Seq<ConstantInfo> {
    if declares(cs, const_name(c)) {
        cs.update(
            choose|i: int| 0 <= i < cs.len() && const_name(#[trigger] cs[i]) == const_name(c),
            c,
        )
    } else {
        cs.push(c)
    }
}

/// With distinct names, `put` keeps them distinct, finds `c` under its
/// name and leaves every other name as it was.
proof fn lemma_put(cs: Seq<ConstantInfo>, c: ConstantInfo)
    requires
        names_distinct(cs),
    ensures
        names_distinct(put(cs, c)),
        forall|n: Seq<NameComp>|
            #[trigger] lookup(put(cs, c), n) == if n == const_name(c) {
                Some(c)
            } else {
                lookup(cs, n)
            },
{
    let s = put(cs, c);
    if declares(cs, const_name(c)) {
        let p = choose|i: int| 0 <= i < cs.len() && const_name(#[trigger] cs[i]) == const_name(c);
        assert(s == cs.update(p, c));
        assert forall|i: int, j: int| 0 <= i < j < s.len() implies const_name(#[trigger] s[i])
            != const_name(#[trigger] s[j]) by {
            if i == p {
                assert(const_name(cs[j]) != const_name(cs[p]));
            } else if j == p {
                assert(const_name(cs[i]) != const_name(cs[p]));
            } else {
                assert(s[i] == cs[i] && s[j] == cs[j]);
            }
        }
        assert forall|n: Seq<NameComp>| #[trigger]
            lookup(s, n) == if n == const_name(c) {
                Some(c)
            } else {
                lookup(cs, n)
            } by {
            if n == const_name(c) {
                lemma_lookup_at(s, n, p);
            } else if declares(cs, n) {
                let k = choose|i: int| 0 <= i < cs.len() && const_name(#[trigger] cs[i]) == n;
                assert(k != p);
                assert(s[k] == cs[k]);
                lemma_lookup_at(s, n, k);
                lemma_lookup_at(cs, n, k);
            } else {
                if declares(s, n) {
                    let k = choose|i: int| 0 <= i < s.len() && const_name(#[trigger] s[i]) == n;
                    assert(k != p);
                    assert(s[k] == cs[k]);
                    assert(declares(cs, n));
                }
            }
        }
    } else {
        lemma_distinct_push(cs, c);
        assert forall|n: Seq<NameComp>| #[trigger]
            lookup(s, n) == if n == const_name(c) {
                Some(c)
            } else {
                lookup(cs, n)
            } by {
            if n == const_name(c) {
                lemma_lookup_at(s, n, cs.len() as int);
            } else if declares(cs, n) {
                let k = choose|i: int| 0 <= i < cs.len() && const_name(#[trigger] cs[i]) == n;
                assert(s[k] == cs[k]);
                lemma_lookup_at(s, n, k);
                lemma_lookup_at(cs, n, k);
            } else {
                if declares(s, n) {
                    let k = choose|i: int| 0 <= i < s.len() && const_name(#[trigger] s[i]) == n;
                    assert(k < cs.len());
                    assert(s[k] == cs[k]);
                    assert(declares(cs, n));
                }
            }
        }
    }
}

impl Environment {
    /// Drops every constant admitted after the first `n`.
    pub(crate) fn truncate(&mut self, n: usize)
        requires
            n <= old(self).constants().len(),
        ensures
            final(self).constants() == old(self).constants().take(n as int),
            final(self).quot_init() == old(self).quot_init(),
    {
        let _ = self.split_off(n);
    }

    /// Removes and gives back every constant admitted after the first
    /// `n`, in admission order.
    pub(crate) fn split_off(&mut self, n: usize) -> (r: Vec<ConstantInfo>)
        requires
            n <= old(self).constants().len(),
        ensures
            final(self).constants() == old(self).constants().take(n as int),
            r@ == old(self).constants().skip(n as int),
            final(self).quot_init() == old(self).quot_init(),
    {
        proof {
            use_type_invariant(&*self);
        }
        let mut me = Environment::new();
        std::mem::swap(self, &mut me);
        let Environment { mut constants, buckets: _, quot_initialized } = me;
        let ghost whole = constants@;
        let tail = constants.split_off(n);
        let ghost cs = constants@;
        proof {
            assert(cs =~= whole.take(n as int));
            assert(tail@ =~= whole.skip(n as int));
            assert forall|i: int, j: int| 0 <= i < j < cs.len() implies const_name(#[trigger] cs[i])
                != const_name(#[trigger] cs[j]) by {
                assert(cs[i] == whole[i] && cs[j] == whole[j]);
            }
        }
        let mut buckets: HashMap<u64, Vec<usize>> = HashMap::new();
        let mut i: usize = 0;
        proof {
            assert(bucketed(cs.take(0), buckets@));
        }
        while i < constants.len()
            invariant
                i <= cs.len(),
                constants@ == cs,
                bucketed(cs.take(i as int), buckets@),
            decreases cs.len() - i,
        {
            let h = constants[i].name().hash_u64();
            let ghost old_b = buckets@;
            let mut bucket = match buckets.remove(&h) {
                Some(b) => b,
                None => Vec::new(),
            };
            let ghost b0 = bucket@;
            bucket.push(i);
            buckets.insert(h, bucket);
            proof {
                assert(buckets@[h]@ == b0.push(i));
                assert(old_b.contains_key(h) ==> b0 == old_b[h]@);
                assert(key_of(cs[i as int]) == h) by {
                    reveal(key_of);
                }
                assert(cs.take(i as int).len() == i);
                lemma_bucketed_push(cs.take(i as int), old_b, cs[i as int], buckets@, h, b0);
                assert(cs.take(i as int).push(cs[i as int]) =~= cs.take(i + 1));
            }
            i = i + 1;
        }
        proof {
            assert(cs.take(i as int) =~= cs);
        }
        *self = Environment { constants, buckets, quot_initialized };
        tail
    }
}

impl Environment {
    /// Adds `ci` unchecked, in place of any constant of the same name.
    pub(crate) fn add_core(&mut self, ci: ConstantInfo)
        ensures
            final(self).quot_init() == old(self).quot_init(),
            final(self).constants() == put(old(self).constants(), ci),
            forall|n: Seq<NameComp>|
                #[trigger] lookup(final(self).constants(), n) == if n == const_name(ci) {
                    Some(ci)
                } else {
                    lookup(old(self).constants(), n)
                },
    {
        proof {
            use_type_invariant(&*self);
            lemma_put(self.constants@, ci);
        }
        let name = share(ci.name());
        match self.position(&name) {
            None => {
                let _ = self.admit_unchecked(ci);
            },
            Some(p) => {
                let ghost old_cs = self.constants@;
                let ghost old_b = self.buckets@;
                proof {
                    let q = choose|i: int|
                        0 <= i < old_cs.len() && const_name(#[trigger] old_cs[i]) == const_name(ci);
                    if q != p as int {
                        if q < p {
                            assert(const_name(old_cs[q]) != const_name(old_cs[p as int]));
                        } else {
                            assert(const_name(old_cs[p as int]) != const_name(old_cs[q]));
                        }
                    }
                }
                let mut me = Environment::new();
                std::mem::swap(self, &mut me);
                let Environment { mut constants, buckets, quot_initialized } = me;
                constants.set(p, ci);
                proof {
                    let s = constants@;
                    assert(s == put(old_cs, ci));
                    assert(key_of(ci) == key_of(old_cs[p as int])) by {
                        reveal(key_of);
                    }
                    assert forall|i: int| 0 <= i < s.len() implies #[trigger] buckets@.contains_key(
                        key_of(s[i]),
                    ) && buckets@[key_of(s[i])]@.contains(i as usize) by {
                        if i != p as int {
                            assert(s[i] == old_cs[i]);
                        }
                        assert(old_b.contains_key(key_of(old_cs[i])));
                    }
                }
                *self = Environment { constants, buckets, quot_initialized };
            },
        }
    }

    /// Marks the quotient extension initialized.
    pub(crate) fn set_quot_initialized(&mut self)
        ensures
            final(self).quot_init(),
            final(self).constants() == old(self).constants(),
    {
        proof {
            use_type_invariant(&*self);
        }
        self.quot_initialized = true;
    }
}

impl Default for Environment {
    fn default() -> (r: Environment)
        ensures
            r.constants() == Seq::<ConstantInfo>::empty(),
            !r.quot_init(),
    {
        Environment::new()
    }
}

/// The constants of `ms`, module after module.
pub open spec fn flat_modules(ms: Seq<Vec<ConstantInfo>>) -> Seq<ConstantInfo>
    decreases ms.len(),
{
    if ms.len() == 0 {
        Seq::empty()
    } else {
        flat_modules(ms.drop_last()) + ms.last()@
    }
}

/// Position `j` of `cs` holds the first constant whose name was already
/// taken by an earlier one.
pub open spec fn first_repeat_at(cs: Seq<ConstantInfo>, j: int) -> bool {
    &&& 0 <= j < cs.len()
    &&& names_distinct(cs.take(j))
    &&& declares(cs.take(j), const_name(cs[j]))
}

/// The constants of the first `k` modules come first in all of them.
proof fn lemma_flat_prefix(ms: Seq<Vec<ConstantInfo>>, k: int)
    requires
        0 <= k <= ms.len(),
    ensures
        flat_modules(ms).take(flat_modules(ms.take(k)).len() as int) == flat_modules(ms.take(k)),
        flat_modules(ms.take(k)).len() <= flat_modules(ms).len(),
    decreases ms.len(),
{
    if k == ms.len() {
        assert(ms.take(k) =~= ms);
        assert(flat_modules(ms).take(flat_modules(ms).len() as int) =~= flat_modules(ms));
    } else {
        let ms2 = ms.drop_last();
        assert(ms.take(k) =~= ms2.take(k));
        lemma_flat_prefix(ms2, k);
        let a = flat_modules(ms2.take(k));
        assert(flat_modules(ms) == flat_modules(ms2) + ms.last()@);
        assert(flat_modules(ms).take(a.len() as int) =~= flat_modules(ms2).take(a.len() as int));
    }
}

/// A sequence with a repeated name has no distinct names.
proof fn lemma_repeat_not_distinct(cs: Seq<ConstantInfo>, j: int)
    requires
        first_repeat_at(cs, j),
    ensures
        !names_distinct(cs),
{
    let t = cs.take(j);
    let i = choose|i: int| 0 <= i < t.len() && const_name(#[trigger] t[i]) == const_name(cs[j]);
    assert(cs[i] == t[i]);
    assert(const_name(cs[i]) == const_name(cs[j]));
}

impl Environment {
    /// An environment holding the constants of `modules`, module after
    /// module, unless two of them share a name: then the name of the
    /// first constant that repeats an earlier one.
    pub fn from_modules(modules: Vec<Vec<ConstantInfo>>) -> (r: Result<
        Environment,
        EnvironmentError,
    >)
        ensures
            r is Ok <==> names_distinct(flat_modules(modules@)),
            r matches Ok(env) ==> env.constants() == flat_modules(modules@) && !env.quot_init(),
            r matches Err(e) ==> e matches EnvironmentError::DuplicateName(d) && exists|j: int|
                first_repeat_at(flat_modules(modules@), j) && d@ == const_name(
                    flat_modules(modules@)[j],
                ),
    {
        let ghost ms = modules@;
        let mut env = Environment::new();
        proof {
            assert(ms.take(0) =~= Seq::<Vec<ConstantInfo>>::empty());
        }
        for module in it: modules
            invariant
                it.seq() == ms,
                env.constants() == flat_modules(ms.take(it.index() as int)),
                !env.quot_init(),
        {
            let ghost k = it.index() as int;
            let ghost before = env.constants();
            proof {
                assert(module == ms[k]);
                assert(ms.take(k + 1).drop_last() =~= ms.take(k));
                assert(flat_modules(ms.take(k + 1)) == before + module@);
                lemma_flat_prefix(ms, k + 1);
            }
            for ci in it2: module
                invariant
                    it2.seq() == ms[k]@,
                    ms == modules@,
                    0 <= k < ms.len(),
                    flat_modules(ms.take(k + 1)) == before + ms[k]@,
                    flat_modules(ms).take(flat_modules(ms.take(k + 1)).len() as int)
                        == flat_modules(ms.take(k + 1)),
                    flat_modules(ms.take(k + 1)).len() <= flat_modules(ms).len(),
                    env.constants() == before + ms[k]@.take(it2.index() as int),
                    !env.quot_init(),
            {
                let ghost i = it2.index() as int;
                let ghost cs = env.constants();
                proof {
                    use_type_invariant(&env);
                    assert(ci == ms[k]@[i]);
                }
                match env.admit_unchecked(ci) {
                    Ok(()) => {
                        proof {
                            assert(ms[k]@.take(i + 1) =~= ms[k]@.take(i).push(ci));
                        }
                    },
                    Err(e) => {
                        proof {
                            let flat = flat_modules(ms);
                            let j = cs.len() as int;
                            assert(flat.take(j) =~= cs) by {
                                assert(flat.take(j) =~= flat_modules(ms.take(k + 1)).take(j));
                            }
                            assert(flat[j] == flat_modules(ms.take(k + 1))[j]);
                            assert(flat[j] == ci);
                            assert(first_repeat_at(flat, j));
                            lemma_repeat_not_distinct(flat, j);
                        }
                        return Err(e);
                    },
                }
            }
            proof {
                assert(ms[k]@.take(ms[k]@.len() as int) =~= ms[k]@);
            }
        }
        proof {
            use_type_invariant(&env);
            assert(ms.take(ms.len() as int) =~= ms);
        }
        Ok(env)
    }
}

/// `AlreadyDeclared` when `n` names a constant of `env`.
pub fn check_name(env: &Environment, n: &Arc<Name>) -> (r: Result<(), KernelError>)
    ensures
        r is Ok <==> !declares(env.constants(), n@),
        r matches Err(e) ==> e matches KernelError::AlreadyDeclared(m) && m@ == n@,
{
    if env.get(n).is_some() {
        return Err(KernelError::AlreadyDeclared(share(n)));
    }
    Ok(())
}

/// Whether the name at position `i` of `ls` occurs again later.
pub open spec fn repeated_later(ls: Seq<Seq<NameComp>>, i: int) -> bool {
    exists|j: int| i < j < ls.len() && ls[j] == ls[i]
}

/// `DuplicateUnivParam` for the first universe parameter that occurs
/// again later in `ls`.
pub fn check_duplicated_univ_params(ls: &[Arc<Name>]) -> (r: Result<(), KernelError>)
    ensures
        r is Ok <==> (forall|i: int| 0 <= i < ls@.len() ==> !repeated_later(names_view(ls@), i)),
        r matches Err(e) ==> e matches KernelError::DuplicateUnivParam(p) && exists|i: int|
            0 <= i < ls@.len() && repeated_later(names_view(ls@), i) && p@ == ls@[i]@ && forall|
                k: int,
            | 0 <= k < i ==> !repeated_later(names_view(ls@), k),
{
    let ghost v = names_view(ls@);
    let mut i: usize = 0;
    while i < ls.len()
        invariant
            v == names_view(ls@),
            i <= ls@.len(),
            forall|k: int| 0 <= k < i ==> !repeated_later(v, k),
        decreases ls@.len() - i,
    {
        let mut j: usize = i + 1;
        while j < ls.len()
            invariant
                v == names_view(ls@),
                i < ls@.len(),
                i + 1 <= j <= ls@.len(),
                forall|k: int| 0 <= k < i ==> !repeated_later(v, k),
                forall|m: int| i < m < j ==> v[m] != v[i as int],
            decreases ls@.len() - j,
        {
            if ls[j].equal(&ls[i]) {
                proof {
                    assert(v[j as int] == v[i as int]);
                    assert(repeated_later(v, i as int));
                }
                return Err(KernelError::DuplicateUnivParam(share(&ls[i])));
            }
            j = j + 1;
        }
        i = i + 1;
    }
    Ok(())
}

/// `HasMetavars` when `e` holds a metavariable, else `HasFVars` when it
/// holds a free variable; both name the constant `n`.
pub fn check_no_metavar_no_fvar(n: &Arc<Name>, e: &Arc<Expr>) -> (r: Result<(), KernelError>)
    ensures
        (expr_has_expr_mvar(e@) || expr_has_level_mvar(e@)) ==> (match r {
            Err(KernelError::HasMetavars(m)) => m@ == n@,
            _ => false,
        }),
        !(expr_has_expr_mvar(e@) || expr_has_level_mvar(e@)) && expr_has_fvar(e@) ==> (match r {
            Err(KernelError::HasFVars(m)) => m@ == n@,
            _ => false,
        }),
        !(expr_has_expr_mvar(e@) || expr_has_level_mvar(e@) || expr_has_fvar(e@)) ==> r is Ok,
{
    let d = e.data();
    proof {
        lemma_flags_exact(e@);
    }
    if d.has_expr_mvar() || d.has_level_mvar() {
        return Err(KernelError::HasMetavars(share(n)));
    }
    if d.has_fvar() {
        return Err(KernelError::HasFVars(share(n)));
    }
    Ok(())
}

/// The checks on a constant's name, universe parameters and type that
/// need no type checker, in that order.
pub fn check_constant_val_pre(env: &Environment, v: &ConstantVal) -> (r: Result<(), KernelError>)
    ensures
        r is Ok <==> !declares(env.constants(), v.name@) && (forall|i: int|
            0 <= i < v.level_params@.len() ==> !repeated_later(names_view(v.level_params@), i))
            && !(expr_has_expr_mvar(v.ty@) || expr_has_level_mvar(v.ty@) || expr_has_fvar(v.ty@)),
        declares(env.constants(), v.name@) ==> (match r {
            Err(KernelError::AlreadyDeclared(m)) => m@ == v.name@,
            _ => false,
        }),
        !declares(env.constants(), v.name@) && (exists|i: int|
            0 <= i < v.level_params@.len() && repeated_later(names_view(v.level_params@), i))
            ==> (match r {
            Err(KernelError::DuplicateUnivParam(p)) => exists|i: int|
                0 <= i < v.level_params@.len() && repeated_later(names_view(v.level_params@), i)
                    && p@ == v.level_params@[i]@ && forall|k: int|
                    0 <= k < i ==> !repeated_later(names_view(v.level_params@), k),
            _ => false,
        }),
        !declares(env.constants(), v.name@) && (forall|i: int|
            0 <= i < v.level_params@.len() ==> !repeated_later(names_view(v.level_params@), i))
            && (expr_has_expr_mvar(v.ty@) || expr_has_level_mvar(v.ty@)) ==> (match r {
            Err(KernelError::HasMetavars(m)) => m@ == v.name@,
            _ => false,
        }),
        !declares(env.constants(), v.name@) && (forall|i: int|
            0 <= i < v.level_params@.len() ==> !repeated_later(names_view(v.level_params@), i))
            && !(expr_has_expr_mvar(v.ty@) || expr_has_level_mvar(v.ty@)) && expr_has_fvar(v.ty@)
            ==> (match r {
            Err(KernelError::HasFVars(m)) => m@ == v.name@,
            _ => false,
        }),
{
    check_name(env, &v.name)?;
    check_duplicated_univ_params(v.level_params.as_slice())?;
    check_no_metavar_no_fvar(&v.name, &v.ty)?;
    Ok(())
}

/// A constant admitted into an environment is found there by its name.
pub proof fn law_lookup_after_admit(cs: Seq<ConstantInfo>, c: ConstantInfo)
    requires
        names_distinct(cs),
        !declares(cs, const_name(c)),
    ensures
        lookup(cs.push(c), const_name(c)) == Some(c),
{
    let s = cs.push(c);
    assert(const_name(s[cs.len() as int]) == const_name(c));
    assert(declares(s, const_name(c)));
    let i = choose|i: int| 0 <= i < s.len() && const_name(#[trigger] s[i]) == const_name(c);
    if i < cs.len() {
        assert(s[i] == cs[i]);
        assert(declares(cs, const_name(c)));
    }
}

} // verus!
