//! Local contexts: the free variables a type checker introduces under
//! binders, each with its type and, for `let`-bound ones, its value.
//! Fresh ids are `_kernel_fresh.<n>` for `n = 0, 1, ...`.
use crate::error::KernelError;
use crate::expr::{exprs_view, lemma_expr_view, lemma_node_view, BinderInfo, Expr, ExprNode, SExpr};
use crate::guard::RecGuard;
use crate::name::{name_hash, Name, NameComp};
use crate::num::Nat;
use crate::shared::share;
use crate::subst::{abstract_fvars, abstract_spec};
use std::collections::HashMap;
use std::sync::Arc;
use vstd::prelude::*;

verus! {

broadcast use {lemma_expr_view, lemma_node_view};

/// A local declaration: the fresh id, the user-facing binder name, the
/// type, the binder annotation and, for a `let`, the value.
#[derive(Debug, Clone)]
pub struct LocalDecl {
    pub id: Arc<Name>,
    pub binder_name: Arc<Name>,
    pub ty: Arc<Expr>,
    pub binder_info: BinderInfo,
    pub value: Option<Arc<Expr>>,
}

/// The declarations in the order they were made, with an index from the
/// hash of an id to the positions of the declarations made with it.
#[derive(Debug)]
pub struct LocalContext {
    decls: Vec<LocalDecl>,
    buckets: HashMap<u64, Vec<usize>>,
}

/// Each declaration's position sits in the bucket of its id's hash.
pub open spec fn locals_bucketed(decls: Seq<LocalDecl>, m: Map<u64, Vec<usize>>) -> bool {
    forall|i: int|
        0 <= i < decls.len() ==> m.contains_key(name_hash((#[trigger] decls[i]).id@)) && m[name_hash(
            decls[i].id@,
        )]@.contains(i as usize)
}

/// With no declaration made with `id`, `find_decl` gives nothing.
proof fn lemma_find_none(decls: Seq<LocalDecl>, id: Seq<NameComp>)
    requires
        forall|q: int| 0 <= q < decls.len() ==> (#[trigger] decls[q]).id@ != id,
    ensures
        find_decl(decls, id) is None,
    decreases decls.len(),
{
    if decls.len() > 0 {
        assert(decls[decls.len() - 1] == decls.last());
        assert forall|q: int| 0 <= q < decls.drop_last().len() implies (
        #[trigger] decls.drop_last()[q]).id@ != id by {
            assert(decls.drop_last()[q] == decls[q]);
        }
        lemma_find_none(decls.drop_last(), id);
    }
}

/// No bucket for the hash of `id`: no declaration was made with `id`.
proof fn lemma_no_bucket(ds: Seq<LocalDecl>, m: Map<u64, Vec<usize>>, id: Seq<NameComp>)
    requires
        locals_bucketed(ds, m),
        !m.contains_key(name_hash(id)),
    ensures
        find_decl(ds, id) is None,
{
    assert forall|q: int| 0 <= q < ds.len() implies (#[trigger] ds[q]).id@ != id by {
        if ds[q].id@ == id {
            assert(m.contains_key(name_hash(ds[q].id@)));
        }
    }
    lemma_find_none(ds, id);
}

/// Every declaration made with `id` sits in the bucket of `id`'s hash.
proof fn lemma_bucket_holds(ds: Seq<LocalDecl>, m: Map<u64, Vec<usize>>, id: Seq<NameComp>)
    requires
        locals_bucketed(ds, m),
    ensures
        forall|q: int|
            0 <= q < ds.len() && (#[trigger] ds[q]).id@ == id ==> m.contains_key(name_hash(id))
                && m[name_hash(id)]@.contains(q as usize),
{
}

/// The largest position in the bucket of `id` that holds a declaration
/// made with `id` is the one `find_decl` gives.
proof fn lemma_bucket_best(ds: Seq<LocalDecl>, ps: Seq<usize>, id: Seq<NameComp>, best: Option<usize>)
    requires
        ds.len() <= usize::MAX,
        forall|q: int| 0 <= q < ds.len() && (#[trigger] ds[q]).id@ == id ==> ps.contains(q as usize),
        best matches Some(p) ==> p < ds.len() && ds[p as int].id@ == id,
        forall|j: int|
            0 <= j < ps.len() && ps[j] < ds.len() && ds[ps[j] as int].id@ == id ==> (best matches Some(
                p,
            ) && ps[j] <= p),
    ensures
        match best {
            Some(p) => find_decl(ds, id) == Some(ds[p as int]),
            None => find_decl(ds, id) is None,
        },
{
    assert forall|q: int| 0 <= q < ds.len() && (#[trigger] ds[q]).id@ == id implies (
    best matches Some(p) && q <= p) by {
        assert(ps.contains(q as usize));
        let w = choose|w: int| 0 <= w < ps.len() && ps[w] == q as usize;
        assert(ps[w] < ds.len() && ds[ps[w] as int].id@ == id);
    }
    match best {
        Some(p) => {
            assert forall|q: int| p < q < ds.len() implies (#[trigger] ds[q]).id@ != id by {
                if ds[q].id@ == id {
                    assert(q <= p);
                }
            }
            lemma_find_last(ds, id, p as int);
        },
        None => {
            assert forall|q: int| 0 <= q < ds.len() implies (#[trigger] ds[q]).id@ != id by {
                if ds[q].id@ == id {
                    assert(best is Some);
                }
            }
            lemma_find_none(ds, id);
        },
    }
}

/// Appending a declaration and its position to its bucket keeps every
/// position in its bucket.
proof fn lemma_locals_bucketed_push(
    decls: Seq<LocalDecl>,
    m: Map<u64, Vec<usize>>,
    d: LocalDecl,
    m2: Map<u64, Vec<usize>>,
    h: u64,
    b0: Seq<usize>,
    idx: usize,
)
    requires
        locals_bucketed(decls, m),
        name_hash(d.id@) == h,
        idx == decls.len(),
        m2.contains_key(h),
        m.contains_key(h) ==> b0 == m[h]@,
        m2[h]@ == b0.push(idx),
        forall|k: u64| k != h ==> (m2.contains_key(k) == m.contains_key(k) && (m.contains_key(k)
            ==> m2[k] == m[k])),
    ensures
        locals_bucketed(decls.push(d), m2),
{
    let s = decls.push(d);
    assert forall|i: int| 0 <= i < s.len() implies m2.contains_key(name_hash((#[trigger] s[i]).id@))
        && m2[name_hash(s[i].id@)]@.contains(i as usize) by {
        if i < decls.len() {
            assert(s[i] == decls[i]);
            let hi = name_hash(decls[i].id@);
            assert(m.contains_key(hi) && m[hi]@.contains(i as usize));
            if hi == h {
                let w = choose|w: int| 0 <= w < b0.len() && b0[w] == i as usize;
                assert(m2[h]@[w] == i as usize);
            }
        } else {
            assert(m2[h]@[b0.len() as int] == i as usize);
        }
    }
}

/// The generator of fresh ids.
#[derive(Debug)]
pub struct FVarIdGen {
    next: u64,
}

/// The fresh id `_kernel_fresh.<n>`.
pub open spec fn fresh_name(n: nat) -> Seq<NameComp> {
    seq![NameComp::Str("_kernel_fresh"@), NameComp::Num(n)]
}

/// The last declaration in `decls` with id `id`.
pub open spec fn find_decl(decls: Seq<LocalDecl>, id: Seq<NameComp>) -> Option<LocalDecl>
    decreases decls.len(),
{
    if decls.len() == 0 {
        None
    } else if decls.last().id@ == id {
        Some(decls.last())
    } else {
        find_decl(decls.drop_last(), id)
    }
}

impl FVarIdGen {
    /// The index of the next id.
    pub closed spec fn next(self) -> nat {
        self.next as nat
    }

    /// The index of the next id.
    pub fn next_index(&self) -> (r: u64)
        ensures
            r == self.next(),
    {
        self.next
    }
}

impl Default for FVarIdGen {
    fn default() -> (r: FVarIdGen)
        ensures
            r.next() == 0,
    {
        FVarIdGen { next: 0 }
    }
}

/// The next fresh id; advances the generator.
fn fresh_fvar_id(gen: &mut FVarIdGen) -> (r: Arc<Name>)
    requires
        old(gen).next() < u64::MAX,
    ensures
        r@ == fresh_name(old(gen).next()),
        final(gen).next() == old(gen).next() + 1,
{
    let idx = gen.next;
    gen.next = idx + 1;
    let prefix = Name::mk_str(Name::anonymous(), "_kernel_fresh");
    let r = Name::mk_num(prefix, Nat::from_u64(idx));
    proof {
        assert(r@ =~= fresh_name(idx as nat));
    }
    r
}

impl Default for LocalContext {
    fn default() -> (r: LocalContext)
        ensures
            r.decls() == Seq::<LocalDecl>::empty(),
    {
        LocalContext { decls: Vec::new(), buckets: HashMap::new() }
    }
}

impl LocalContext {
    /// The declarations in the order they were made.
    pub closed spec fn decls(self) -> Seq<LocalDecl> {
        self.decls@
    }

    /// Every declaration's position sits in the bucket of its id's hash.
    #[verifier::type_invariant]
    closed spec fn indexed(self) -> bool {
        locals_bucketed(self.decls@, self.buckets@)
    }

    /// Records `decl` and returns the free variable that refers to it.
    pub fn push(&mut self, decl: LocalDecl) -> (r: Arc<Expr>)
        ensures
            final(self).decls() == old(self).decls().push(decl),
            r@ == SExpr::FVar(decl.id@),
    {
        proof {
            use_type_invariant(&*self);
        }
        let id = share(&decl.id);
        let h = decl.id.hash_u64();
        let mut me = LocalContext { decls: Vec::new(), buckets: HashMap::new() };
        std::mem::swap(self, &mut me);
        let LocalContext { mut decls, mut buckets } = me;
        let idx = decls.len();
        let ghost old_d = decls@;
        let ghost old_b = buckets@;
        let mut bucket = match buckets.remove(&h) {
            Some(b) => b,
            None => Vec::new(),
        };
        let ghost b0 = bucket@;
        bucket.push(idx);
        decls.push(decl);
        buckets.insert(h, bucket);
        proof {
            assert(buckets@[h]@ == b0.push(idx));
            assert(old_b.contains_key(h) ==> b0 == old_b[h]@);
            lemma_locals_bucketed_push(old_d, old_b, decl, buckets@, h, b0, idx);
        }
        *self = LocalContext { decls, buckets };
        Expr::fvar(id)
    }

    /// Declares a fresh local of type `ty` and returns its free variable.
    pub fn mk_local_decl(
        &mut self,
        gen: &mut FVarIdGen,
        binder_name: Arc<Name>,
        ty: Arc<Expr>,
        bi: BinderInfo,
    ) -> (r: Arc<Expr>)
        requires
            old(gen).next() < u64::MAX,
        ensures
            final(gen).next() == old(gen).next() + 1,
            r@ == SExpr::FVar(fresh_name(old(gen).next())),
            final(self).decls().len() == old(self).decls().len() + 1,
            final(self).decls().drop_last() == old(self).decls(),
            final(self).decls().last().id@ == fresh_name(old(gen).next()),
            final(self).decls().last().binder_name == binder_name,
            final(self).decls().last().ty == ty,
            final(self).decls().last().binder_info == bi,
            final(self).decls().last().value is None,
    {
        let id = fresh_fvar_id(gen);
        let r = self.push(LocalDecl { id, binder_name, ty, binder_info: bi, value: None });
        proof {
            assert(self.decls().drop_last() =~= old(self).decls());
        }
        r
    }

    /// Declares a fresh `let`-bound local of type `ty` and value `value`
    /// and returns its free variable; its binder annotation is `Default`.
    pub fn mk_let_decl(
        &mut self,
        gen: &mut FVarIdGen,
        binder_name: Arc<Name>,
        ty: Arc<Expr>,
        value: Arc<Expr>,
    ) -> (r: Arc<Expr>)
        requires
            old(gen).next() < u64::MAX,
        ensures
            final(gen).next() == old(gen).next() + 1,
            r@ == SExpr::FVar(fresh_name(old(gen).next())),
            final(self).decls().len() == old(self).decls().len() + 1,
            final(self).decls().drop_last() == old(self).decls(),
            final(self).decls().last().id@ == fresh_name(old(gen).next()),
            final(self).decls().last().binder_name == binder_name,
            final(self).decls().last().ty == ty,
            final(self).decls().last().binder_info == BinderInfo::Default,
            final(self).decls().last().value == Some(value),
    {
        let id = fresh_fvar_id(gen);
        let r = self.push(
            LocalDecl { id, binder_name, ty, binder_info: BinderInfo::Default, value: Some(value) },
        );
        proof {
            assert(self.decls().drop_last() =~= old(self).decls());
        }
        r
    }

    /// The declaration of the free variable `fvar_id`: the last one made
    /// with that id.
    pub fn get(&self, fvar_id: &Name) -> (r: Option<&LocalDecl>)
        ensures
            match find_decl(self.decls(), fvar_id@) {
                Some(d) => r matches Some(x) && *x == d,
                None => r is None,
            },
    {
        proof {
            use_type_invariant(self);
        }
        let ghost ds = self.decls@;
        let ghost id = fvar_id@;
        let n = self.decls.len();
        let h = fvar_id.hash_u64();
        match self.buckets.get(&h) {
            None => {
                proof {
                    lemma_no_bucket(ds, self.buckets@, id);
                }
                None
            },
            Some(ps) => {
                let mut best: Option<usize> = None;
                let mut k: usize = 0;
                while k < ps.len()
                    invariant
                        k <= ps@.len(),
                        ds == self.decls@,
                        id == fvar_id@,
                        best matches Some(p) ==> p < ds.len() && ds[p as int].id@ == id,
                        forall|j: int|
                            0 <= j < k && ps@[j] < ds.len() && ds[ps@[j] as int].id@ == id ==> (
                            best matches Some(p) && ps@[j] <= p),
                    decreases ps@.len() - k,
                {
                    let p = ps[k];
                    if p < self.decls.len() && self.decls[p].id.equal(fvar_id) {
                        let better = match best {
                            Some(b) => p > b,
                            None => true,
                        };
                        if better {
                            best = Some(p);
                        }
                    }
                    k = k + 1;
                }
                proof {
                    assert(self.buckets@.contains_key(h) && self.buckets@[h] == *ps);
                    assert(ds.len() == n);
                    lemma_bucket_holds(ds, self.buckets@, id);
                    lemma_bucket_best(ds, ps@, id, best);
                }
                match best {
                    Some(p) => Some(&self.decls[p]),
                    None => None,
                }
            },
        }
    }

    /// A checkpoint: the number of declarations made so far.
    pub fn save(&self) -> (r: usize)
        ensures
            r == self.decls().len(),
    {
        self.decls.len()
    }

    /// Drops every declaration made after the checkpoint `checkpoint`.
    pub fn restore(&mut self, checkpoint: usize)
        requires
            checkpoint <= old(self).decls().len(),
        ensures
            final(self).decls() == old(self).decls().take(checkpoint as int),
    {
        proof {
            use_type_invariant(&*self);
        }
        let ghost start = self.decls@;
        let mut me = LocalContext { decls: Vec::new(), buckets: HashMap::new() };
        std::mem::swap(self, &mut me);
        let LocalContext { mut decls, mut buckets } = me;
        proof {
            assert(decls@ =~= start.take(decls@.len() as int));
        }
        while decls.len() > checkpoint
            invariant
                checkpoint <= decls@.len() <= start.len(),
                decls@ == start.take(decls@.len() as int),
                locals_bucketed(decls@, buckets@),
            decreases decls@.len(),
        {
            let ghost before = decls@;
            let ghost old_b = buckets@;
            let d = decls.pop().unwrap();
            let p = decls.len();
            let h = d.id.hash_u64();
            proof {
                assert(decls@ =~= start.take(decls@.len() as int));
            }
            match buckets.remove(&h) {
                Some(mut b) => {
                    let ghost b0 = b@;
                    if b.len() > 0 && b[b.len() - 1] == p {
                        b.pop();
                    }
                    let ghost b1 = b@;
                    buckets.insert(h, b);
                    proof {
                        assert forall|i: int| 0 <= i < decls@.len() implies buckets@.contains_key(
                            name_hash((#[trigger] decls@[i]).id@),
                        ) && buckets@[name_hash(decls@[i].id@)]@.contains(i as usize) by {
                            assert(decls@[i] == before[i]);
                            let hi = name_hash(before[i].id@);
                            assert(old_b.contains_key(hi) && old_b[hi]@.contains(i as usize));
                            if hi == h {
                                let w = choose|w: int| 0 <= w < b0.len() && b0[w] == i as usize;
                                assert(w < b1.len());
                                assert(b1[w] == i as usize);
                            }
                        }
                    }
                },
                None => {
                    proof {
                        assert forall|i: int| 0 <= i < decls@.len() implies buckets@.contains_key(
                            name_hash((#[trigger] decls@[i]).id@),
                        ) && buckets@[name_hash(decls@[i].id@)]@.contains(i as usize) by {
                            assert(decls@[i] == before[i]);
                            let hi = name_hash(before[i].id@);
                            assert(old_b.contains_key(hi));
                        }
                    }
                },
            }
        }
        *self = LocalContext { decls, buckets };
    }
}

/// The id of a free variable (empty for anything else).
pub open spec fn fvar_id(e: SExpr) -> Seq<NameComp> {
    match e {
        SExpr::FVar(id) => id,
        _ => Seq::empty(),
    }
}

/// `body` under the binders of the first `i` of `fvars`, innermost last:
/// a `let` for a declaration with a value, a lambda (`lam`) or a `forall`
/// otherwise, each type and value with the earlier `fvars` abstracted.
/// `None` when one of them is no free variable declared in `decls`.
pub open spec fn wrap_binders(
    decls: Seq<LocalDecl>,
    fvars: Seq<SExpr>,
    i: nat,
    body: SExpr,
    lam: bool,
) -> Option<SExpr>
    decreases i,
{
    if i == 0 {
        Some(body)
    } else {
        let k = (i - 1) as nat;
        if !(fvars[k as int] is FVar) {
            None
        } else {
            match find_decl(decls, fvar_id(fvars[k as int])) {
                None => None,
                Some(d) => {
                    let ty = abstract_spec(d.ty@, 0, fvars.take(k as int));
                    let b = match d.value {
                        Some(v) => SExpr::LetE(
                            d.binder_name@,
                            Box::new(ty),
                            Box::new(abstract_spec(v@, 0, fvars.take(k as int))),
                            Box::new(body),
                            false,
                        ),
                        None => if lam {
                            SExpr::Lam(d.binder_name@, Box::new(ty), Box::new(body), d.binder_info)
                        } else {
                            SExpr::ForallE(d.binder_name@, Box::new(ty), Box::new(body), d.binder_info)
                        },
                    };
                    wrap_binders(decls, fvars, k, b, lam)
                },
            }
        }
    }
}

/// The declaration `find_decl` gives for `id` is the last one with that id.
pub proof fn lemma_find_last(decls: Seq<LocalDecl>, id: Seq<NameComp>, p: int)
    requires
        0 <= p < decls.len(),
        decls[p].id@ == id,
        forall|q: int| p < q < decls.len() ==> (#[trigger] decls[q]).id@ != id,
    ensures
        find_decl(decls, id) == Some(decls[p]),
    decreases decls.len(),
{
    if p < decls.len() - 1 {
        assert(decls.drop_last()[p] == decls[p]);
        assert forall|q: int| p < q < decls.drop_last().len() implies (
        #[trigger] decls.drop_last()[q]).id@ != id by {
            assert(decls.drop_last()[q] == decls[q]);
        }
        lemma_find_last(decls.drop_last(), id, p);
    }
}

/// Closing over locals whose first is a plain (not `let`-bound) local
/// gives a `forall` at the top.
pub proof fn lemma_wrap_outer_forall(
    decls: Seq<LocalDecl>,
    fvars: Seq<SExpr>,
    i: nat,
    body: SExpr,
)
    requires
        1 <= i <= fvars.len(),
        wrap_binders(decls, fvars, i, body, false) is Some,
        find_decl(decls, fvar_id(fvars[0])) matches Some(d) && d.value is None,
    ensures
        wrap_binders(decls, fvars, i, body, false)->Some_0 is ForallE,
    decreases i,
{
    if i > 1 {
        let k = (i - 1) as nat;
        let d = find_decl(decls, fvar_id(fvars[k as int]))->Some_0;
        let ty = abstract_spec(d.ty@, 0, fvars.take(k as int));
        let b = match d.value {
            Some(v) => SExpr::LetE(
                d.binder_name@,
                Box::new(ty),
                Box::new(abstract_spec(v@, 0, fvars.take(k as int))),
                Box::new(body),
                false,
            ),
            None => SExpr::ForallE(d.binder_name@, Box::new(ty), Box::new(body), d.binder_info),
        };
        lemma_wrap_outer_forall(decls, fvars, k, b);
    } else {
        reveal_with_fuel(wrap_binders, 2);
    }
}

/// `b` closed over `fvars`: `b` with `fvars` abstracted, under their
/// binders.
pub open spec fn mk_pi_spec(decls: Seq<LocalDecl>, fvars: Seq<SExpr>, b: SExpr) -> Option<SExpr> {
    wrap_binders(decls, fvars, fvars.len(), abstract_spec(b, 0, fvars), false)
}

/// `b` abstracted over `fvars`, under lambdas (and `let`s).
pub open spec fn mk_lambda_spec(decls: Seq<LocalDecl>, fvars: Seq<SExpr>, b: SExpr) -> Option<
    SExpr,
> {
    wrap_binders(decls, fvars, fvars.len(), abstract_spec(b, 0, fvars), true)
}

impl LocalContext {
    /// `b` closed over the locals `fvars` (`mk_pi_spec`): a `forall` for
    /// each plain local and a `let` for each `let`-bound one. A variable
    /// that is not a declared local is `LooseBVar`; so is an abstraction
    /// that runs past the bound-variable indices.
    pub fn mk_pi(&self, fvars: &[Arc<Expr>], b: &Arc<Expr>, g: &mut RecGuard) -> (r: Result<
        Arc<Expr>,
        KernelError,
    >)
        ensures
            *final(g) == *old(g),
            r matches Ok(x) ==> mk_pi_spec(self.decls(), exprs_view(fvars@), b@) == Some(x@),
            mk_pi_spec(self.decls(), exprs_view(fvars@), b@) is None ==> r is Err,
            r matches Err(e) ==> e is DeepRecursion || e is LooseBVar,
    {
        self.mk_binding(false, fvars, b, g)
    }

    /// Like `mk_pi`, with lambdas in place of `forall`s (`mk_lambda_spec`).
    pub fn mk_lambda(&self, fvars: &[Arc<Expr>], b: &Arc<Expr>, g: &mut RecGuard) -> (r: Result<
        Arc<Expr>,
        KernelError,
    >)
        ensures
            *final(g) == *old(g),
            r matches Ok(x) ==> mk_lambda_spec(self.decls(), exprs_view(fvars@), b@) == Some(x@),
            mk_lambda_spec(self.decls(), exprs_view(fvars@), b@) is None ==> r is Err,
            r matches Err(e) ==> e is DeepRecursion || e is LooseBVar,
    {
        self.mk_binding(true, fvars, b, g)
    }

    fn mk_binding(&self, lam: bool, fvars: &[Arc<Expr>], b: &Arc<Expr>, g: &mut RecGuard) -> (r:
        Result<Arc<Expr>, KernelError>)
        ensures
            *final(g) == *old(g),
            r matches Ok(x) ==> wrap_binders(
                self.decls(),
                exprs_view(fvars@),
                fvars@.len(),
                abstract_spec(b@, 0, exprs_view(fvars@)),
                lam,
            ) == Some(x@),
            wrap_binders(
                self.decls(),
                exprs_view(fvars@),
                fvars@.len(),
                abstract_spec(b@, 0, exprs_view(fvars@)),
                lam,
            ) is None ==> r is Err,
            r matches Err(e) ==> e is DeepRecursion || e is LooseBVar,
    {
        let ghost fv = exprs_view(fvars@);
        let ghost ds = self.decls();
        let ghost whole = wrap_binders(ds, fv, fv.len(), abstract_spec(b@, 0, fv), lam);
        let mut r = abstract_fvars(b, fvars, g)?;
        let mut i: usize = fvars.len();
        while i > 0
            invariant
                i <= fvars@.len(),
                fv == exprs_view(fvars@),
                ds == self.decls(),
                *g == *old(g),
                whole == wrap_binders(ds, fv, i as nat, r@, lam),
            decreases i,
        {
            let k = i - 1;
            proof {
                assert(fv[k as int] == fvars@[k as int]@);
            }
            let id = match fvars[k].node() {
                ExprNode::FVar { id } => id,
                _ => {
                    return Err(KernelError::LooseBVar);
                },
            };
            let d = match self.get(id) {
                Some(d) => d,
                None => {
                    return Err(KernelError::LooseBVar);
                },
            };
            let prefix = vstd::slice::slice_subrange(fvars, 0, k);
            proof {
                assert(prefix@ =~= fvars@.take(k as int));
                assert(exprs_view(prefix@) =~= fv.take(k as int));
            }
            let ty = abstract_fvars(&d.ty, prefix, g)?;
            r = match &d.value {
                Some(v) => {
                    let val = abstract_fvars(v, prefix, g)?;
                    Expr::let_e(share(&d.binder_name), ty, val, r, false)
                },
                None => if lam {
                    Expr::lam(share(&d.binder_name), ty, r, d.binder_info)
                } else {
                    Expr::forall_e(share(&d.binder_name), ty, r, d.binder_info)
                },
            };
            i = k;
        }
        Ok(r)
    }
}

/// The declaration just made is the one found under its id.
pub proof fn law_get_after_push(decls: Seq<LocalDecl>, d: LocalDecl)
    ensures
        find_decl(decls.push(d), d.id@) == Some(d),
{
    assert(decls.push(d).last() == d);
}

/// Restoring a checkpoint drops exactly the declarations made after it.
pub proof fn law_restore_undoes_pushes(before: Seq<LocalDecl>, pushed: Seq<LocalDecl>)
    ensures
        (before + pushed).take(before.len() as int) == before,
{
    assert((before + pushed).take(before.len() as int) =~= before);
}

/// Fresh ids of different indices are different names.
pub proof fn law_fresh_names_distinct(n: nat, m: nat)
    requires
        n != m,
    ensures
        fresh_name(n) != fresh_name(m),
{
    assert(fresh_name(n)[1] != fresh_name(m)[1]);
}

} // verus!
