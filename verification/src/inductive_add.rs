//! Admission of a (mutual) block of inductive types: the types are
//! checked and declared, then their constructors (with the positivity and
//! universe checks), then one recursor per type with its computation
//! rules. A block that mentions another inductive type applied to one of
//! its own types (a nested occurrence) is first rewritten into a larger
//! block with auxiliary types, and the results are translated back.
//!
//! Every step is checked by a type checker that continues this
//! admission's local context. The telescopes walked here are normalized
//! as they go, so their loops stop with `DeepRecursion` after `u64::MAX`
//! binders; a failed admission leaves the environment as it was.
use crate::checker::TypeChecker;
use crate::decl::{
    ConstantInfo, ConstantVal, ConstructorVal, InductiveType, InductiveVal, RecursorRule,
    RecursorVal,
};
use crate::env::{
    check_duplicated_univ_params, check_name, check_no_metavar_no_fvar, const_name, Environment,
};
use crate::error::KernelError;
use crate::expr::{
    app_args, app_fn, exprs_view, lemma_expr_view, lemma_node_view, mk_spine, rebuild1, rebuild2, rebuild3,
    BinderInfo, Expr, ExprNode, SExpr,
};
use crate::guard::{RecGuard, MAX_REC_DEPTH};
use crate::inductive::{
    append_after_str, append_index_after, consume_annotations_spec, consume_type_annotations,
    expr_contains_new_type, has_const_in,
    expr_has_ind_occ, head_const, infer_implicit, is_annotation, is_geq, lparams_to_levels, mk_rec_name,
    mk_simple_name, name_append, nested_prefix, peel_forall, replace_prefix,
};
use crate::level::Level;
use crate::local_ctx::{find_decl, fresh_name, FVarIdGen, LocalContext, LocalDecl};
use crate::name::{Name, NameComp};
use crate::num::Nat;
use crate::shared::share;
use crate::subst::{
    abstract_fvars, inst_spec, instantiate, instantiate_level_params, instantiate_rev, tree_height,
};
use crate::level::names_view;
use crate::tc::name_in;
use std::sync::Arc;
use vstd::prelude::*;

verus! {

broadcast use {lemma_expr_view, lemma_node_view};

/// The motive, indices and major premise of one type's recursor.
struct RecInfo {
    c: Arc<Expr>,
    indices: Vec<Arc<Expr>>,
    major: Arc<Expr>,
}

/// The state of one block's admission.
pub(crate) struct AddInductiveFn {
    lparams: Vec<Arc<Name>>,
    is_unsafe: bool,
    nnested: Nat,
    nparams: usize,
    ind_types: Vec<InductiveType>,
    guard: RecGuard,
    lctx: LocalContext,
    fvar_gen: FVarIdGen,
    levels: Vec<Arc<Level>>,
    result_level: Arc<Level>,
    is_not_zero: bool,
    nindices: Vec<usize>,
    params: Vec<Arc<Expr>>,
    ind_cnsts: Vec<Arc<Expr>>,
    ind_names: Vec<Arc<Name>>,
    elim_level: Arc<Level>,
    k_target: bool,
    rec_infos: Vec<RecInfo>,
    minors: Vec<Vec<Arc<Expr>>>,
}

/// A block the first pass accepted: one index count, constant and name
/// per type, one local per parameter.
spec fn shaped(f: AddInductiveFn) -> bool {
    &&& f.ind_types@.len() >= 1
    &&& f.nindices@.len() == f.ind_types@.len()
    &&& f.ind_cnsts@.len() == f.ind_types@.len()
    &&& f.params@.len() == f.nparams
}

/// A block admission that has not started.
pub(crate) closed spec fn fresh(f: AddInductiveFn) -> bool {
    &&& f.nindices@.len() == 0
    &&& f.ind_cnsts@.len() == 0
    &&& f.params@.len() == 0
    &&& f.rec_infos@.len() == 0
    &&& f.minors@.len() == 0
}

/// `f` describes the same block as `old`.
spec fn same_block(f: AddInductiveFn, old: AddInductiveFn) -> bool {
    &&& f.ind_types@ == old.ind_types@
    &&& f.nparams == old.nparams
    &&& f.params@ == old.params@
    &&& f.nindices@ == old.nindices@
    &&& f.ind_cnsts@ == old.ind_cnsts@
    &&& f.ind_names@ == old.ind_names@
    &&& f.lparams@ == old.lparams@
    &&& f.levels@ == old.levels@
    &&& f.result_level == old.result_level
    &&& f.is_not_zero == old.is_not_zero
    &&& f.is_unsafe == old.is_unsafe
    &&& f.elim_level == old.elim_level
    &&& f.k_target == old.k_target
    &&& f.rec_infos@ == old.rec_infos@
    &&& f.minors@ == old.minors@
}

/// The error for a block that does not have the expected form.
fn ill_formed(name: &Arc<Name>, what: &'static str) -> (r: KernelError)
    ensures
        r == (KernelError::InvalidInductive { name: *name, what }),
{
    KernelError::InvalidInductive { name: share(name), what }
}

impl AddInductiveFn {
    /// The types of the block being admitted.
    pub(crate) closed spec fn block_types(self) -> Seq<InductiveType> {
        self.ind_types@
    }

    pub(crate) fn new(
        lparams: Vec<Arc<Name>>,
        nparams: usize,
        ind_types: Vec<InductiveType>,
        is_unsafe: bool,
        nnested: Nat,
    ) -> (r: AddInductiveFn)
        ensures
            fresh(r),
            r.block_types() == ind_types@,
    {
        AddInductiveFn {
            lparams,
            is_unsafe,
            nnested,
            nparams,
            ind_types,
            guard: RecGuard::new(),
            lctx: LocalContext::default(),
            fvar_gen: FVarIdGen::default(),
            levels: Vec::new(),
            result_level: Arc::new(Level::Zero),
            is_not_zero: false,
            nindices: Vec::new(),
            params: Vec::new(),
            ind_cnsts: Vec::new(),
            ind_names: Vec::new(),
            elim_level: Arc::new(Level::Zero),
            k_target: false,
            rec_infos: Vec::new(),
            minors: Vec::new(),
        }
    }

    /// The name of the first type, for errors.
    fn name0(&self) -> (r: Arc<Name>)
        ensures
            self.ind_types@.len() > 0 ==> r == self.ind_types@[0].name,
            self.ind_types@.len() == 0 ==> r@ == Seq::<NameComp>::empty(),
    {
        if self.ind_types.len() > 0 {
            share(&self.ind_types[0].name)
        } else {
            Name::anonymous()
        }
    }

    /// Checks the block and adds its types, constructors and recursors
    /// to `env`.
    pub(crate) fn run(&mut self, env: &mut Environment) -> (r: Result<(), KernelError>)
        requires
            fresh(*old(self)),
        ensures
            final(env).quot_init() == old(env).quot_init(),
            grows(final(env).constants(), old(env).constants()),
            r is Ok ==> block_declared(final(env).constants(), old(self).block_types()),
    {
        if self.ind_types.len() == 0 {
            return Err(ill_formed(&Name::anonymous(), "empty inductive block"));
        }
        check_duplicated_univ_params(self.lparams.as_slice())?;
        self.check_inductive_types(env)?;
        self.declare_inductive_types(env)?;
        let ghost with_types = env.constants();
        self.check_constructors(env)?;
        self.declare_constructors(env)?;
        let ghost after_types = env.constants();
        proof {
            lemma_grows_keeps(after_types, with_types);
        }
        self.init_elim_level(env)?;
        self.init_k_target();
        self.mk_rec_infos(env)?;
        self.declare_recursors(env)?;
        proof {
            lemma_grows_keeps(env.constants(), after_types);
            let ts = old(self).ind_types@;
            assert forall|i: int| 0 <= i < ts.len() implies type_declared(
                env.constants(),
                #[trigger] ts[i],
            ) by {
                assert(declares_inductive(with_types, ts[i].name@));
                assert forall|j: int| 0 <= j < ts[i].ctors@.len() implies declares_constructor(
                    env.constants(),
                    (#[trigger] ts[i].ctors@[j]).0@,
                ) by {
                    assert(declares_constructor(after_types, ts[i].ctors@[j].0@));
                }
            }
        }
        Ok(())
    }

    // -- the type checker, continuing this admission's locals ----------

    fn take_ctx(&mut self) -> (r: (LocalContext, FVarIdGen))
        ensures
            same_block(*final(self), *old(self)),
            r.0 == old(self).lctx,
            r.1 == old(self).fvar_gen,
            final(self).lctx.decls().len() == 0,
    {
        let mut l = LocalContext::default();
        let mut g = FVarIdGen::default();
        std::mem::swap(&mut l, &mut self.lctx);
        std::mem::swap(&mut g, &mut self.fvar_gen);
        (l, g)
    }

    fn tc_whnf(&mut self, env: &Environment, e: &Arc<Expr>) -> (r: Result<Arc<Expr>, KernelError>)
        ensures
            same_block(*final(self), *old(self)),
            final(self).lctx.decls() == old(self).lctx.decls(),
            r matches Ok(x) ==> crate::checker::whnf_core_shape(x@),
            crate::checker::whnf_leaf(e@) ==> (r matches Ok(x) && x@ == e@),
    {
        let (l, g) = self.take_ctx();
        let mut tc = TypeChecker::new_with(env, l, g);
        let r = tc.whnf(e);
        let (l2, g2) = tc.into_parts();
        self.lctx = l2;
        self.fvar_gen = g2;
        r
    }

    fn tc_check(&mut self, env: &Environment, e: &Arc<Expr>) -> (r: Result<(), KernelError>)
        ensures
            same_block(*final(self), *old(self)),
            final(self).lctx.decls() == old(self).lctx.decls(),
    {
        let (l, g) = self.take_ctx();
        let mut tc = TypeChecker::new_with(env, l, g);
        let r = tc.check(e, self.lparams.as_slice());
        let (l2, g2) = tc.into_parts();
        self.lctx = l2;
        self.fvar_gen = g2;
        match r {
            Ok(_) => Ok(()),
            Err(e) => Err(e),
        }
    }

    fn tc_is_def_eq(&mut self, env: &Environment, a: &Arc<Expr>, b: &Arc<Expr>) -> (r: Result<
        bool,
        KernelError,
    >)
        ensures
            same_block(*final(self), *old(self)),
            final(self).lctx.decls() == old(self).lctx.decls(),
            r matches Ok(x) ==> (a@ == b@ ==> x),
    {
        let (l, g) = self.take_ctx();
        let mut tc = TypeChecker::new_with(env, l, g);
        let r = tc.is_def_eq(a, b);
        let (l2, g2) = tc.into_parts();
        self.lctx = l2;
        self.fvar_gen = g2;
        r
    }

    /// The sort of the type `e` (inferred, then normalized to a sort).
    fn tc_sort_of(&mut self, env: &Environment, e: &Arc<Expr>) -> (r: Result<Arc<Level>, KernelError>)
        ensures
            same_block(*final(self), *old(self)),
            final(self).lctx.decls() == old(self).lctx.decls(),
            r matches Ok(l) ==> (e@ matches SExpr::Sort(k) ==> l@ == crate::level::SLevel::Succ(
                Box::new(k),
            )),
            crate::checker::local_type(old(self).lctx.decls(), e@) matches Some(SExpr::Sort(k)) ==> (
            r matches Ok(l) ==> l@ == k),
    {
        let (l, g) = self.take_ctx();
        let mut tc = TypeChecker::new_with(env, l, g);
        proof {
            reveal(crate::checker::inferred_shape);
        }
        let r = match tc.infer_type(e) {
            Ok(ty) => tc.ensure_sort(&ty),
            Err(err) => Err(err),
        };
        let (l2, g2) = tc.into_parts();
        self.lctx = l2;
        self.fvar_gen = g2;
        match r {
            Ok(s) => match s.node() {
                ExprNode::Sort { level } => Ok(share(level)),
                _ => Err(KernelError::TypeExpected),
            },
            Err(err) => Err(err),
        }
    }

    /// The weak head normal form of the type of `e`.
    fn tc_whnf_type(&mut self, env: &Environment, e: &Arc<Expr>) -> (r: Result<
        Arc<Expr>,
        KernelError,
    >)
        ensures
            same_block(*final(self), *old(self)),
            final(self).lctx.decls() == old(self).lctx.decls(),
            r matches Ok(x) ==> crate::checker::whnf_core_shape(x@),
            r matches Ok(x) ==> (e@ matches SExpr::Sort(k) ==> x@ == SExpr::Sort(
                crate::level::SLevel::Succ(Box::new(k)),
            )),
    {
        let (l, g) = self.take_ctx();
        let mut tc = TypeChecker::new_with(env, l, g);
        proof {
            reveal(crate::checker::inferred_shape);
        }
        let r = match tc.infer_type(e) {
            Ok(ty) => tc.whnf(&ty),
            Err(err) => Err(err),
        };
        let (l2, g2) = tc.into_parts();
        self.lctx = l2;
        self.fvar_gen = g2;
        r
    }

    /// A fresh local for a binder, its type without annotations.
    fn mk_local(&mut self, name: &Arc<Name>, ty: &Arc<Expr>, bi: BinderInfo) -> (r: Result<
        Arc<Expr>,
        KernelError,
    >)
        ensures
            same_block(*final(self), *old(self)),
            r is Err <==> old(self).fvar_gen.next() == u64::MAX,
            r matches Err(e) ==> e is DeepRecursion,
            r matches Ok(x) ==> {
                &&& x@ == SExpr::FVar(fresh_name(old(self).fvar_gen.next()))
                &&& final(self).fvar_gen.next() == old(self).fvar_gen.next() + 1
                &&& final(self).lctx.decls().len() == old(self).lctx.decls().len() + 1
                &&& final(self).lctx.decls().drop_last() == old(self).lctx.decls()
                &&& final(self).lctx.decls().last().id@ == fresh_name(old(self).fvar_gen.next())
                &&& final(self).lctx.decls().last().binder_name == *name
                &&& final(self).lctx.decls().last().ty@ == consume_annotations_spec(ty@)
                &&& final(self).lctx.decls().last().binder_info == bi
            },
    {
        if self.fvar_gen.next_index() == u64::MAX {
            return Err(KernelError::DeepRecursion);
        }
        let t = consume_type_annotations(ty);
        Ok(self.lctx.mk_local_decl(&mut self.fvar_gen, share(name), t, bi))
    }

    /// The declared type of the `i`-th parameter.
    fn get_param_type(&self, i: usize) -> (r: Result<Arc<Expr>, KernelError>)
        requires
            i < self.params@.len(),
        ensures
            match self.params@[i as int]@ {
                SExpr::FVar(id) => match find_decl(self.lctx.decls(), id) {
                    Some(d) => r == Ok::<Arc<Expr>, KernelError>(d.ty),
                    None => ill_formed_as(r, *self, "parameter not declared"),
                },
                _ => ill_formed_as(r, *self, "parameter not declared"),
            },
    {
        match self.params[i].node() {
            ExprNode::FVar { id } => match self.lctx.get(id) {
                Some(d) => Ok(share(&d.ty)),
                None => Err(ill_formed(&self.name0(), "parameter not declared")),
            },
            _ => Err(ill_formed(&self.name0(), "parameter not declared")),
        }
    }

    fn has_ind_occ(&mut self, e: &Arc<Expr>) -> (r: Result<bool, KernelError>)
        ensures
            same_block(*final(self), *old(self)),
            r matches Ok(x) ==> x == has_const_in(e@, names_view(old(self).ind_names@)),
            r matches Err(err) ==> err is DeepRecursion,
    {
        expr_has_ind_occ(e, self.ind_names.as_slice(), &mut self.guard)
    }

    fn instantiate(&mut self, body: &Arc<Expr>, v: &Arc<Expr>) -> (r: Result<Arc<Expr>, KernelError>)
        ensures
            same_block(*final(self), *old(self)),
            final(self).lctx == old(self).lctx,
            r matches Ok(x) ==> x@ == inst_spec(body@, 0, 0, seq![v@], false),
            r matches Err(err) ==> err is DeepRecursion,
    {
        instantiate(body, v, &mut self.guard)
    }

    // -- the types -----------------------------------------------------

    /// Each type's name and recursor name are new, its type is a
    /// well-formed telescope of the block's parameters (the same for
    /// every type) and indices ending in the block's common universe.
    fn check_inductive_types(&mut self, env: &Environment) -> (r: Result<(), KernelError>)
        requires
            old(self).ind_types@.len() >= 1,
            old(self).nindices@.len() == 0,
            old(self).ind_cnsts@.len() == 0,
            old(self).params@.len() == 0,
        ensures
            r is Ok ==> shaped(*final(self)),
            final(self).ind_types@ == old(self).ind_types@,
            final(self).nparams == old(self).nparams,
            final(self).lparams@ == old(self).lparams@,
            final(self).is_unsafe == old(self).is_unsafe,
            final(self).rec_infos@ == old(self).rec_infos@,
            final(self).minors@ == old(self).minors@,
            r is Ok ==> forall|j: int|
                0 <= j < old(self).ind_types@.len() ==> !crate::env::declares(
                    env.constants(),
                    (#[trigger] old(self).ind_types@[j]).name@,
                ) && !crate::env::declares(env.constants(), rec_name_of(old(self).ind_types@[j].name@)),
            crate::env::declares(env.constants(), old(self).ind_types@[0].name@) ==> r is Err,
    {
        self.levels = lparams_to_levels(self.lparams.as_slice());
        let ntypes = self.ind_types.len();
        let mut idx: usize = 0;
        while idx < ntypes
            invariant
                ntypes == self.ind_types@.len() == old(self).ind_types@.len(),
                self.ind_types@ == old(self).ind_types@,
                self.nparams == old(self).nparams,
                self.lparams@ == old(self).lparams@,
                self.is_unsafe == old(self).is_unsafe,
                self.rec_infos@ == old(self).rec_infos@,
                self.minors@ == old(self).minors@,
                idx <= ntypes,
                self.nindices@.len() == idx,
                self.ind_cnsts@.len() == idx,
                idx > 0 ==> self.params@.len() == self.nparams,
                idx == 0 ==> self.params@.len() == 0,
                forall|j: int|
                    0 <= j < idx ==> !crate::env::declares(
                        env.constants(),
                        (#[trigger] self.ind_types@[j]).name@,
                    ) && !crate::env::declares(env.constants(), rec_name_of(self.ind_types@[j].name@)),
            decreases ntypes - idx,
        {
            let first = idx == 0;
            let ind_name = share(&self.ind_types[idx].name);
            let type0 = share(&self.ind_types[idx].ty);
            check_name(env, &ind_name)?;
            check_name(env, &mk_rec_name(&ind_name))?;
            check_no_metavar_no_fvar(&ind_name, &type0)?;
            self.tc_check(env, &type0)?;
            let mut nidx: usize = 0;
            let mut i: usize = 0;
            let mut ty = self.tc_whnf(env, &type0)?;
            let mut fuel: u64 = u64::MAX;
            loop
                invariant
                    ntypes == self.ind_types@.len(),
                    self.ind_types@ == old(self).ind_types@,
                    self.nparams == old(self).nparams,
                    self.lparams@ == old(self).lparams@,
                    self.is_unsafe == old(self).is_unsafe,
                    self.rec_infos@ == old(self).rec_infos@,
                    self.minors@ == old(self).minors@,
                    idx < ntypes,
                    first == (idx == 0),
                    self.nindices@.len() == idx,
                    self.ind_cnsts@.len() == idx,
                    i <= self.nparams,
                    !first ==> self.params@.len() == self.nparams,
                    first ==> self.params@.len() == i,
                    forall|j: int|
                        0 <= j <= idx ==> !crate::env::declares(
                            env.constants(),
                            (#[trigger] self.ind_types@[j]).name@,
                        ) && !crate::env::declares(env.constants(), rec_name_of(self.ind_types@[j].name@)),
                decreases fuel,
            {
                if fuel == 0 {
                    return Err(KernelError::DeepRecursion);
                }
                fuel = fuel - 1;
                let (bn, bt, body, bi) = match peel_forall(&ty) {
                    Some(p) => p,
                    None => {
                        break ;
                    },
                };
                if i < self.nparams {
                    if first {
                        let param = self.mk_local(&bn, &bt, bi)?;
                        self.params.push(share(&param));
                        ty = self.instantiate(&body, &param)?;
                    } else {
                        let pt = self.get_param_type(i)?;
                        if !self.tc_is_def_eq(env, &bt, &pt)? {
                            return Err(ill_formed(&ind_name, "parameters must match"));
                        }
                        let p_i = share(&self.params[i]);
                        ty = self.instantiate(&body, &p_i)?;
                    }
                    i = i + 1;
                } else {
                    let local = self.mk_local(&bn, &bt, bi)?;
                    ty = self.instantiate(&body, &local)?;
                    if nidx == usize::MAX {
                        return Err(KernelError::DeepRecursion);
                    }
                    nidx = nidx + 1;
                }
                ty = self.tc_whnf(env, &ty)?;
            }
            if i != self.nparams {
                return Err(ill_formed(&ind_name, "number of parameters mismatch"));
            }
            let (l, g) = self.take_ctx();
            let mut tc = TypeChecker::new_with(env, l, g);
            let sort_r = tc.ensure_sort(&ty);
            let (l2, g2) = tc.into_parts();
            self.lctx = l2;
            self.fvar_gen = g2;
            let sort_expr = sort_r?;
            let lvl = match sort_expr.node() {
                ExprNode::Sort { level } => share(level),
                _ => {
                    return Err(KernelError::TypeExpected);
                },
            };
            if first {
                self.result_level = share(&lvl);
                self.is_not_zero = Level::is_never_zero(&lvl, &mut self.guard)?;
            } else {
                if !Level::is_equivalent(&lvl, &self.result_level, &mut self.guard)? {
                    return Err(
                        ill_formed(
                            &ind_name,
                            "mutually inductive types must live in the same universe",
                        ),
                    );
                }
            }
            let mut lv: Vec<Arc<Level>> = Vec::new();
            let mut k: usize = 0;
            while k < self.levels.len()
                decreases self.levels@.len() - k,
            {
                lv.push(share(&self.levels[k]));
                k = k + 1;
            }
            let cnst = Expr::const_(share(&ind_name), lv, &mut self.guard)?;
            self.nindices.push(nidx);
            self.ind_cnsts.push(cnst);
            self.ind_names.push(share(&ind_name));
            idx = idx + 1;
        }
        Ok(())
    }

    /// Whether some constructor has a field whose type mentions a type of
    /// the block.
    fn is_rec(&mut self) -> (r: Result<bool, KernelError>)
        ensures
            same_block(*final(self), *old(self)),
            r matches Ok(x) ==> x == exists|i: int, c: int|
                0 <= i < old(self).ind_types@.len() && 0 <= c < old(self).ind_types@[i].ctors@.len()
                    && #[trigger] domain_mentions(
                    old(self).ind_types@[i].ctors@[c].1@,
                    names_view(old(self).ind_names@),
                ),
            r matches Err(e) ==> e is DeepRecursion,
    {
        let ghost ns = names_view(self.ind_names@);
        let mut idx: usize = 0;
        while idx < self.ind_types.len()
            invariant
                same_block(*self, *old(self)),
                ns == names_view(self.ind_names@),
                idx <= self.ind_types@.len(),
                forall|i: int, c: int|
                    0 <= i < idx && 0 <= c < self.ind_types@[i].ctors@.len() ==> !#[trigger] domain_mentions(
                        self.ind_types@[i].ctors@[c].1@,
                        ns,
                    ),
            decreases self.ind_types@.len() - idx,
        {
            let mut c: usize = 0;
            while c < self.ind_types[idx].ctors.len()
                invariant
                    same_block(*self, *old(self)),
                    ns == names_view(self.ind_names@),
                    idx < self.ind_types@.len(),
                    c <= self.ind_types@[idx as int].ctors@.len(),
                    forall|i: int, k: int|
                        ((0 <= i < idx && 0 <= k < self.ind_types@[i].ctors@.len()) || (i == idx && 0
                            <= k < c)) ==> !#[trigger] domain_mentions(
                            self.ind_types@[i].ctors@[k].1@,
                            ns,
                        ),
                decreases self.ind_types@[idx as int].ctors@.len() - c,
            {
                let mut t = share(&self.ind_types[idx].ctors[c].1);
                let ghost t0 = t@;
                loop
                    invariant
                        same_block(*self, *old(self)),
                        ns == names_view(self.ind_names@),
                        idx < self.ind_types@.len(),
                        c < self.ind_types@[idx as int].ctors@.len(),
                        t0 == self.ind_types@[idx as int].ctors@[c as int].1@,
                        domain_mentions(t0, ns) == domain_mentions(t@, ns),
                    ensures
                        !domain_mentions(t0, ns),
                        t0 == self.ind_types@[idx as int].ctors@[c as int].1@,
                        same_block(*self, *old(self)),
                        ns == names_view(self.ind_names@),
                    decreases crate::subst::tree_height(t@),
                {
                    let (_, dom, body, _) = match peel_forall(&t) {
                        Some(p) => p,
                        None => {
                            break ;
                        },
                    };
                    if self.has_ind_occ(&dom)? {
                        return Ok(true);
                    }
                    t = body;
                }
                c = c + 1;
            }
            idx = idx + 1;
        }
        Ok(false)
    }

    /// Whether some constructor has a function-typed field whose type
    /// mentions a type of the block.
    fn is_reflexive(&mut self) -> (r: Result<bool, KernelError>)
        ensures
            same_block(*final(self), *old(self)),
    {
        let mut idx: usize = 0;
        while idx < self.ind_types.len()
            invariant
                same_block(*self, *old(self)),
            decreases self.ind_types@.len() - idx,
        {
            let mut c: usize = 0;
            while c < self.ind_types[idx].ctors.len()
                invariant
                    same_block(*self, *old(self)),
                    idx < self.ind_types@.len(),
                decreases self.ind_types@[idx as int].ctors@.len() - c,
            {
                let mut t = share(&self.ind_types[idx].ctors[c].1);
                let mut fuel: u64 = u64::MAX;
                loop
                    invariant
                        same_block(*self, *old(self)),
                    decreases fuel,
                {
                    if fuel == 0 {
                        return Err(KernelError::DeepRecursion);
                    }
                    fuel = fuel - 1;
                    let (bn, bt, body, bi) = match peel_forall(&t) {
                        Some(p) => p,
                        None => {
                            break ;
                        },
                    };
                    if bt.is_forall() && self.has_ind_occ(&bt)? {
                        return Ok(true);
                    }
                    let local = self.mk_local(&bn, &bt, bi)?;
                    t = self.instantiate(&body, &local)?;
                }
                c = c + 1;
            }
            idx = idx + 1;
        }
        Ok(false)
    }

    /// The names of the block's types.
    fn all_names(&self) -> (r: Vec<Arc<Name>>)
        ensures
            r@.len() == self.ind_types@.len(),
            forall|i: int| 0 <= i < r@.len() ==> #[trigger] r@[i] == self.ind_types@[i].name,
    {
        let mut all: Vec<Arc<Name>> = Vec::new();
        let mut i: usize = 0;
        while i < self.ind_types.len()
            invariant
                i <= self.ind_types@.len(),
                all@.len() == i,
                forall|k: int| 0 <= k < i ==> #[trigger] all@[k] == self.ind_types@[k].name,
            decreases self.ind_types@.len() - i,
        {
            all.push(share(&self.ind_types[i].name));
            i = i + 1;
        }
        all
    }

    /// A copy of the handles in `v`.
    fn copy_names(v: &Vec<Arc<Name>>) -> (r: Vec<Arc<Name>>)
        ensures
            r@ == v@,
    {
        let mut out: Vec<Arc<Name>> = Vec::new();
        let mut i: usize = 0;
        while i < v.len()
            invariant
                i <= v@.len(),
                out@ == v@.take(i as int),
            decreases v@.len() - i,
        {
            out.push(share(&v[i]));
            i = i + 1;
            proof {
                assert(out@ =~= v@.take(i as int));
            }
        }
        proof {
            assert(v@.take(i as int) =~= v@);
        }
        out
    }

    /// A copy of the handles in `v`.
    fn copy_exprs(v: &Vec<Arc<Expr>>) -> (r: Vec<Arc<Expr>>)
        ensures
            r@ == v@,
    {
        let mut out: Vec<Arc<Expr>> = Vec::new();
        let mut i: usize = 0;
        while i < v.len()
            invariant
                i <= v@.len(),
                out@ == v@.take(i as int),
            decreases v@.len() - i,
        {
            out.push(share(&v[i]));
            i = i + 1;
            proof {
                assert(out@ =~= v@.take(i as int));
            }
        }
        proof {
            assert(v@.take(i as int) =~= v@);
        }
        out
    }

    /// A copy of the handles in `v`.
    fn copy_levels(v: &Vec<Arc<Level>>) -> (r: Vec<Arc<Level>>)
        ensures
            r@ == v@,
    {
        let mut out: Vec<Arc<Level>> = Vec::new();
        let mut i: usize = 0;
        while i < v.len()
            invariant
                i <= v@.len(),
                out@ == v@.take(i as int),
            decreases v@.len() - i,
        {
            out.push(share(&v[i]));
            i = i + 1;
            proof {
                assert(out@ =~= v@.take(i as int));
            }
        }
        proof {
            assert(v@.take(i as int) =~= v@);
        }
        out
    }

    /// Adds one inductive value per type.
    fn declare_inductive_types(&mut self, env: &mut Environment) -> (r: Result<(), KernelError>)
        requires
            shaped(*old(self)),
        ensures
            shaped(*final(self)),
            same_block(*final(self), *old(self)),
            final(env).quot_init() == old(env).quot_init(),
            grows(final(env).constants(), old(env).constants()),
            r is Ok ==> forall|i: int|
                0 <= i < final(self).ind_types@.len() ==> declares_inductive(
                    final(env).constants(),
                    (#[trigger] final(self).ind_types@[i]).name@,
                ),
    {
        let rec = self.is_rec()?;
        let reflexive = self.is_reflexive()?;
        let all = self.all_names();
        let mut idx: usize = 0;
        while idx < self.ind_types.len()
            invariant
                shaped(*self),
                same_block(*self, *old(self)),
                env.quot_init() == old(env).quot_init(),
                grows(env.constants(), old(env).constants()),
                idx <= self.ind_types@.len(),
                forall|i: int|
                    0 <= i < idx ==> declares_inductive(
                        env.constants(),
                        (#[trigger] self.ind_types@[i]).name@,
                    ),
            decreases self.ind_types@.len() - idx,
        {
            let n = share(&self.ind_types[idx].name);
            let ty = share(&self.ind_types[idx].ty);
            let mut ctors: Vec<Arc<Name>> = Vec::new();
            let mut c: usize = 0;
            while c < self.ind_types[idx].ctors.len()
                invariant
                    idx < self.ind_types@.len(),
                decreases self.ind_types@[idx as int].ctors@.len() - c,
            {
                ctors.push(share(&self.ind_types[idx].ctors[c].0));
                c = c + 1;
            }
            check_name(env, &n)?;
            let val = InductiveVal {
                val: ConstantVal { name: share(&n), level_params: Self::copy_names(&self.lparams), ty },
                num_params: Nat::from_u64(self.nparams as u64),
                num_indices: Nat::from_u64(self.nindices[idx] as u64),
                all: Self::copy_names(&all),
                ctors,
                num_nested: self.nnested.clone(),
                is_rec: rec,
                is_unsafe: self.is_unsafe,
                is_reflexive: reflexive,
            };
            let ci = ConstantInfo::Induct(val);
            proof {
                assert(crate::env::const_name(ci) == n@);
                lemma_push_declares(env.constants(), ci);
                lemma_grows_keeps(env.constants().push(ci), env.constants());
            }
            env.add_core(ci);
            idx = idx + 1;
        }
        Ok(())
    }

    // -- the constructors ----------------------------------------------

    /// Whether `t` is the `i`-th type applied to exactly the block's
    /// parameters and to indices that do not mention the block's types.
    fn is_valid_ind_app_i(&mut self, t: &Arc<Expr>, i: usize) -> (r: Result<bool, KernelError>)
        requires
            shaped(*old(self)),
            i < old(self).ind_types@.len(),
        ensures
            same_block(*final(self), *old(self)),
    {
        let head = share(Expr::get_app_fn(t));
        let args = Expr::get_app_args(t);
        if !Expr::structural_eq(&head, &self.ind_cnsts[i], &mut self.guard)? {
            return Ok(false);
        }
        if self.nindices[i] > usize::MAX - self.nparams || args.len() != self.nparams
            + self.nindices[i] {
            return Ok(false);
        }
        let mut k: usize = 0;
        while k < self.nparams
            invariant
                shaped(*self),
                same_block(*self, *old(self)),
                self.nparams <= args@.len(),
            decreases self.nparams - k,
        {
            if !Expr::structural_eq(&self.params[k], &args[k], &mut self.guard)? {
                return Ok(false);
            }
            k = k + 1;
        }
        let mut k: usize = self.nparams;
        while k < args.len()
            invariant
                same_block(*self, *old(self)),
            decreases args@.len() - k,
        {
            if self.has_ind_occ(&args[k])? {
                return Ok(false);
            }
            k = k + 1;
        }
        Ok(true)
    }

    /// The type of the block `t` is a valid application of, if any.
    fn is_valid_ind_app(&mut self, t: &Arc<Expr>) -> (r: Result<Option<usize>, KernelError>)
        requires
            shaped(*old(self)),
        ensures
            same_block(*final(self), *old(self)),
            r matches Ok(Some(i)) ==> i < old(self).ind_types@.len(),
    {
        let mut i: usize = 0;
        while i < self.ind_types.len()
            invariant
                shaped(*self),
                same_block(*self, *old(self)),
            decreases self.ind_types@.len() - i,
        {
            if self.is_valid_ind_app_i(t, i)? {
                return Ok(Some(i));
            }
            i = i + 1;
        }
        Ok(None)
    }

    /// For a field of type `t`: the type of the block its telescope ends
    /// in, when it is a recursive argument.
    fn is_rec_argument(&mut self, env: &Environment, t: &Arc<Expr>) -> (r: Result<
        Option<usize>,
        KernelError,
    >)
        requires
            shaped(*old(self)),
        ensures
            same_block(*final(self), *old(self)),
            r matches Ok(Some(i)) ==> i < old(self).ind_types@.len(),
    {
        let mut t = self.tc_whnf(env, t)?;
        let mut fuel: u64 = u64::MAX;
        loop
            invariant
                shaped(*self),
                same_block(*self, *old(self)),
            decreases fuel,
        {
            if fuel == 0 {
                return Err(KernelError::DeepRecursion);
            }
            fuel = fuel - 1;
            let (bn, bt, body, bi) = match peel_forall(&t) {
                Some(p) => p,
                None => {
                    break ;
                },
            };
            let local = self.mk_local(&bn, &bt, bi)?;
            let inst = self.instantiate(&body, &local)?;
            t = self.tc_whnf(env, &inst)?;
        }
        self.is_valid_ind_app(&t)
    }

    /// The block's types occur in the field type `t` only positively: not
    /// in a domain, and at the end only as a valid application.
    fn check_positivity(&mut self, env: &Environment, t: &Arc<Expr>, cnstr_name: &Arc<Name>) -> (r:
        Result<(), KernelError>)
        requires
            shaped(*old(self)),
        ensures
            same_block(*final(self), *old(self)),
    {
        let mut t = self.tc_whnf(env, t)?;
        let mut fuel: u64 = u64::MAX;
        loop
            invariant
                shaped(*self),
                same_block(*self, *old(self)),
            decreases fuel,
        {
            if fuel == 0 {
                return Err(KernelError::DeepRecursion);
            }
            fuel = fuel - 1;
            if !self.has_ind_occ(&t)? {
                return Ok(());
            }
            match peel_forall(&t) {
                Some((bn, bt, body, bi)) => {
                    if self.has_ind_occ(&bt)? {
                        return Err(ill_formed(cnstr_name, "positivity"));
                    }
                    let local = self.mk_local(&bn, &bt, bi)?;
                    let inst = self.instantiate(&body, &local)?;
                    t = self.tc_whnf(env, &inst)?;
                },
                None => {
                    if self.is_valid_ind_app(&t)?.is_some() {
                        return Ok(());
                    } else {
                        return Err(ill_formed(cnstr_name, "invalid occurrence"));
                    }
                },
            }
        }
    }

    /// Each constructor: a new name, unique in its type, a well-formed
    /// type over the block's parameters whose fields live in universes
    /// the type's universe bounds (or the type is a proposition), occur
    /// positively, and whose result is its type applied to the
    /// parameters.
    fn check_constructors(&mut self, env: &Environment) -> (r: Result<(), KernelError>)
        requires
            shaped(*old(self)),
        ensures
            same_block(*final(self), *old(self)),
            r is Ok ==> forall|i: int, j: int|
                0 <= i < old(self).ind_types@.len() && 0 <= j < old(self).ind_types@[i].ctors@.len()
                    ==> !crate::env::declares(
                    env.constants(),
                    (#[trigger] old(self).ind_types@[i].ctors@[j]).0@,
                ),
    {
        let mut idx: usize = 0;
        while idx < self.ind_types.len()
            invariant
                shaped(*self),
                same_block(*self, *old(self)),
                idx <= self.ind_types@.len(),
                forall|i: int, j: int|
                    0 <= i < idx && 0 <= j < self.ind_types@[i].ctors@.len() ==> !crate::env::declares(
                        env.constants(),
                        (#[trigger] self.ind_types@[i].ctors@[j]).0@,
                    ),
            decreases self.ind_types@.len() - idx,
        {
            let mut found: Vec<Arc<Name>> = Vec::new();
            let mut c: usize = 0;
            while c < self.ind_types[idx].ctors.len()
                invariant
                    shaped(*self),
                    same_block(*self, *old(self)),
                    idx < self.ind_types@.len(),
                    c <= self.ind_types@[idx as int].ctors@.len(),
                    forall|i: int, j: int|
                        (0 <= i < idx && 0 <= j < self.ind_types@[i].ctors@.len()) || (i == idx && 0
                            <= j < c) ==> !crate::env::declares(
                            env.constants(),
                            (#[trigger] self.ind_types@[i].ctors@[j]).0@,
                        ),
                decreases self.ind_types@[idx as int].ctors@.len() - c,
            {
                let n = share(&self.ind_types[idx].ctors[c].0);
                let t0 = share(&self.ind_types[idx].ctors[c].1);
                if name_in(&n, found.as_slice()) {
                    return Err(ill_formed(&n, "duplicate constructor"));
                }
                found.push(share(&n));
                check_name(env, &n)?;
                check_no_metavar_no_fvar(&n, &t0)?;
                self.tc_check(env, &t0)?;
                let mut t = t0;
                let mut i: usize = 0;
                let mut fuel: u64 = u64::MAX;
                loop
                    invariant
                        shaped(*self),
                        same_block(*self, *old(self)),
                        idx < self.ind_types@.len(),
                        c < self.ind_types@[idx as int].ctors@.len(),
                        forall|i: int, j: int|
                            (0 <= i < idx && 0 <= j < self.ind_types@[i].ctors@.len()) || (i == idx
                                && 0 <= j <= c) ==> !crate::env::declares(
                                env.constants(),
                                (#[trigger] self.ind_types@[i].ctors@[j]).0@,
                            ),
                    decreases fuel,
                {
                    if fuel == 0 {
                        return Err(KernelError::DeepRecursion);
                    }
                    fuel = fuel - 1;
                    let (bn, bt, body, bi) = match peel_forall(&t) {
                        Some(p) => p,
                        None => {
                            break ;
                        },
                    };
                    if i < self.nparams {
                        let pt = self.get_param_type(i)?;
                        if !self.tc_is_def_eq(env, &bt, &pt)? {
                            return Err(ill_formed(&n, "constructor parameter mismatch"));
                        }
                        let p_i = share(&self.params[i]);
                        t = self.instantiate(&body, &p_i)?;
                    } else {
                        let s_level = self.tc_sort_of(env, &bt)?;
                        let ok = is_geq(&self.result_level, &s_level, &mut self.guard)?
                            || self.result_level.is_zero();
                        if !ok {
                            return Err(ill_formed(&n, "universe too small"));
                        }
                        if !self.is_unsafe {
                            self.check_positivity(env, &bt, &n)?;
                        }
                        let local = self.mk_local(&bn, &bt, bi)?;
                        t = self.instantiate(&body, &local)?;
                    }
                    if i < usize::MAX {
                        i = i + 1;
                    }
                }
                if !self.is_valid_ind_app_i(&t, idx)? {
                    return Err(ill_formed(&n, "invalid return type"));
                }
                c = c + 1;
            }
            idx = idx + 1;
        }
        Ok(())
    }

    /// Adds one constructor value per constructor.
    fn declare_constructors(&mut self, env: &mut Environment) -> (r: Result<(), KernelError>)
        requires
            shaped(*old(self)),
        ensures
            same_block(*final(self), *old(self)),
            final(env).quot_init() == old(env).quot_init(),
            grows(final(env).constants(), old(env).constants()),
            r is Ok ==> forall|i: int, j: int|
                0 <= i < final(self).ind_types@.len() && 0 <= j
                    < final(self).ind_types@[i].ctors@.len() ==> declares_constructor(
                    final(env).constants(),
                    (#[trigger] final(self).ind_types@[i].ctors@[j]).0@,
                ),
    {
        let mut idx: usize = 0;
        while idx < self.ind_types.len()
            invariant
                shaped(*self),
                same_block(*self, *old(self)),
                env.quot_init() == old(env).quot_init(),
                grows(env.constants(), old(env).constants()),
                idx <= self.ind_types@.len(),
                forall|i: int, j: int|
                    0 <= i < idx && 0 <= j < self.ind_types@[i].ctors@.len() ==> declares_constructor(
                        env.constants(),
                        (#[trigger] self.ind_types@[i].ctors@[j]).0@,
                    ),
            decreases self.ind_types@.len() - idx,
        {
            let ind_name = share(&self.ind_types[idx].name);
            let mut c: usize = 0;
            while c < self.ind_types[idx].ctors.len()
                invariant
                    shaped(*self),
                    same_block(*self, *old(self)),
                    idx < self.ind_types@.len(),
                    env.quot_init() == old(env).quot_init(),
                    grows(env.constants(), old(env).constants()),
                    c <= self.ind_types@[idx as int].ctors@.len(),
                    forall|i: int, j: int|
                        (0 <= i < idx && 0 <= j < self.ind_types@[i].ctors@.len()) || (i == idx && 0
                            <= j < c) ==> declares_constructor(
                            env.constants(),
                            (#[trigger] self.ind_types@[i].ctors@[j]).0@,
                        ),
                decreases self.ind_types@[idx as int].ctors@.len() - c,
            {
                let n = share(&self.ind_types[idx].ctors[c].0);
                let t = share(&self.ind_types[idx].ctors[c].1);
                let mut arity: usize = 0;
                let mut it = share(&t);
                loop
                    decreases crate::subst::tree_height(it@),
                {
                    match peel_forall(&it) {
                        Some((_, _, body, _)) => {
                            it = body;
                            if arity < usize::MAX {
                                arity = arity + 1;
                            }
                        },
                        None => {
                            break ;
                        },
                    }
                }
                let nfields = if arity >= self.nparams {
                    arity - self.nparams
                } else {
                    0
                };
                check_name(env, &n)?;
                let val = ConstructorVal {
                    val: ConstantVal { name: share(&n), level_params: Self::copy_names(&self.lparams), ty: t },
                    induct: share(&ind_name),
                    cidx: Nat::from_u64(c as u64),
                    num_params: Nat::from_u64(self.nparams as u64),
                    num_fields: Nat::from_u64(nfields as u64),
                    is_unsafe: self.is_unsafe,
                };
                let ci = ConstantInfo::Ctor(val);
                proof {
                    assert(crate::env::const_name(ci) == n@);
                    lemma_push_declares(env.constants(), ci);
                    lemma_grows_keeps(env.constants().push(ci), env.constants());
                }
                env.add_core(ci);
                c = c + 1;
            }
            idx = idx + 1;
        }
        Ok(())
    }

    // -- the recursors -------------------------------------------------

    /// Whether the recursor may only eliminate into `Prop`: the block is
    /// a proposition that is mutual, has several constructors, or has a
    /// constructor with a non-proof field that the result's indices do
    /// not determine.
    fn elim_only_at_universe_zero(&mut self, env: &Environment) -> (r: Result<bool, KernelError>)
        requires
            shaped(*old(self)),
        ensures
            same_block(*final(self), *old(self)),
            r matches Ok(x) && x && old(self).ind_types@.len() == 1 && old(self).ind_types@[0].ctors@.len()
                == 1 && annotation_free(old(self).ind_types@[0].ctors@[0].1@) ==> some_data_local(
                final(self).lctx.decls(),
                old(self).lctx.decls().len() + old(self).nparams,
            ),
            old(self).is_not_zero ==> r == Ok::<bool, KernelError>(false),
            !old(self).is_not_zero && (old(self).ind_types@.len() > 1 || old(self).ind_types@[0].ctors@.len()
                > 1) ==> r == Ok::<bool, KernelError>(true),
            !old(self).is_not_zero && old(self).ind_types@.len() == 1 && old(self).ind_types@[0].ctors@.len()
                == 0 ==> r == Ok::<bool, KernelError>(false),
    {
        let ghost base = self.lctx.decls().len() + self.nparams;
        if self.is_not_zero {
            return Ok(false);
        }
        if self.ind_types.len() > 1 {
            return Ok(true);
        }
        let num_intros = self.ind_types[0].ctors.len();
        if num_intros > 1 {
            return Ok(true);
        }
        if num_intros == 0 {
            return Ok(false);
        }
        let mut ty = share(&self.ind_types[0].ctors[0].1);
        let ghost af = annotation_free(ty@);
        let mut i: usize = 0;
        let mut to_check: Vec<Arc<Expr>> = Vec::new();
        let mut fuel: u64 = u64::MAX;
        let ghost mut cnt: nat = 0;
        loop
            invariant
                shaped(*self),
                same_block(*self, *old(self)),
                base == old(self).lctx.decls().len() + old(self).nparams,
                self.lctx.decls().len() == old(self).lctx.decls().len() + cnt,
                i <= cnt,
                af ==> annotation_free(ty@),
                af && to_check@.len() > 0 ==> some_data_local(self.lctx.decls(), base),
                af == annotation_free(old(self).ind_types@[0].ctors@[0].1@),
                !old(self).is_not_zero && old(self).ind_types@.len() == 1 && old(self).ind_types@[0].ctors@.len()
                    == 1,
            decreases fuel,
        {
            if fuel == 0 {
                return Err(KernelError::DeepRecursion);
            }
            fuel = fuel - 1;
            let (bn, bt, body, bi) = match peel_forall(&ty) {
                Some(p) => p,
                None => {
                    break ;
                },
            };
            let ghost d0 = self.lctx.decls();
            let fvar = self.mk_local(&bn, &bt, bi)?;
            let ghost d1 = self.lctx.decls();
            proof {
                if af && to_check@.len() > 0 {
                    let j = choose|j: int| base <= j < d0.len() && !proof_local(d0, j);
                    assert(d1.drop_last() == d0);
                    assert(d1.drop_last()[j] == d1[j]);
                    assert(d1[j] == d0[j]);
                    assert(d1.take(j + 1) =~= d0.take(j + 1));
                    assert(!proof_local(d1, j));
                }
                if af {
                    assert(annotation_free(bt@));
                    assert(!is_annotation(bt@));
                    assert(d1.last().ty@ == bt@);
                }
            }
            if i >= self.nparams {
                let ghost n0 = to_check@.len();
                let s = self.tc_sort_of(env, &bt)?;
                if !s.is_zero() {
                    to_check.push(share(&fvar));
                }
                proof {
                    if to_check@.len() > n0 {
                        let j = d1.len() - 1;
                        assert(d1.take(j + 1) =~= d1);
                        assert(d1[j] == d1.last());
                        if af {
                            assert(!proof_local(d1, j));
                            assert(base <= j < d1.len());
                            assert(some_data_local(d1, base));
                        }
                    }
                }
            }
            ty = self.instantiate(&body, &fvar)?;
            proof {
                if af {
                    lemma_inst_annotation_free(body@, 0, 0, fvar@);
                }
                cnt = cnt + 1;
            }
            if i < usize::MAX {
                i = i + 1;
            }
        }
        let result_args = Expr::get_app_args(&ty);
        let ghost lc = self.lctx.decls();
        let mut k: usize = 0;
        while k < to_check.len()
            invariant
                same_block(*self, *old(self)),
                self.lctx.decls() == lc,
                af && to_check@.len() > 0 ==> some_data_local(self.lctx.decls(), base),
                af == annotation_free(old(self).ind_types@[0].ctors@[0].1@),
                base == old(self).lctx.decls().len() + old(self).nparams,
                !old(self).is_not_zero && old(self).ind_types@.len() == 1 && old(self).ind_types@[0].ctors@.len()
                    == 1,
            decreases to_check@.len() - k,
        {
            let mut found = false;
            let mut j: usize = 0;
            while j < result_args.len()
                invariant
                    same_block(*self, *old(self)),
                    k < to_check@.len(),
                    self.lctx.decls() == lc,
                    !old(self).is_not_zero && old(self).ind_types@.len() == 1 && old(self).ind_types@[0].ctors@.len()
                        == 1,
                decreases result_args@.len() - j,
            {
                if Expr::structural_eq(&to_check[k], &result_args[j], &mut self.guard)? {
                    found = true;
                    break ;
                }
                j = j + 1;
            }
            if !found {
                return Ok(true);
            }
            k = k + 1;
        }
        Ok(false)
    }

    /// The universe the recursor eliminates into: `0`, or a fresh
    /// parameter `u` (`u_1`, `u_2`, ... when taken).
    fn init_elim_level(&mut self, env: &Environment) -> (r: Result<(), KernelError>)
        requires
            shaped(*old(self)),
        ensures
            shaped(*final(self)),
            final(self).ind_types@ == old(self).ind_types@,
            final(self).params@ == old(self).params@,
            final(self).nparams == old(self).nparams,
            final(self).nindices@ == old(self).nindices@,
            final(self).ind_cnsts@ == old(self).ind_cnsts@,
            final(self).ind_names@ == old(self).ind_names@,
            final(self).rec_infos@ == old(self).rec_infos@,
            final(self).minors@ == old(self).minors@,
            final(self).lparams@ == old(self).lparams@,
            r is Ok ==> (final(self).elim_level@ is Zero || (final(self).elim_level@ matches crate::level::SLevel::Param(
                u,
            ) && !names_view(old(self).lparams@).contains(u))),
            r is Ok && old(self).is_not_zero ==> final(self).elim_level@ is Param,
            r is Ok && !old(self).is_not_zero && (old(self).ind_types@.len() > 1 || old(
                self,
            ).ind_types@[0].ctors@.len() > 1) ==> final(self).elim_level@ is Zero,
            r is Ok && old(self).ind_types@.len() == 1 && old(self).ind_types@[0].ctors@.len() == 1
                && annotation_free(old(self).ind_types@[0].ctors@[0].1@) && !some_data_local(
                final(self).lctx.decls(),
                old(self).lctx.decls().len() + old(self).nparams,
            ) ==> final(self).elim_level@ is Param,
    {
        if self.elim_only_at_universe_zero(env)? {
            self.elim_level = Arc::new(Level::Zero);
        } else {
            let base = mk_simple_name("u");
            let mut u = share(&base);
            let mut i: usize = 1;
            while name_in(&u, self.lparams.as_slice())
                invariant
                    shaped(*self),
                    self.ind_types@ == old(self).ind_types@,
                    self.params@ == old(self).params@,
                    self.nparams == old(self).nparams,
                    self.nindices@ == old(self).nindices@,
                    self.ind_cnsts@ == old(self).ind_cnsts@,
                    self.ind_names@ == old(self).ind_names@,
                    self.rec_infos@ == old(self).rec_infos@,
                    self.minors@ == old(self).minors@,
                    self.lparams@ == old(self).lparams@,
                decreases usize::MAX - i,
            {
                if i == usize::MAX {
                    return Err(KernelError::DeepRecursion);
                }
                u = append_index_after(&base, i);
                i = i + 1;
            }
            self.elim_level = Arc::new(Level::Param(u));
        }
        Ok(())
    }

    /// Whether the recursor has the K rule: a single proposition with a
    /// single constructor that has no fields.
    fn init_k_target(&mut self)
        requires
            shaped(*old(self)),
        ensures
            shaped(*final(self)),
            final(self).ind_types@ == old(self).ind_types@,
            final(self).params@ == old(self).params@,
            final(self).nparams == old(self).nparams,
            final(self).nindices@ == old(self).nindices@,
            final(self).ind_cnsts@ == old(self).ind_cnsts@,
            final(self).ind_names@ == old(self).ind_names@,
            final(self).rec_infos@ == old(self).rec_infos@,
            final(self).minors@ == old(self).minors@,
            final(self).k_target == (old(self).ind_types@.len() == 1 && old(self).result_level@ is Zero
                && old(self).ind_types@[0].ctors@.len() == 1 && pi_count(
                old(self).ind_types@[0].ctors@[0].1@,
            ) <= old(self).nparams),
    {
        self.k_target = self.ind_types.len() == 1 && self.result_level.is_zero()
            && self.ind_types[0].ctors.len() == 1;
        if !self.k_target {
            return ;
        }
        let ghost c0 = self.ind_types@[0].ctors@[0].1@;
        let mut it = share(&self.ind_types[0].ctors[0].1);
        let mut i: usize = 0;
        loop
            invariant_except_break
                self.k_target,
            invariant
                old(self).ind_types@.len() == 1 && old(self).result_level@ is Zero
                    && old(self).ind_types@[0].ctors@.len() == 1,
                c0 == old(self).ind_types@[0].ctors@[0].1@,
                pi_count(c0) == i + pi_count(it@),
                i <= self.nparams,
                shaped(*self),
                self.ind_types@ == old(self).ind_types@,
                self.params@ == old(self).params@,
                self.nparams == old(self).nparams,
                self.nindices@ == old(self).nindices@,
                self.ind_cnsts@ == old(self).ind_cnsts@,
                self.ind_names@ == old(self).ind_names@,
                self.rec_infos@ == old(self).rec_infos@,
                self.minors@ == old(self).minors@,
            ensures
                self.k_target == (pi_count(c0) <= self.nparams),
            decreases crate::subst::tree_height(it@),
        {
            match peel_forall(&it) {
                Some((_, _, body, _)) => {
                    if i < self.nparams {
                        it = body;
                    } else {
                        self.k_target = false;
                        break ;
                    }
                },
                None => {
                    break ;
                },
            }
            if i < usize::MAX {
                i = i + 1;
            }
        }
    }

    /// The type of the block `t` is a valid application of, with its
    /// indices pushed onto `indices`.
    fn get_i_indices(&mut self, t: &Arc<Expr>, indices: &mut Vec<Arc<Expr>>) -> (r: Result<
        usize,
        KernelError,
    >)
        requires
            shaped(*old(self)),
        ensures
            same_block(*final(self), *old(self)),
            r matches Ok(i) ==> i < old(self).ind_types@.len(),
            r is Ok ==> exprs_view(final(indices)@) == exprs_view(old(indices)@) + (if old(self).nparams
                <= app_args(t@).len() {
                app_args(t@).skip(old(self).nparams as int)
            } else {
                Seq::empty()
            }),
    {
        let r = match self.is_valid_ind_app(t)? {
            Some(r) => r,
            None => {
                return Err(ill_formed(&self.name0(), "invalid recursor argument"));
            },
        };
        let all_args = Expr::get_app_args(t);
        let ghost start = exprs_view(indices@);
        let mut k: usize = self.nparams;
        while k < all_args.len()
            invariant
                self.nparams <= k,
                k <= all_args@.len() ==> exprs_view(indices@) == start + exprs_view(all_args@).subrange(
                    self.nparams as int,
                    k as int,
                ),
                k > all_args@.len() ==> k == self.nparams && exprs_view(indices@) == start,
            decreases all_args@.len() - k,
        {
            let ghost prev = indices@;
            indices.push(share(&all_args[k]));
            k = k + 1;
            proof {
                assert(exprs_view(indices@) =~= exprs_view(prev).push(all_args@[k - 1]@));
                assert(exprs_view(all_args@).subrange(self.nparams as int, k as int) =~= exprs_view(
                    all_args@,
                ).subrange(self.nparams as int, k - 1).push(all_args@[k - 1]@));
                assert(exprs_view(indices@) =~= start + exprs_view(all_args@).subrange(
                    self.nparams as int,
                    k as int,
                ));
            }
        }
        proof {
            if self.nparams <= all_args@.len() {
                assert(exprs_view(all_args@).subrange(self.nparams as int, k as int) =~= app_args(
                    t@,
                ).skip(self.nparams as int));
            } else {
                assert(exprs_view(indices@) =~= start + Seq::<SExpr>::empty());
            }
        }
        Ok(r)
    }

    /// The fields of a constructor type `cnstr_ty` past the parameters, as
    /// fresh locals, the recursive ones among them, and the result type.
    fn cnstr_fields(&mut self, env: &Environment, cnstr_ty: &Arc<Expr>) -> (r: Result<
        (Vec<Arc<Expr>>, Vec<Arc<Expr>>, Arc<Expr>),
        KernelError,
    >)
        requires
            shaped(*old(self)),
        ensures
            same_block(*final(self), *old(self)),
            r matches Ok(p) ==> {
                &&& !(p.2@ is ForallE)
                &&& forall|k: int| 0 <= k < p.0@.len() ==> (#[trigger] p.0@[k])@ is FVar
                &&& p.1@.len() <= p.0@.len()
                &&& forall|j: int| 0 <= j < p.1@.len() ==> (#[trigger] p.1@[j])@ is FVar
            },
    {
        let mut b_u: Vec<Arc<Expr>> = Vec::new();
        let mut u: Vec<Arc<Expr>> = Vec::new();
        let mut t = share(cnstr_ty);
        let mut i: usize = 0;
        let mut fuel: u64 = u64::MAX;
        loop
            invariant
                shaped(*self),
                same_block(*self, *old(self)),
                forall|k: int| 0 <= k < b_u@.len() ==> (#[trigger] b_u@[k])@ is FVar,
                u@.len() <= b_u@.len(),
                forall|j: int| 0 <= j < u@.len() ==> (#[trigger] u@[j])@ is FVar,
            ensures
                !(t@ is ForallE),
                forall|k: int| 0 <= k < b_u@.len() ==> (#[trigger] b_u@[k])@ is FVar,
                u@.len() <= b_u@.len(),
                forall|j: int| 0 <= j < u@.len() ==> (#[trigger] u@[j])@ is FVar,
            decreases fuel,
        {
            if fuel == 0 {
                return Err(KernelError::DeepRecursion);
            }
            fuel = fuel - 1;
            let (bn, bt, body, bi) = match peel_forall(&t) {
                Some(p) => p,
                None => {
                    break ;
                },
            };
            if i < self.nparams {
                let p_i = share(&self.params[i]);
                t = self.instantiate(&body, &p_i)?;
            } else {
                let l = self.mk_local(&bn, &bt, bi)?;
                b_u.push(share(&l));
                if self.is_rec_argument(env, &bt)?.is_some() {
                    u.push(share(&l));
                }
                t = self.instantiate(&body, &l)?;
            }
            if i < usize::MAX {
                i = i + 1;
            }
        }
        Ok((b_u, u, t))
    }

    /// For a recursive argument `u_i`: the locals of its telescope, the
    /// type of the block it ends in, and that type's indices.
    fn rec_arg_telescope(&mut self, env: &Environment, u_i: &Arc<Expr>) -> (r: Result<
        (Vec<Arc<Expr>>, usize, Vec<Arc<Expr>>),
        KernelError,
    >)
        requires
            shaped(*old(self)),
        ensures
            same_block(*final(self), *old(self)),
            r matches Ok(p) ==> p.1 < old(self).ind_types@.len(),
    {
        let mut u_i_ty = self.tc_whnf_type(env, u_i)?;
        let mut xs: Vec<Arc<Expr>> = Vec::new();
        let mut fuel: u64 = u64::MAX;
        loop
            invariant
                shaped(*self),
                same_block(*self, *old(self)),
            decreases fuel,
        {
            if fuel == 0 {
                return Err(KernelError::DeepRecursion);
            }
            fuel = fuel - 1;
            let (bn, bt, body, bi) = match peel_forall(&u_i_ty) {
                Some(p) => p,
                None => {
                    break ;
                },
            };
            let x = self.mk_local(&bn, &bt, bi)?;
            xs.push(share(&x));
            let inst = self.instantiate(&body, &x)?;
            u_i_ty = self.tc_whnf(env, &inst)?;
        }
        let mut it_indices: Vec<Arc<Expr>> = Vec::new();
        let it_idx = self.get_i_indices(&u_i_ty, &mut it_indices)?;
        Ok((xs, it_idx, it_indices))
    }

    /// `f` applied to each of `args`.
    fn apply_all(f: Arc<Expr>, args: &Vec<Arc<Expr>>) -> (r: Arc<Expr>)
        ensures
            r@ == mk_spine(f@, exprs_view(args@)),
    {
        Expr::mk_app_spine(f, args.as_slice())
    }

    /// The motives, indices and major premises, then the minor premises:
    /// one per constructor, over its fields and one induction hypothesis
    /// per recursive field.
    fn mk_rec_infos(&mut self, env: &Environment) -> (r: Result<(), KernelError>)
        requires
            shaped(*old(self)),
            old(self).rec_infos@.len() == 0,
            old(self).minors@.len() == 0,
        ensures
            shaped(*final(self)),
            final(self).ind_types@ == old(self).ind_types@,
            final(self).params@ == old(self).params@,
            final(self).nparams == old(self).nparams,
            final(self).nindices@ == old(self).nindices@,
            final(self).ind_cnsts@ == old(self).ind_cnsts@,
            final(self).ind_names@ == old(self).ind_names@,
            r is Ok ==> final(self).rec_infos@.len() == final(self).ind_types@.len(),
            r is Ok ==> final(self).minors@.len() == final(self).ind_types@.len(),
    {
        let ntypes = self.ind_types.len();
        let mut d_idx: usize = 0;
        while d_idx < ntypes
            invariant
                ntypes == self.ind_types@.len(),
                shaped(*self),
                self.ind_types@ == old(self).ind_types@,
                self.params@ == old(self).params@,
                self.nparams == old(self).nparams,
                self.nindices@ == old(self).nindices@,
                self.ind_cnsts@ == old(self).ind_cnsts@,
                self.ind_names@ == old(self).ind_names@,
                self.rec_infos@.len() == d_idx,
                self.minors@.len() == 0,
                d_idx <= ntypes,
            decreases ntypes - d_idx,
        {
            let type0 = share(&self.ind_types[d_idx].ty);
            let mut indices: Vec<Arc<Expr>> = Vec::new();
            let mut i: usize = 0;
            let mut t = self.tc_whnf(env, &type0)?;
            let mut fuel: u64 = u64::MAX;
            loop
                invariant
                    ntypes == self.ind_types@.len(),
                    shaped(*self),
                    self.ind_types@ == old(self).ind_types@,
                    self.params@ == old(self).params@,
                    self.nparams == old(self).nparams,
                    self.nindices@ == old(self).nindices@,
                    self.ind_cnsts@ == old(self).ind_cnsts@,
                    self.ind_names@ == old(self).ind_names@,
                    self.rec_infos@.len() == d_idx,
                    self.minors@.len() == 0,
                    d_idx < ntypes,
                decreases fuel,
            {
                if fuel == 0 {
                    return Err(KernelError::DeepRecursion);
                }
                fuel = fuel - 1;
                let (bn, bt, body, bi) = match peel_forall(&t) {
                    Some(p) => p,
                    None => {
                        break ;
                    },
                };
                if i < self.nparams {
                    let p_i = share(&self.params[i]);
                    t = self.instantiate(&body, &p_i)?;
                } else {
                    let idxv = self.mk_local(&bn, &bt, bi)?;
                    indices.push(share(&idxv));
                    t = self.instantiate(&body, &idxv)?;
                }
                if i < usize::MAX {
                    i = i + 1;
                }
                t = self.tc_whnf(env, &t)?;
            }
            let major_ty = Self::apply_all(
                Self::apply_all(share(&self.ind_cnsts[d_idx]), &self.params),
                &indices,
            );
            let major = self.mk_local(&mk_simple_name("t"), &major_ty, BinderInfo::Default)?;
            let sort = Expr::sort(share(&self.elim_level), &mut self.guard)?;
            let mut fvars = Self::copy_exprs(&indices);
            fvars.push(share(&major));
            let c_ty = self.lctx.mk_pi(fvars.as_slice(), &sort, &mut self.guard)?;
            let c_name = if ntypes > 1 {
                append_index_after(&mk_simple_name("motive"), d_idx + 1)
            } else {
                mk_simple_name("motive")
            };
            let c = self.mk_local(&c_name, &c_ty, BinderInfo::Default)?;
            self.rec_infos.push(RecInfo { c, indices, major });
            d_idx = d_idx + 1;
        }
        let mut d_idx: usize = 0;
        while d_idx < ntypes
            invariant
                ntypes == self.ind_types@.len(),
                shaped(*self),
                self.ind_types@ == old(self).ind_types@,
                self.params@ == old(self).params@,
                self.nparams == old(self).nparams,
                self.nindices@ == old(self).nindices@,
                self.ind_cnsts@ == old(self).ind_cnsts@,
                self.ind_names@ == old(self).ind_names@,
                self.rec_infos@.len() == ntypes,
                self.minors@.len() == d_idx,
                d_idx <= ntypes,
            decreases ntypes - d_idx,
        {
            let ind_type_name = share(&self.ind_types[d_idx].name);
            let mut minors_here: Vec<Arc<Expr>> = Vec::new();
            let mut c: usize = 0;
            while c < self.ind_types[d_idx].ctors.len()
                invariant
                    ntypes == self.ind_types@.len(),
                    shaped(*self),
                    self.ind_types@ == old(self).ind_types@,
                    self.params@ == old(self).params@,
                    self.nparams == old(self).nparams,
                    self.nindices@ == old(self).nindices@,
                    self.ind_cnsts@ == old(self).ind_cnsts@,
                    self.ind_names@ == old(self).ind_names@,
                    self.rec_infos@.len() == ntypes,
                    self.minors@.len() == d_idx,
                    d_idx < ntypes,
                decreases self.ind_types@[d_idx as int].ctors@.len() - c,
            {
                let cnstr_name = share(&self.ind_types[d_idx].ctors[c].0);
                let cnstr_ty = share(&self.ind_types[d_idx].ctors[c].1);
                let (b_u, u, t) = self.cnstr_fields(env, &cnstr_ty)?;
                let mut it_indices: Vec<Arc<Expr>> = Vec::new();
                let it_idx = self.get_i_indices(&t, &mut it_indices)?;
                let c_head = share(&self.rec_infos[it_idx].c);
                let mut c_app = Self::apply_all(c_head, &it_indices);
                let cnstr_const = Expr::const_(
                    share(&cnstr_name),
                    Self::copy_levels(&self.levels),
                    &mut self.guard,
                )?;
                let intro_app = Self::apply_all(Self::apply_all(cnstr_const, &self.params), &b_u);
                c_app = Expr::app(c_app, intro_app);
                let mut v: Vec<Arc<Expr>> = Vec::new();
                let mut k: usize = 0;
                while k < u.len()
                    invariant
                        ntypes == self.ind_types@.len(),
                        shaped(*self),
                        self.ind_types@ == old(self).ind_types@,
                        self.params@ == old(self).params@,
                        self.nparams == old(self).nparams,
                        self.nindices@ == old(self).nindices@,
                        self.ind_cnsts@ == old(self).ind_cnsts@,
                        self.ind_names@ == old(self).ind_names@,
                        self.rec_infos@.len() == ntypes,
                        self.minors@.len() == d_idx,
                        d_idx < ntypes,
                    decreases u@.len() - k,
                {
                    let u_i = share(&u[k]);
                    let (xs, it_idx2, it_indices2) = self.rec_arg_telescope(env, &u_i)?;
                    let c_head2 = share(&self.rec_infos[it_idx2].c);
                    let c_app2 = Expr::app(
                        Self::apply_all(c_head2, &it_indices2),
                        Self::apply_all(share(&u_i), &xs),
                    );
                    let v_i_ty = self.lctx.mk_pi(xs.as_slice(), &c_app2, &mut self.guard)?;
                    let user_name = match u_i.node() {
                        ExprNode::FVar { id } => match self.lctx.get(id) {
                            Some(d) => share(&d.binder_name),
                            None => {
                                return Err(ill_formed(&self.name0(), "field not declared"));
                            },
                        },
                        _ => {
                            return Err(ill_formed(&self.name0(), "field not declared"));
                        },
                    };
                    let v_i_name = append_after_str(&user_name, "_ih");
                    let v_i = self.mk_local(&v_i_name, &v_i_ty, BinderInfo::Default)?;
                    v.push(v_i);
                    k = k + 1;
                }
                let inner = self.lctx.mk_pi(v.as_slice(), &c_app, &mut self.guard)?;
                let minor_ty = self.lctx.mk_pi(b_u.as_slice(), &inner, &mut self.guard)?;
                let minor_name = replace_prefix(&cnstr_name, &ind_type_name, &Name::anonymous());
                let minor = self.mk_local(&minor_name, &minor_ty, BinderInfo::Default)?;
                minors_here.push(minor);
                c = c + 1;
            }
            self.minors.push(minors_here);
            d_idx = d_idx + 1;
        }
        Ok(())
    }

    /// The recursor's universe parameters as levels: the elimination
    /// level first when it is a parameter.
    fn get_rec_levels(&self) -> (r: Vec<Arc<Level>>)
        ensures
            r@ == (if self.elim_level@ is Param {
                seq![self.elim_level]
            } else {
                Seq::empty()
            }) + self.levels@,
    {
        let mut ls: Vec<Arc<Level>> = Vec::new();
        if let Level::Param(_) = &*self.elim_level {
            ls.push(share(&self.elim_level));
        }
        let ghost start = ls@;
        let mut i: usize = 0;
        while i < self.levels.len()
            invariant
                i <= self.levels@.len(),
                ls@ == start + self.levels@.take(i as int),
            decreases self.levels@.len() - i,
        {
            ls.push(share(&self.levels[i]));
            i = i + 1;
            proof {
                assert(ls@ =~= start + self.levels@.take(i as int));
            }
        }
        proof {
            assert(self.levels@.take(i as int) =~= self.levels@);
        }
        ls
    }

    /// The recursor's universe parameters.
    fn get_rec_lparams(&self) -> (r: Vec<Arc<Name>>)
        ensures
            r@ == (match *self.elim_level {
                Level::Param(u) => seq![u],
                _ => Seq::empty(),
            }) + self.lparams@,
    {
        let mut ps: Vec<Arc<Name>> = Vec::new();
        if let Level::Param(u) = &*self.elim_level {
            ps.push(share(u));
        }
        let ghost start = ps@;
        let mut i: usize = 0;
        while i < self.lparams.len()
            invariant
                i <= self.lparams@.len(),
                ps@ == start + self.lparams@.take(i as int),
            decreases self.lparams@.len() - i,
        {
            ps.push(share(&self.lparams[i]));
            i = i + 1;
            proof {
                assert(ps@ =~= start + self.lparams@.take(i as int));
            }
        }
        proof {
            assert(self.lparams@.take(i as int) =~= self.lparams@);
        }
        ps
    }

    /// The motives, one per type.
    fn collect_cs(&self) -> (r: Vec<Arc<Expr>>)
        ensures
            r@.len() == self.rec_infos@.len(),
            forall|i: int| 0 <= i < r@.len() ==> #[trigger] r@[i] == self.rec_infos@[i].c,
    {
        let mut cs: Vec<Arc<Expr>> = Vec::new();
        let mut i: usize = 0;
        while i < self.rec_infos.len()
            invariant
                i <= self.rec_infos@.len(),
                cs@.len() == i,
                forall|k: int| 0 <= k < i ==> #[trigger] cs@[k] == self.rec_infos@[k].c,
            decreases self.rec_infos@.len() - i,
        {
            cs.push(share(&self.rec_infos[i].c));
            i = i + 1;
        }
        cs
    }

    /// The minor premises, type by type.
    fn collect_minors(&self) -> (r: Vec<Arc<Expr>>)
        ensures
            r@ == flatten_minors(self.minors@),
    {
        let mut ms: Vec<Arc<Expr>> = Vec::new();
        let mut i: usize = 0;
        while i < self.minors.len()
            invariant
                i <= self.minors@.len(),
                ms@ == flatten_minors(self.minors@.take(i as int)),
            decreases self.minors@.len() - i,
        {
            let ghost before = ms@;
            let mut j: usize = 0;
            while j < self.minors[i].len()
                invariant
                    i < self.minors@.len(),
                    j <= self.minors@[i as int]@.len(),
                    ms@ == before + self.minors@[i as int]@.take(j as int),
                decreases self.minors@[i as int]@.len() - j,
            {
                ms.push(share(&self.minors[i][j]));
                j = j + 1;
                proof {
                    assert(ms@ =~= before + self.minors@[i as int]@.take(j as int));
                }
            }
            proof {
                assert(self.minors@[i as int]@.take(j as int) =~= self.minors@[i as int]@);
                assert(self.minors@.take(i + 1).drop_last() =~= self.minors@.take(i as int));
            }
            i = i + 1;
        }
        proof {
            assert(self.minors@.take(i as int) =~= self.minors@);
        }
        ms
    }

    /// The computation rules of the `d_idx`-th recursor: for each
    /// constructor, its minor premise applied to the fields and to one
    /// recursive call per recursive field, abstracted over the
    /// parameters, motives, minor premises and fields.
    fn mk_rec_rules(
        &mut self,
        env: &Environment,
        d_idx: usize,
        cs: &Vec<Arc<Expr>>,
        minors: &Vec<Arc<Expr>>,
        minor_idx: &mut usize,
    ) -> (r: Result<Vec<RecursorRule>, KernelError>)
        requires
            shaped(*old(self)),
            d_idx < old(self).ind_types@.len(),
        ensures
            same_block(*final(self), *old(self)),
    {
        let lvls = self.get_rec_levels();
        let params = Self::copy_exprs(&self.params);
        let mut rules: Vec<RecursorRule> = Vec::new();
        let mut c: usize = 0;
        while c < self.ind_types[d_idx].ctors.len()
            invariant
                shaped(*self),
                same_block(*self, *old(self)),
                d_idx < self.ind_types@.len(),
            decreases self.ind_types@[d_idx as int].ctors@.len() - c,
        {
            let cnstr_name = share(&self.ind_types[d_idx].ctors[c].0);
            let cnstr_ty = share(&self.ind_types[d_idx].ctors[c].1);
            let (b_u, u, _t) = self.cnstr_fields(env, &cnstr_ty)?;
            let mut v: Vec<Arc<Expr>> = Vec::new();
            let mut k: usize = 0;
            while k < u.len()
                invariant
                    shaped(*self),
                    same_block(*self, *old(self)),
                    d_idx < self.ind_types@.len(),
                decreases u@.len() - k,
            {
                let u_i = share(&u[k]);
                let (xs, it_idx, it_indices) = self.rec_arg_telescope(env, &u_i)?;
                let rec_name = mk_rec_name(&self.ind_types[it_idx].name);
                let rec_const = Expr::const_(rec_name, Self::copy_levels(&lvls), &mut self.guard)?;
                let mut rec_app = Self::apply_all(rec_const, &params);
                rec_app = Self::apply_all(rec_app, cs);
                rec_app = Self::apply_all(rec_app, minors);
                rec_app = Self::apply_all(rec_app, &it_indices);
                rec_app = Expr::app(rec_app, Self::apply_all(share(&u_i), &xs));
                let lam = self.lctx.mk_lambda(xs.as_slice(), &rec_app, &mut self.guard)?;
                v.push(lam);
                k = k + 1;
            }
            if *minor_idx >= minors.len() {
                return Err(ill_formed(&self.name0(), "minor premise missing"));
            }
            let e_app = Self::apply_all(Self::apply_all(share(&minors[*minor_idx]), &b_u), &v);
            let l1 = self.lctx.mk_lambda(b_u.as_slice(), &e_app, &mut self.guard)?;
            let l2 = self.lctx.mk_lambda(minors.as_slice(), &l1, &mut self.guard)?;
            let l3 = self.lctx.mk_lambda(cs.as_slice(), &l2, &mut self.guard)?;
            let comp_rhs = self.lctx.mk_lambda(params.as_slice(), &l3, &mut self.guard)?;
            rules.push(
                RecursorRule {
                    ctor: cnstr_name,
                    nfields: Nat::from_u64(b_u.len() as u64),
                    rhs: comp_rhs,
                },
            );
            *minor_idx = *minor_idx + 1;
            c = c + 1;
        }
        Ok(rules)
    }

    /// Adds one recursor per type: over the parameters, motives, minor
    /// premises, indices and major premise, into the motive; its
    /// computation rules; the K flag.
    fn declare_recursors(&mut self, env: &mut Environment) -> (r: Result<(), KernelError>)
        requires
            shaped(*old(self)),
            old(self).rec_infos@.len() == old(self).ind_types@.len(),
        ensures
            final(env).quot_init() == old(env).quot_init(),
            grows(final(env).constants(), old(env).constants()),
            final(self).ind_types@ == old(self).ind_types@,
            r is Ok ==> forall|i: int|
                0 <= i < final(self).ind_types@.len() ==> declares_recursor(
                    final(env).constants(),
                    rec_name_of((#[trigger] final(self).ind_types@[i]).name@),
                ),
    {
        let cs = self.collect_cs();
        let minors = self.collect_minors();
        let nminors = minors.len();
        let nmotives = cs.len();
        let all = self.all_names();
        let params = Self::copy_exprs(&self.params);
        let mut minor_idx: usize = 0;
        let mut d_idx: usize = 0;
        while d_idx < self.ind_types.len()
            invariant
                shaped(*self),
                same_block(*self, *old(self)),
                self.rec_infos@.len() == self.ind_types@.len(),
                env.quot_init() == old(env).quot_init(),
                grows(env.constants(), old(env).constants()),
                d_idx <= self.ind_types@.len(),
                forall|i: int|
                    0 <= i < d_idx ==> declares_recursor(
                        env.constants(),
                        rec_name_of((#[trigger] self.ind_types@[i]).name@),
                    ),
            decreases self.ind_types@.len() - d_idx,
        {
            let c = share(&self.rec_infos[d_idx].c);
            let indices = Self::copy_exprs(&self.rec_infos[d_idx].indices);
            let major = share(&self.rec_infos[d_idx].major);
            let c_app = Expr::app(Self::apply_all(c, &indices), share(&major));
            let mut major_v: Vec<Arc<Expr>> = Vec::new();
            major_v.push(share(&major));
            let mut rec_ty = self.lctx.mk_pi(major_v.as_slice(), &c_app, &mut self.guard)?;
            rec_ty = self.lctx.mk_pi(indices.as_slice(), &rec_ty, &mut self.guard)?;
            rec_ty = self.lctx.mk_pi(minors.as_slice(), &rec_ty, &mut self.guard)?;
            rec_ty = self.lctx.mk_pi(cs.as_slice(), &rec_ty, &mut self.guard)?;
            rec_ty = self.lctx.mk_pi(params.as_slice(), &rec_ty, &mut self.guard)?;
            let rec_ty = infer_implicit(&rec_ty, &mut self.guard)?;
            let rules = self.mk_rec_rules(env, d_idx, &cs, &minors, &mut minor_idx)?;
            let rec_name = mk_rec_name(&self.ind_types[d_idx].name);
            let rec_lparams = self.get_rec_lparams();
            check_name(env, &rec_name)?;
            let val = RecursorVal {
                val: ConstantVal { name: share(&rec_name), level_params: rec_lparams, ty: rec_ty },
                all: Self::copy_names(&all),
                num_params: Nat::from_u64(self.nparams as u64),
                num_indices: Nat::from_u64(self.nindices[d_idx] as u64),
                num_motives: Nat::from_u64(nmotives as u64),
                num_minors: Nat::from_u64(nminors as u64),
                rules,
                k: self.k_target,
                is_unsafe: self.is_unsafe,
            };
            let ci = ConstantInfo::Rec(val);
            proof {
                assert(crate::env::const_name(ci) == rec_name@);
                lemma_push_declares(env.constants(), ci);
                lemma_grows_keeps(env.constants().push(ci), env.constants());
            }
            env.add_core(ci);
            d_idx = d_idx + 1;
        }
        Ok(())
    }
}

/// No subterm of `e` is a type annotation (`optParam`, `autoParam`,
/// `outParam` or `semiOutParam` applied to its arguments).
pub open spec fn annotation_free(e: SExpr) -> bool
    decreases e,
{
    &&& !is_annotation(e)
    &&& match e {
        SExpr::App(f, a) => annotation_free(*f) && annotation_free(*a),
        SExpr::Lam(_, t, b, _) => annotation_free(*t) && annotation_free(*b),
        SExpr::ForallE(_, t, b, _) => annotation_free(*t) && annotation_free(*b),
        SExpr::LetE(_, t, v, b, _) => annotation_free(*t) && annotation_free(*v) && annotation_free(*b),
        SExpr::MData(_, x) => annotation_free(*x),
        SExpr::Proj(_, _, x) => annotation_free(*x),
        _ => true,
    }
}

/// The `j`-th local of `decls` stands for a proof: its type is a local
/// whose declaration, among the locals up to the `j`-th, has type `Prop`.
pub open spec fn proof_local(decls: Seq<LocalDecl>, j: int) -> bool {
    &&& decls[j].ty@ is FVar
    &&& crate::checker::local_type(decls.take(j + 1), decls[j].ty@) == Some(
        SExpr::Sort(crate::level::SLevel::Zero),
    )
}

/// Some local from the `from`-th on is not a `proof_local`.
pub open spec fn some_data_local(decls: Seq<LocalDecl>, from: int) -> bool {
    exists|j: int| from <= j < decls.len() && !proof_local(decls, j)
}

/// Substituting a local for a bound variable keeps an application's head
/// constant and its number of arguments.
proof fn lemma_inst_spine(e: SExpr, s: nat, off: nat, x: SExpr)
    requires
        x is FVar,
    ensures
        app_args(inst_spec(e, s, off, seq![x], false)).len() == app_args(e).len(),
        app_fn(inst_spec(e, s, off, seq![x], false)) is Const ==> app_fn(
            inst_spec(e, s, off, seq![x], false),
        ) == app_fn(e),
    decreases e,
{
    if s + off <= u32::MAX {
        match e {
            SExpr::App(f, a) => {
                lemma_inst_spine(*f, s, off, x);
            },
            _ => {},
        }
    }
}

/// Substituting a local for a bound variable creates no annotation.
proof fn lemma_inst_annotation_free(e: SExpr, s: nat, off: nat, x: SExpr)
    requires
        x is FVar,
        annotation_free(e),
    ensures
        annotation_free(inst_spec(e, s, off, seq![x], false)),
    decreases e,
{
    lemma_inst_spine(e, s, off, x);
    if s + off <= u32::MAX {
        match e {
            SExpr::App(f, a) => {
                lemma_inst_annotation_free(*f, s, off, x);
                lemma_inst_annotation_free(*a, s, off, x);
            },
            SExpr::Lam(_, t, b, _) => {
                lemma_inst_annotation_free(*t, s, off, x);
                lemma_inst_annotation_free(*b, s, off + 1, x);
            },
            SExpr::ForallE(_, t, b, _) => {
                lemma_inst_annotation_free(*t, s, off, x);
                lemma_inst_annotation_free(*b, s, off + 1, x);
            },
            SExpr::LetE(_, t, v, b, _) => {
                lemma_inst_annotation_free(*t, s, off, x);
                lemma_inst_annotation_free(*v, s, off, x);
                lemma_inst_annotation_free(*b, s, off + 1, x);
            },
            SExpr::MData(_, y) => {
                lemma_inst_annotation_free(*y, s, off, x);
            },
            SExpr::Proj(_, _, y) => {
                lemma_inst_annotation_free(*y, s, off, x);
            },
            _ => {},
        }
    }
}

/// The minor premises of every type, in order.
spec fn flatten_minors(m: Seq<Vec<Arc<Expr>>>) -> Seq<Arc<Expr>>
    decreases m.len(),
{
    if m.len() == 0 {
        Seq::empty()
    } else {
        flatten_minors(m.drop_last()) + m.last()@
    }
}

/// `r` is the error `ill_formed` gives for the first type of `f`.
spec fn ill_formed_as<T>(r: Result<T, KernelError>, f: AddInductiveFn, what: &'static str) -> bool {
    &&& r matches Err(e) && e matches KernelError::InvalidInductive { name, what: w } && w == what
    &&& r matches Err(KernelError::InvalidInductive { name, .. }) ==> name@ == (if f.ind_types@.len() > 0 {
        f.ind_types@[0].name@
    } else {
        Seq::<NameComp>::empty()
    })
}

/// `old` is a prefix of `new`.
pub open spec fn grows(new: Seq<ConstantInfo>, old: Seq<ConstantInfo>) -> bool {
    &&& old.len() <= new.len()
    &&& forall|i: int| 0 <= i < old.len() ==> #[trigger] new[i] == old[i]
}

/// `cs` holds an inductive type named `n`.
pub open spec fn declares_inductive(cs: Seq<ConstantInfo>, n: Seq<NameComp>) -> bool {
    exists|k: int| 0 <= k < cs.len() && const_name(#[trigger] cs[k]) == n && cs[k] is Induct
}

/// `cs` holds a constructor named `n`.
pub open spec fn declares_constructor(cs: Seq<ConstantInfo>, n: Seq<NameComp>) -> bool {
    exists|k: int| 0 <= k < cs.len() && const_name(#[trigger] cs[k]) == n && cs[k] is Ctor
}

/// `cs` holds a recursor named `n`.
pub open spec fn declares_recursor(cs: Seq<ConstantInfo>, n: Seq<NameComp>) -> bool {
    exists|k: int| 0 <= k < cs.len() && const_name(#[trigger] cs[k]) == n && cs[k] is Rec
}

/// The name of the recursor of the type named `n`.
pub open spec fn rec_name_of(n: Seq<NameComp>) -> Seq<NameComp> {
    n.push(NameComp::Str("rec"@))
}

/// `cs` declares the type `t` as an inductive type, each of its
/// constructors as a constructor, and its recursor.
pub open spec fn type_declared(cs: Seq<ConstantInfo>, t: InductiveType) -> bool {
    &&& declares_inductive(cs, t.name@)
    &&& forall|j: int|
        0 <= j < t.ctors@.len() ==> declares_constructor(cs, (#[trigger] t.ctors@[j]).0@)
    &&& declares_recursor(cs, rec_name_of(t.name@))
}

/// Every type of the block is declared with its constructors and
/// recursor.
pub open spec fn block_declared(cs: Seq<ConstantInfo>, types: Seq<InductiveType>) -> bool {
    forall|i: int| 0 <= i < types.len() ==> type_declared(cs, #[trigger] types[i])
}

/// What an environment declares it still declares once it has grown.
proof fn lemma_grows_keeps(new: Seq<ConstantInfo>, old: Seq<ConstantInfo>)
    requires
        grows(new, old),
    ensures
        forall|n: Seq<NameComp>| declares_inductive(old, n) ==> #[trigger] declares_inductive(new, n),
        forall|n: Seq<NameComp>|
            declares_constructor(old, n) ==> #[trigger] declares_constructor(new, n),
        forall|n: Seq<NameComp>| declares_recursor(old, n) ==> #[trigger] declares_recursor(new, n),
        forall|t: InductiveType| type_declared(old, t) ==> #[trigger] type_declared(new, t),
        forall|ts: Seq<InductiveType>| block_declared(old, ts) ==> #[trigger] block_declared(new, ts),
{
    assert forall|n: Seq<NameComp>| declares_inductive(old, n) implies declares_inductive(new, n) by {
        let k = choose|k: int| 0 <= k < old.len() && const_name(#[trigger] old[k]) == n && old[k] is Induct;
        assert(new[k] == old[k]);
    }
    assert forall|n: Seq<NameComp>| declares_constructor(old, n) implies declares_constructor(new, n) by {
        let k = choose|k: int| 0 <= k < old.len() && const_name(#[trigger] old[k]) == n && old[k] is Ctor;
        assert(new[k] == old[k]);
    }
    assert forall|n: Seq<NameComp>| declares_recursor(old, n) implies declares_recursor(new, n) by {
        let k = choose|k: int| 0 <= k < old.len() && const_name(#[trigger] old[k]) == n && old[k] is Rec;
        assert(new[k] == old[k]);
    }
    assert forall|t: InductiveType| type_declared(old, t) implies type_declared(new, t) by {
        assert forall|j: int| 0 <= j < t.ctors@.len() implies declares_constructor(
            new,
            (#[trigger] t.ctors@[j]).0@,
        ) by {
            assert(declares_constructor(old, t.ctors@[j].0@));
        }
    }
    assert forall|ts: Seq<InductiveType>| block_declared(old, ts) implies block_declared(new, ts) by {
        assert forall|i: int| 0 <= i < ts.len() implies type_declared(new, #[trigger] ts[i]) by {
            assert(type_declared(old, ts[i]));
        }
    }
}

/// Adding a constant under a new name keeps every earlier one and
/// declares the new one.
proof fn lemma_push_declares(cs: Seq<ConstantInfo>, c: ConstantInfo)
    requires
        !crate::env::declares(cs, const_name(c)),
    ensures
        crate::env::put(cs, c) == cs.push(c),
        grows(cs.push(c), cs),
        c is Induct ==> declares_inductive(cs.push(c), const_name(c)),
        c is Ctor ==> declares_constructor(cs.push(c), const_name(c)),
        c is Rec ==> declares_recursor(cs.push(c), const_name(c)),
{
    let new = cs.push(c);
    assert(new[cs.len() as int] == c);
}

/// Runs the admission of an already nesting-free block; on failure the
/// environment is put back as it was.
fn run_add_inductive_fn(
    env: &mut Environment,
    lparams: Vec<Arc<Name>>,
    nparams: usize,
    types: Vec<InductiveType>,
    is_unsafe: bool,
    nnested: Nat,
) -> (r: Result<(), KernelError>)
    ensures
        final(env).quot_init() == old(env).quot_init(),
        r is Err ==> final(env).constants() == old(env).constants(),
        r is Ok ==> grows(final(env).constants(), old(env).constants()),
        r is Ok ==> block_declared(final(env).constants(), types@),
{
    let n0 = env.len();
    let mut f = AddInductiveFn::new(lparams, nparams, types, is_unsafe, nnested);
    match f.run(env) {
        Ok(()) => Ok(()),
        Err(e) => {
            env.truncate(n0);
            proof {
                assert(env.constants() =~= old(env).constants());
            }
            Err(e)
        },
    }
}

// ---------------------------------------------------------------------
// Nested occurrences.
// ---------------------------------------------------------------------

/// What the elimination of nested occurrences reads.
struct ElimCtx<'e> {
    env: &'e Environment,
    lvls: Vec<Arc<Level>>,
    params: Vec<Arc<Expr>>,
    nparams: usize,
    name0: Arc<Name>,
}

/// What it builds: the enlarged block, the nested applications lifted so
/// far with their auxiliary type names, and its id generator.
struct ElimState {
    ngen: FVarIdGen,
    nested_aux: Vec<(Arc<Expr>, Arc<Name>)>,
    new_types: Vec<InductiveType>,
    new_type_names: Vec<Arc<Name>>,
    next_idx: usize,
}

impl ElimState {
    fn empty() -> (r: ElimState)
        ensures
            r.ngen.next() == 0,
            r.nested_aux@.len() == 0,
            r.new_types@.len() == 0,
            r.new_type_names@.len() == 0,
            r.next_idx == 1,
    {
        ElimState {
            ngen: FVarIdGen::default(),
            nested_aux: Vec::new(),
            new_types: Vec::new(),
            new_type_names: Vec::new(),
            next_idx: 1,
        }
    }
}

/// What elimination hands back: the block's parameters, each auxiliary
/// type with the nested application it stands for, the enlarged block,
/// and the id generator.
struct ElimResult {
    params: Vec<Arc<Expr>>,
    aux2nested: Vec<(Arc<Name>, Arc<Expr>)>,
    aux_types: Vec<InductiveType>,
    ngen: FVarIdGen,
}

/// Some leading binder domain of `e` mentions a constant named in `ns`.
spec fn domain_mentions(e: SExpr, ns: Seq<Seq<NameComp>>) -> bool
    decreases e,
{
    match e {
        SExpr::ForallE(_, d, b, _) => has_const_in(*d, ns) || domain_mentions(*b, ns),
        _ => false,
    }
}

/// The number of leading `ForallE` binders of `e`.
spec fn pi_count(e: SExpr) -> nat
    decreases e,
{
    match e {
        SExpr::ForallE(_, _, b, _) => 1 + pi_count(*b),
        _ => 0,
    }
}

/// `e` without its `n` leading `ForallE` binders, if it has them.
spec fn strip_pis(e: SExpr, n: nat) -> Option<SExpr>
    decreases n,
{
    if n == 0 {
        Some(e)
    } else {
        match e {
            SExpr::ForallE(_, _, b, _) => strip_pis(*b, (n - 1) as nat),
            _ => None,
        }
    }
}

/// Stripping `a` binders, then `b`, strips `a + b`.
proof fn lemma_strip_add(e: SExpr, a: nat, b: nat)
    ensures
        strip_pis(e, a + b) == match strip_pis(e, a) {
            Some(x) => strip_pis(x, b),
            None => None,
        },
    decreases a,
{
    if a > 0 {
        match e {
            SExpr::ForallE(_, _, body, _) => {
                lemma_strip_add(*body, (a - 1) as nat, b);
                assert((a + b - 1) as nat == ((a - 1) as nat + b));
            },
            _ => {},
        }
    }
}

/// The error for an ill-formed nested declaration named after `name0`.
spec fn nested_ill_formed_spec(name0: Arc<Name>) -> KernelError {
    KernelError::InvalidInductive {
        name: name0,
        what: "invalid nested inductive datatype, ill-formed declaration",
    }
}

/// The error for an ill-formed nested declaration.
fn nested_ill_formed(name0: &Arc<Name>) -> (r: KernelError)
    ensures
        r == nested_ill_formed_spec(*name0),
{
    ill_formed(name0, "invalid nested inductive datatype, ill-formed declaration")
}

/// `base` with the first index that names nothing in `env` appended.
fn mk_unique_name(env: &Environment, st: &mut ElimState, base: &Arc<Name>) -> (r: Result<
    Arc<Name>,
    KernelError,
>)
    ensures
        final(st).ngen == old(st).ngen,
        final(st).nested_aux@ == old(st).nested_aux@,
        final(st).new_types@ == old(st).new_types@,
        final(st).new_type_names@ == old(st).new_type_names@,
        old(st).next_idx <= final(st).next_idx,
        forall|k: int|
            old(st).next_idx <= k < final(st).next_idx && !(r is Ok && k == final(st).next_idx - 1)
                ==> crate::env::declares(env.constants(), #[trigger] indexed_name(base@, k)),
        r matches Ok(n) ==> final(st).next_idx > old(st).next_idx && n@ == indexed_name(
            base@,
            final(st).next_idx - 1,
        ) && !crate::env::declares(env.constants(), n@),
        r matches Err(e) ==> e is DeepRecursion && final(st).next_idx == usize::MAX,
{
    loop
        invariant
            st.ngen == old(st).ngen,
            st.nested_aux@ == old(st).nested_aux@,
            st.new_types@ == old(st).new_types@,
            st.new_type_names@ == old(st).new_type_names@,
            old(st).next_idx <= st.next_idx,
            forall|k: int|
                old(st).next_idx <= k < st.next_idx ==> crate::env::declares(
                    env.constants(),
                    #[trigger] indexed_name(base@, k),
                ),
        decreases usize::MAX - st.next_idx,
    {
        if st.next_idx == usize::MAX {
            return Err(KernelError::DeepRecursion);
        }
        let r = append_index_after(base, st.next_idx);
        st.next_idx = st.next_idx + 1;
        if env.get(&r).is_none() {
            return Ok(r);
        }
    }
}

/// `new` keeps the types of `old` and adds one type per nested
/// occurrence it records.
spec fn elim_grows(new: ElimState, old: ElimState) -> bool {
    &&& old.new_types@.len() <= new.new_types@.len()
    &&& forall|i: int| 0 <= i < old.new_types@.len() ==> #[trigger] new.new_types@[i] == old.new_types@[i]
    &&& new.new_types@.len() - new.nested_aux@.len() == old.new_types@.len() - old.nested_aux@.len()
}

/// `a` and `b` have the same name and the same constructor names.
pub open spec fn same_names(a: InductiveType, b: InductiveType) -> bool {
    &&& a.name@ == b.name@
    &&& a.ctors@.len() == b.ctors@.len()
    &&& forall|c: int| 0 <= c < a.ctors@.len() ==> (#[trigger] a.ctors@[c]).0@ == b.ctors@[c].0@
}

/// `base` with the index `k` appended.
spec fn indexed_name(base: Seq<NameComp>, k: int) -> Seq<NameComp> {
    crate::inductive::append_after_spec(base, seq!['_'] + crate::num::nat_decimal(k as nat))
}

/// `nparams` binders of `ty` peeled into fresh locals of `lctx`.
fn get_params(
    ngen: &mut FVarIdGen,
    nparams: usize,
    name0: &Arc<Name>,
    lctx: &mut LocalContext,
    ty: Arc<Expr>,
    g: &mut RecGuard,
) -> (r: Result<(Arc<Expr>, Vec<Arc<Expr>>), KernelError>)
    ensures
        r matches Ok(p) ==> p.1@.len() == nparams,
        r matches Ok(p) ==> final(ngen).next() == old(ngen).next() + nparams && forall|k: int|
            0 <= k < nparams ==> (#[trigger] p.1@[k])@ == SExpr::FVar(fresh_name((old(ngen).next() + k) as nat)),
        r matches Ok(p) ==> final(lctx).decls().len() == old(lctx).decls().len() + nparams,
        r matches Err(e) ==> e is DeepRecursion || e == (KernelError::InvalidInductive {
            name: *name0,
            what: "incorrect number of parameters",
        }),
{
    let mut params: Vec<Arc<Expr>> = Vec::new();
    let mut ty = ty;
    let mut i: usize = 0;
    while i < nparams
        invariant
            params@.len() == i,
            i <= nparams,
            ngen.next() == old(ngen).next() + i,
            lctx.decls().len() == old(lctx).decls().len() + i,
            forall|k: int|
                0 <= k < i ==> (#[trigger] params@[k])@ == SExpr::FVar(fresh_name((old(ngen).next() + k) as nat)),
        decreases nparams - i,
    {
        let (bn, bt, body, bi) = match peel_forall(&ty) {
            Some(p) => p,
            None => {
                return Err(ill_formed(name0, "incorrect number of parameters"));
            },
        };
        if ngen.next_index() == u64::MAX {
            return Err(KernelError::DeepRecursion);
        }
        let fv = lctx.mk_local_decl(ngen, bn, bt, bi);
        params.push(share(&fv));
        ty = instantiate(&body, &fv, g)?;
        i = i + 1;
    }
    Ok((ty, params))
}

/// `e` over the constructor's parameters `as_` rewritten over the
/// block's parameters.
fn replace_params(ctx: &ElimCtx, e: &Arc<Expr>, as_: &[Arc<Expr>], g: &mut RecGuard) -> (r: Result<
    Arc<Expr>,
    KernelError,
>)
    ensures
        *final(g) == *old(g),
        r matches Ok(x) ==> x@ == inst_spec(
            crate::subst::abstract_spec(e@, 0, exprs_view(as_@)),
            0,
            0,
            exprs_view(ctx.params@),
            true,
        ),
        r matches Err(err) ==> err is DeepRecursion || crate::subst::abstract_err(err, as_@.len()),
{
    let t = abstract_fvars(e, as_, g)?;
    instantiate_rev(&t, ctx.params.as_slice(), g)
}

/// `e` without `params.len()` leading binders, instantiated with
/// `params`.
fn instantiate_pi_params(name0: &Arc<Name>, ty: Arc<Expr>, params: &[Arc<Expr>], g: &mut RecGuard) -> (r:
    Result<Arc<Expr>, KernelError>)
    ensures
        *final(g) == *old(g),
        match strip_pis(ty@, params@.len()) {
            Some(b) => (r matches Ok(x) ==> x@ == inst_spec(b, 0, 0, exprs_view(params@), true)) && (
            r matches Err(err) ==> err is DeepRecursion),
            None => r matches Err(err) && err == nested_ill_formed_spec(*name0),
        },
{
    let ghost e0 = ty@;
    let mut e = ty;
    let mut i: usize = 0;
    while i < params.len()
        invariant
            i <= params@.len(),
            strip_pis(e0, i as nat) == Some(e@),
            e0 == ty@,
        decreases params@.len() - i,
    {
        proof {
            lemma_strip_add(e0, i as nat, (params@.len() - i) as nat);
            lemma_strip_add(e0, i as nat, 1);
        }
        let next = match peel_forall(&e) {
            Some((_, _, body, _)) => body,
            None => {
                proof {
                    assert(strip_pis(e@, (params@.len() - i) as nat) == None::<SExpr>);
                    assert((i as nat) + ((params@.len() - i) as nat) == params@.len());
                    assert(strip_pis(e0, params@.len()) == None::<SExpr>);
                }
                return Err(nested_ill_formed(name0));
            },
        };
        proof {
            assert(strip_pis(next@, 0) == Some(next@));
            assert(strip_pis(e@, 1) == Some(next@));
        }
        e = next;
        i = i + 1;
    }
    proof {
        lemma_strip_add(e0, i as nat, 0);
    }
    instantiate_rev(&e, params, g)
}

/// When `e` applies an inductive type of `env` to parameters that
/// mention a type of the block: that type and its number of parameters.
fn is_nested_inductive_app<'e>(
    ctx: &ElimCtx<'e>,
    st: &ElimState,
    e: &Arc<Expr>,
    g: &mut RecGuard,
) -> (r: Result<Option<(&'e InductiveVal, usize)>, KernelError>)
    ensures
        r matches Ok(Some(p)) ==> p.1 <= crate::expr::app_args(e@).len(),
        !(e@ is App) ==> r == Ok::<Option<(&'e InductiveVal, usize)>, KernelError>(None),
        !(app_fn(e@) matches SExpr::Const(n, _) && crate::env::lookup(ctx.env.constants(), n) matches Some(
            ConstantInfo::Induct(_),
        )) ==> r == Ok::<Option<(&'e InductiveVal, usize)>, KernelError>(None),
        r matches Ok(Some(p)) ==> app_fn(e@) matches SExpr::Const(n, _) && crate::env::lookup(
            ctx.env.constants(),
            n,
        ) == Some(ConstantInfo::Induct(*p.0)) && p.0.num_params@ == p.1,
{
    let env = ctx.env;
    if !e.is_app() {
        return Ok(None);
    }
    let fn_name = match head_const(e) {
        Some((n, _)) => n,
        None => {
            return Ok(None);
        },
    };
    let info = match env.get(&fn_name) {
        Some(ConstantInfo::Induct(v)) => v,
        _ => {
            return Ok(None);
        },
    };
    let args = Expr::get_app_args(e);
    let nparams = match info.num_params.to_usize() {
        Some(n) => n,
        None => {
            return Err(nested_ill_formed(&ctx.name0));
        },
    };
    if nparams > args.len() {
        return Ok(None);
    }
    let mut is_nested = false;
    let mut loose = false;
    let mut k: usize = 0;
    while k < nparams
        invariant
            nparams <= args@.len(),
            e@ is App,
            app_fn(e@) matches SExpr::Const(n, _) && crate::env::lookup(env.constants(), n) == Some(
                ConstantInfo::Induct(*info),
            ),
            env == ctx.env,
        decreases nparams - k,
    {
        if args[k].data().loose_bvar_range() != 0 {
            loose = true;
        }
        if expr_contains_new_type(&args[k], st.new_type_names.as_slice(), g)? {
            is_nested = true;
        }
        k = k + 1;
    }
    if !is_nested {
        return Ok(None);
    }
    if loose {
        return Err(ill_formed(&fn_name, "nested inductive parameters cannot contain local variables"));
    }
    proof {
        assert(crate::expr::exprs_view(args@).len() == args@.len());
    }
    Ok(Some((info, nparams)))
}

/// A nested occurrence `I Ds is` becomes `Iaux As is`; on its first
/// encounter every type mutual with `I` is copied into the block as an
/// auxiliary type, at `Ds`. `None` for anything else.
fn replace_if_nested(
    ctx: &ElimCtx,
    st: &mut ElimState,
    lctx: &LocalContext,
    as_: &[Arc<Expr>],
    e: &Arc<Expr>,
    g: &mut RecGuard,
) -> (r: Result<Option<Arc<Expr>>, KernelError>)
    ensures
        r is Ok ==> elim_grows(*final(st), *old(st)),
        r matches Ok(None) ==> *final(st) == *old(st),
        r is Ok && final(st).nested_aux@.len() == old(st).nested_aux@.len() ==> final(st).new_types@
            == old(st).new_types@,
{
    let env = ctx.env;
    let (i_val, i_nparams) = match is_nested_inductive_app(ctx, st, e, g)? {
        Some(p) => p,
        None => {
            return Ok(None);
        },
    };
    let args = Expr::get_app_args(e);
    proof {
        assert(crate::expr::exprs_view(args@).len() == args@.len());
    }
    let fn0 = share(Expr::get_app_fn(e));
    let (i_name, i_lvls) = match head_const(e) {
        Some(p) => p,
        None => {
            return Ok(None);
        },
    };
    let ds = vstd::slice::slice_subrange(args.as_slice(), 0, i_nparams);
    let rest = vstd::slice::slice_subrange(args.as_slice(), i_nparams, args.len());
    let i_as = Expr::mk_app_spine(fn0, ds);
    let i_params = replace_params(ctx, &i_as, as_, g)?;
    let mut found: Option<Arc<Name>> = None;
    let mut k: usize = 0;
    while k < st.nested_aux.len()
        decreases st.nested_aux@.len() - k,
    {
        if Expr::structural_eq(&st.nested_aux[k].0, &i_params, g)? {
            found = Some(share(&st.nested_aux[k].1));
            break ;
        }
        k = k + 1;
    }
    if let Some(aux_name) = found {
        let aux_i = Expr::const_(aux_name, AddInductiveFn::copy_levels(&ctx.lvls), g)?;
        let aux_i = Expr::mk_app_spine(aux_i, as_);
        return Ok(Some(Expr::mk_app_spine(aux_i, rest)));
    }
    let mut result: Option<Arc<Expr>> = None;
    let mut j: usize = 0;
    while j < i_val.all.len()
        invariant
            elim_grows(*st, *old(st)),
        decreases i_val.all@.len() - j,
    {
        let j_name = share(&i_val.all[j]);
        let j_ind = match env.get(&j_name) {
            Some(ConstantInfo::Induct(v)) => v,
            _ => {
                return Err(nested_ill_formed(&ctx.name0));
            },
        };
        let j_const = Expr::const_(share(&j_name), AddInductiveFn::copy_levels(&i_lvls), g)?;
        let j_as = Expr::mk_app_spine(j_const, ds);
        let aux_j_name = mk_unique_name(env, st, &name_append(&nested_prefix(), &j_name))?;
        let mut aux_j_type = instantiate_level_params(
            &j_ind.val.ty,
            j_ind.val.level_params.as_slice(),
            i_lvls.as_slice(),
            g,
        )?;
        aux_j_type = instantiate_pi_params(&ctx.name0, aux_j_type, ds, g)?;
        aux_j_type = lctx.mk_pi(as_, &aux_j_type, g)?;
        let j_as_canon = replace_params(ctx, &j_as, as_, g)?;
        st.nested_aux.push((j_as_canon, share(&aux_j_name)));
        if j_name.equal(&i_name) {
            let aux_i = Expr::const_(share(&aux_j_name), AddInductiveFn::copy_levels(&ctx.lvls), g)?;
            let aux_i = Expr::mk_app_spine(aux_i, as_);
            result = Some(Expr::mk_app_spine(aux_i, rest));
        }
        let mut aux_ctors: Vec<(Arc<Name>, Arc<Expr>)> = Vec::new();
        let mut c: usize = 0;
        while c < j_ind.ctors.len()
            decreases j_ind.ctors@.len() - c,
        {
            let j_cnstr_name = &j_ind.ctors[c];
            let c_val = match env.get(j_cnstr_name) {
                Some(ConstantInfo::Ctor(v)) => v,
                _ => {
                    return Err(nested_ill_formed(&ctx.name0));
                },
            };
            let aux_c_name = replace_prefix(j_cnstr_name, &j_name, &aux_j_name);
            let mut aux_c_type = instantiate_level_params(
                &c_val.val.ty,
                c_val.val.level_params.as_slice(),
                i_lvls.as_slice(),
                g,
            )?;
            aux_c_type = instantiate_pi_params(&ctx.name0, aux_c_type, ds, g)?;
            aux_c_type = lctx.mk_pi(as_, &aux_c_type, g)?;
            aux_ctors.push((aux_c_name, aux_c_type));
            c = c + 1;
        }
        st.new_type_names.push(share(&aux_j_name));
        st.new_types.push(InductiveType { name: aux_j_name, ty: aux_j_type, ctors: aux_ctors });
        proof {
            assert forall|i: int| 0 <= i < old(st).new_types@.len() implies #[trigger] st.new_types@[i]
                == old(st).new_types@[i] by {
                assert(st.new_types@[i] == st.new_types@.drop_last()[i]);
            }
        }
        j = j + 1;
    }
    match result {
        Some(r) => Ok(Some(r)),
        None => Err(nested_ill_formed(&ctx.name0)),
    }
}

/// `e` with every nested occurrence replaced, top-down. Each level runs
/// one guard frame deeper.
fn replace_all_nested(
    ctx: &ElimCtx,
    st: &mut ElimState,
    lctx: &LocalContext,
    as_: &[Arc<Expr>],
    e: &Arc<Expr>,
    g: &mut RecGuard,
) -> (r: Result<Arc<Expr>, KernelError>)
    ensures
        r is Ok ==> elim_grows(*final(st), *old(st)),
    decreases tree_height(e@), 0nat,
{
    if let Some(r) = replace_if_nested(ctx, st, lctx, as_, e, g)? {
        return Ok(r);
    }
    match e.node() {
        ExprNode::App { f, arg } => {
            let f2 = replace_sub(ctx, st, lctx, as_, f, g)?;
            let a2 = replace_sub(ctx, st, lctx, as_, arg, g)?;
            Ok(rebuild2(e, f2, a2))
        },
        ExprNode::Lam { binder_type, body, .. } => {
            let t2 = replace_sub(ctx, st, lctx, as_, binder_type, g)?;
            let b2 = replace_sub(ctx, st, lctx, as_, body, g)?;
            Ok(rebuild2(e, t2, b2))
        },
        ExprNode::ForallE { binder_type, body, .. } => {
            let t2 = replace_sub(ctx, st, lctx, as_, binder_type, g)?;
            let b2 = replace_sub(ctx, st, lctx, as_, body, g)?;
            Ok(rebuild2(e, t2, b2))
        },
        ExprNode::LetE { ty, value, body, .. } => {
            let t2 = replace_sub(ctx, st, lctx, as_, ty, g)?;
            let v2 = replace_sub(ctx, st, lctx, as_, value, g)?;
            let b2 = replace_sub(ctx, st, lctx, as_, body, g)?;
            Ok(rebuild3(e, t2, v2, b2))
        },
        ExprNode::MData { expr, .. } => {
            let x2 = replace_sub(ctx, st, lctx, as_, expr, g)?;
            Ok(rebuild1(e, x2))
        },
        ExprNode::Proj { structure, .. } => {
            let x2 = replace_sub(ctx, st, lctx, as_, structure, g)?;
            Ok(rebuild1(e, x2))
        },
        _ => Ok(share(e)),
    }
}

/// `replace_all_nested` of a child, one guard frame deeper.
fn replace_sub(
    ctx: &ElimCtx,
    st: &mut ElimState,
    lctx: &LocalContext,
    as_: &[Arc<Expr>],
    child: &Arc<Expr>,
    g: &mut RecGuard,
) -> (r: Result<Arc<Expr>, KernelError>)
    ensures
        r is Ok ==> elim_grows(*final(st), *old(st)),
    decreases tree_height(child@), 1nat,
{
    if g.current_depth() >= MAX_REC_DEPTH {
        return Err(KernelError::DeepRecursion);
    }
    let mut moved = ElimState::empty();
    std::mem::swap(st, &mut moved);
    let ghost before = moved;
    let c2 = share(child);
    let run = move |g2: RecGuard| -> (r: Result<
        (ElimState, Result<Arc<Expr>, KernelError>),
        KernelError,
    >)
        ensures
            r matches Ok(p) && (p.1 is Ok ==> elim_grows(p.0, before)),
        {
            let mut st2 = moved;
            let mut g3 = g2;
            let res = replace_all_nested(ctx, &mut st2, lctx, as_, &c2, &mut g3);
            Ok((st2, res))
        };
    match g.enter(run) {
        Ok(p) => {
            let (back, res) = p;
            *st = back;
            res
        },
        Err(err) => {
            proof {
                assert(false);
            }
            Err(err)
        },
    }
}

/// Rewrites every nested occurrence in the constructors of the block,
/// and of the auxiliary types it adds, until none is left.
fn elim_nested(
    env: &Environment,
    lparams: &Vec<Arc<Name>>,
    nparams: usize,
    types: &Vec<InductiveType>,
    g: &mut RecGuard,
) -> (r: Result<ElimResult, KernelError>)
    ensures
        r matches Ok(res) ==> {
            &&& res.aux_types@.len() == types@.len() + res.aux2nested@.len()
            &&& forall|i: int|
                0 <= i < types@.len() ==> same_names(#[trigger] res.aux_types@[i], types@[i])
        },
{
    if types.len() == 0 {
        return Err(ill_formed(&Name::anonymous(), "empty inductive block"));
    }
    let name0 = share(&types[0].name);
    let mut st = ElimState::empty();
    let mut k: usize = 0;
    while k < types.len()
        invariant
            k <= types@.len(),
            st.new_types@.len() == k,
            st.nested_aux@.len() == 0,
            forall|i: int| 0 <= i < k ==> same_names(#[trigger] st.new_types@[i], types@[i]),
        decreases types@.len() - k,
    {
        let t = &types[k];
        let mut ctors: Vec<(Arc<Name>, Arc<Expr>)> = Vec::new();
        let mut c: usize = 0;
        while c < t.ctors.len()
            invariant
                c <= t.ctors@.len(),
                ctors@.len() == c,
                forall|j: int| 0 <= j < c ==> (#[trigger] ctors@[j]).0@ == t.ctors@[j].0@,
            decreases t.ctors@.len() - c,
        {
            ctors.push((share(&t.ctors[c].0), share(&t.ctors[c].1)));
            c = c + 1;
        }
        st.new_types.push(InductiveType { name: share(&t.name), ty: share(&t.ty), ctors });
        st.new_type_names.push(share(&t.name));
        proof {
            assert(same_names(st.new_types@[k as int], types@[k as int]));
        }
        k = k + 1;
    }
    let mut params_lctx = LocalContext::default();
    let (_, params) = get_params(
        &mut st.ngen,
        nparams,
        &name0,
        &mut params_lctx,
        share(&types[0].ty),
        g,
    )?;
    let ctx = ElimCtx {
        env,
        lvls: lparams_to_levels(lparams.as_slice()),
        params,
        nparams,
        name0: share(&name0),
    };
    let mut qhead: usize = 0;
    let mut fuel: u64 = u64::MAX;
    while qhead < st.new_types.len()
        invariant
            st.new_types@.len() >= types@.len(),
            st.new_types@.len() == types@.len() + st.nested_aux@.len(),
            forall|i: int| 0 <= i < types@.len() ==> same_names(#[trigger] st.new_types@[i], types@[i]),
        decreases fuel,
    {
        if fuel == 0 {
            return Err(KernelError::DeepRecursion);
        }
        fuel = fuel - 1;
        let ind_name = share(&st.new_types[qhead].name);
        let ind_ty = share(&st.new_types[qhead].ty);
        let mut old_ctors: Vec<(Arc<Name>, Arc<Expr>)> = Vec::new();
        let ghost qtype = st.new_types@[qhead as int];
        let mut c: usize = 0;
        while c < st.new_types[qhead].ctors.len()
            invariant
                qhead < st.new_types@.len(),
                qtype == st.new_types@[qhead as int],
                c <= qtype.ctors@.len(),
                old_ctors@.len() == c,
                forall|j: int| 0 <= j < c ==> (#[trigger] old_ctors@[j]).0@ == qtype.ctors@[j].0@,
            decreases st.new_types@[qhead as int].ctors@.len() - c,
        {
            old_ctors.push(
                (share(&st.new_types[qhead].ctors[c].0), share(&st.new_types[qhead].ctors[c].1)),
            );
            c = c + 1;
        }
        let mut new_cnstrs: Vec<(Arc<Name>, Arc<Expr>)> = Vec::new();
        let ghost st0 = st;
        let mut c: usize = 0;
        while c < old_ctors.len()
            invariant
                elim_grows(st, st0),
                c <= old_ctors@.len(),
                new_cnstrs@.len() == c,
                forall|j: int| 0 <= j < c ==> (#[trigger] new_cnstrs@[j]).0@ == old_ctors@[j].0@,
            decreases old_ctors@.len() - c,
        {
            let mut lctx = LocalContext::default();
            let (cnstr_type, as_) = get_params(
                &mut st.ngen,
                nparams,
                &name0,
                &mut lctx,
                share(&old_ctors[c].1),
                g,
            )?;
            let new_ct = replace_all_nested(&ctx, &mut st, &lctx, as_.as_slice(), &cnstr_type, g)?;
            let new_ct = lctx.mk_pi(as_.as_slice(), &new_ct, g)?;
            new_cnstrs.push((share(&old_ctors[c].0), new_ct));
            c = c + 1;
        }
        if qhead >= st.new_types.len() {
            return Err(nested_ill_formed(&name0));
        }
        st.new_types.set(qhead, InductiveType { name: ind_name, ty: ind_ty, ctors: new_cnstrs });
        qhead = qhead + 1;
    }
    let mut aux2nested: Vec<(Arc<Name>, Arc<Expr>)> = Vec::new();
    let mut k: usize = 0;
    while k < st.nested_aux.len()
        invariant
            k <= st.nested_aux@.len(),
            aux2nested@.len() == k,
        decreases st.nested_aux@.len() - k,
    {
        aux2nested.push((share(&st.nested_aux[k].1), share(&st.nested_aux[k].0)));
        k = k + 1;
    }
    let ElimState { ngen, nested_aux: _, new_types, new_type_names: _, next_idx: _ } = st;
    Ok(ElimResult { params: ctx.params, aux2nested, aux_types: new_types, ngen })
}

// ---------------------------------------------------------------------
// Restoring the nested applications.
// ---------------------------------------------------------------------

/// Some entry of `m` has the key `n`.
spec fn has_key<T>(m: Seq<(Arc<Name>, Arc<T>)>, n: Seq<NameComp>) -> bool {
    exists|i: int| 0 <= i < m.len() && (#[trigger] m[i]).0@ == n
}

/// `i` is the first entry of `m` with the key `n`.
spec fn first_with_key<T>(m: Seq<(Arc<Name>, Arc<T>)>, n: Seq<NameComp>, i: int) -> bool {
    &&& 0 <= i < m.len()
    &&& m[i].0@ == n
    &&& forall|j: int| 0 <= j < i ==> (#[trigger] m[j]).0@ != n
}

/// The value recorded for the name `n` in an association list.
fn assoc<T>(m: &Vec<(Arc<Name>, Arc<T>)>, n: &Name) -> (r: Option<Arc<T>>)
    ensures
        r is None <==> !has_key(m@, n@),
        r matches Some(v) ==> exists|i: int| first_with_key(m@, n@, i) && v == m@[i].1,
{
    let mut i: usize = 0;
    while i < m.len()
        invariant
            i <= m@.len(),
            forall|j: int| 0 <= j < i ==> (#[trigger] m@[j]).0@ != n@,
        decreases m@.len() - i,
    {
        if m[i].0.equal(n) {
            proof {
                assert(first_with_key(m@, n@, i as int));
            }
            return Some(share(&m[i].1));
        }
        i = i + 1;
    }
    None
}

/// When `c` is a constructor of an auxiliary type: the nested
/// application that type stands for, and the type's name.
fn get_nested_if_aux_constructor(
    aux_env: &Environment,
    c: &Name,
    aux2nested: &Vec<(Arc<Name>, Arc<Expr>)>,
) -> (r: Option<(Arc<Expr>, Arc<Name>)>)
    ensures
        match crate::env::lookup(aux_env.constants(), c@) {
            Some(ConstantInfo::Ctor(cv)) => (r is None <==> !has_key(aux2nested@, cv.induct@)) && (
            r matches Some(p) ==> p.1 == cv.induct && exists|i: int|
                first_with_key(aux2nested@, cv.induct@, i) && p.0 == aux2nested@[i].1),
            _ => r is None,
        },
{
    let cv = match aux_env.get(c) {
        Some(ConstantInfo::Ctor(v)) => v,
        _ => {
            return None;
        },
    };
    match assoc(aux2nested, &cv.induct) {
        Some(nested) => Some((nested, share(&cv.induct))),
        None => None,
    }
}

impl ElimResult {
    /// The name of an auxiliary constructor under the nested type it
    /// stands for.
    fn restore_constructor_name(&self, aux_env: &Environment, cnstr_name: &Arc<Name>) -> (r: Result<
        Arc<Name>,
        KernelError,
    >)
        ensures
            !(crate::env::lookup(aux_env.constants(), cnstr_name@) matches Some(ConstantInfo::Ctor(cv))
                && has_key(self.aux2nested@, cv.induct@)) ==> r is Err,
    {
        let (nested, aux_i_name) = match get_nested_if_aux_constructor(
            aux_env,
            cnstr_name,
            &self.aux2nested,
        ) {
            Some(p) => p,
            None => {
                return Err(ill_formed(cnstr_name, "invalid nested constructor"));
            },
        };
        let i_name = match head_const(&nested) {
            Some((n, _)) => n,
            None => {
                return Err(ill_formed(cnstr_name, "invalid nested constructor"));
            },
        };
        Ok(replace_prefix(cnstr_name, &aux_i_name, &i_name))
    }

    /// One node of the restoration: a renamed auxiliary recursor, an
    /// auxiliary type application back to the nested application, an
    /// auxiliary constructor application back to the nested type's
    /// constructor; `None` to descend.
    fn restore_node(
        &self,
        t: &Arc<Expr>,
        as_: &[Arc<Expr>],
        aux_env: &Environment,
        rec_map: &Vec<(Arc<Name>, Arc<Name>)>,
        g: &mut RecGuard,
    ) -> (r: Result<Option<Arc<Expr>>, KernelError>) {
        if let ExprNode::Const { name, levels } = t.node() {
            if let Some(rec_name) = assoc(rec_map, name) {
                return Ok(Some(Expr::const_(rec_name, AddInductiveFn::copy_levels(levels), g)?));
            }
        }
        let fn_name = match head_const(t) {
            Some((n, _)) => n,
            None => {
                return Ok(None);
            },
        };
        if let Some(nested) = assoc(&self.aux2nested, &fn_name) {
            let args = Expr::get_app_args(t);
            if args.len() < self.params.len() {
                return Err(ill_formed(&fn_name, "ill-formed nested application"));
            }
            let tmp = abstract_fvars(&nested, self.params.as_slice(), g)?;
            let new_head = instantiate_rev(&tmp, as_, g)?;
            let rest = vstd::slice::slice_subrange(args.as_slice(), self.params.len(), args.len());
            return Ok(Some(Expr::mk_app_spine(new_head, rest)));
        }
        if let Some((nested, aux_i_name)) = get_nested_if_aux_constructor(
            aux_env,
            &fn_name,
            &self.aux2nested,
        ) {
            let args = Expr::get_app_args(t);
            if args.len() < self.params.len() {
                return Err(ill_formed(&fn_name, "ill-formed nested application"));
            }
            let tmp = abstract_fvars(&nested, self.params.as_slice(), g)?;
            let new_nested = instantiate_rev(&tmp, as_, g)?;
            let (i_name, i_lvls) = match head_const(&new_nested) {
                Some(p) => p,
                None => {
                    return Err(ill_formed(&fn_name, "ill-formed nested application"));
                },
            };
            let i_args = Expr::get_app_args(&new_nested);
            let new_fn_name = replace_prefix(&fn_name, &aux_i_name, &i_name);
            let new_fn = Expr::const_(new_fn_name, i_lvls, g)?;
            let head = Expr::mk_app_spine(new_fn, i_args.as_slice());
            let rest = vstd::slice::slice_subrange(args.as_slice(), self.params.len(), args.len());
            return Ok(Some(Expr::mk_app_spine(head, rest)));
        }
        Ok(None)
    }

    /// `e` with every auxiliary occurrence restored, top-down. Each level
    /// runs one guard frame deeper.
    fn restore_replace(
        &self,
        e: &Arc<Expr>,
        as_: &[Arc<Expr>],
        aux_env: &Environment,
        rec_map: &Vec<(Arc<Name>, Arc<Name>)>,
        g: &mut RecGuard,
    ) -> (r: Result<Arc<Expr>, KernelError>)
        decreases tree_height(e@), 0nat,
    {
        if let Some(r) = self.restore_node(e, as_, aux_env, rec_map, g)? {
            return Ok(r);
        }
        match e.node() {
            ExprNode::App { f, arg } => {
                let f2 = self.restore_sub(f, as_, aux_env, rec_map, g)?;
                let a2 = self.restore_sub(arg, as_, aux_env, rec_map, g)?;
                Ok(rebuild2(e, f2, a2))
            },
            ExprNode::Lam { binder_type, body, .. } => {
                let t2 = self.restore_sub(binder_type, as_, aux_env, rec_map, g)?;
                let b2 = self.restore_sub(body, as_, aux_env, rec_map, g)?;
                Ok(rebuild2(e, t2, b2))
            },
            ExprNode::ForallE { binder_type, body, .. } => {
                let t2 = self.restore_sub(binder_type, as_, aux_env, rec_map, g)?;
                let b2 = self.restore_sub(body, as_, aux_env, rec_map, g)?;
                Ok(rebuild2(e, t2, b2))
            },
            ExprNode::LetE { ty, value, body, .. } => {
                let t2 = self.restore_sub(ty, as_, aux_env, rec_map, g)?;
                let v2 = self.restore_sub(value, as_, aux_env, rec_map, g)?;
                let b2 = self.restore_sub(body, as_, aux_env, rec_map, g)?;
                Ok(rebuild3(e, t2, v2, b2))
            },
            ExprNode::MData { expr, .. } => {
                let x2 = self.restore_sub(expr, as_, aux_env, rec_map, g)?;
                Ok(rebuild1(e, x2))
            },
            ExprNode::Proj { structure, .. } => {
                let x2 = self.restore_sub(structure, as_, aux_env, rec_map, g)?;
                Ok(rebuild1(e, x2))
            },
            _ => Ok(share(e)),
        }
    }

    /// `restore_replace` of a child, one guard frame deeper.
    fn restore_sub(
        &self,
        child: &Arc<Expr>,
        as_: &[Arc<Expr>],
        aux_env: &Environment,
        rec_map: &Vec<(Arc<Name>, Arc<Name>)>,
        g: &mut RecGuard,
    ) -> (r: Result<Arc<Expr>, KernelError>)
        decreases tree_height(child@), 1nat,
    {
        let c2 = share(child);
        let run = |g2: RecGuard| -> (r: Result<Arc<Expr>, KernelError>)
            {
                let mut g3 = g2;
                self.restore_replace(&c2, as_, aux_env, rec_map, &mut g3)
            };
        g.enter(run)
    }

    /// `e` (a type or rule under the block's parameters) with its
    /// parameters peeled into fresh locals, every auxiliary occurrence
    /// restored, and the parameters bound again.
    fn restore_nested(
        &mut self,
        e: &Arc<Expr>,
        aux_env: &Environment,
        rec_map: &Vec<(Arc<Name>, Arc<Name>)>,
        g: &mut RecGuard,
    ) -> (r: Result<Arc<Expr>, KernelError>) {
        let mut lctx = LocalContext::default();
        let mut as_: Vec<Arc<Expr>> = Vec::new();
        let pi = e.is_forall();
        let mut cur = share(e);
        let mut i: usize = 0;
        while i < self.params.len()
            decreases self.params@.len() - i,
        {
            let (bn, bt, body, bi) = match cur.node() {
                ExprNode::ForallE { binder_name, binder_type, body, binder_info } => (
                    share(binder_name),
                    share(binder_type),
                    share(body),
                    *binder_info,
                ),
                ExprNode::Lam { binder_name, binder_type, body, binder_info } => (
                    share(binder_name),
                    share(binder_type),
                    share(body),
                    *binder_info,
                ),
                _ => {
                    return Err(ill_formed(&Name::anonymous(), "ill-formed nested declaration"));
                },
            };
            if self.ngen.next_index() == u64::MAX {
                return Err(KernelError::DeepRecursion);
            }
            let fv = lctx.mk_local_decl(&mut self.ngen, bn, bt, bi);
            as_.push(share(&fv));
            cur = instantiate(&body, &fv, g)?;
            i = i + 1;
        }
        let body2 = self.restore_replace(&cur, as_.as_slice(), aux_env, rec_map, g)?;
        if pi {
            lctx.mk_pi(as_.as_slice(), &body2, g)
        } else {
            lctx.mk_lambda(as_.as_slice(), &body2, g)
        }
    }
}

/// The recursors of the auxiliary types, with the names they get: the
/// main recursor's name with `_1`, `_2`, ... appended.
fn mk_aux_rec_name_map(aux_env: &Environment, orig_types: &Vec<InductiveType>) -> (r: Result<
    (Vec<Arc<Name>>, Vec<(Arc<Name>, Arc<Name>)>),
    KernelError,
>)
    ensures
        orig_types@.len() == 0 ==> r is Err,
        orig_types@.len() > 0 && !(crate::env::lookup(aux_env.constants(), orig_types@[0].name@) matches Some(
            ConstantInfo::Induct(_),
        )) ==> r is Err,
        r matches Ok(p) ==> crate::env::lookup(aux_env.constants(), orig_types@[0].name@) matches Some(
            ConstantInfo::Induct(v),
        ) && p.0@.len() == p.1@.len() && p.0@.len() == (if v.all@.len() > orig_types@.len() {
            v.all@.len() - orig_types@.len()
        } else {
            0
        }) && forall|k: int|
            0 <= k < p.0@.len() ==> (#[trigger] p.0@[k])@ == rec_name_of(v.all@[orig_types@.len() + k]@)
                && p.1@[k].0 == p.0@[k],
{
    let ntypes = orig_types.len();
    if ntypes == 0 {
        return Err(ill_formed(&Name::anonymous(), "empty inductive block"));
    }
    let main_name = &orig_types[0].name;
    let main_iv = match aux_env.get(main_name) {
        Some(ConstantInfo::Induct(v)) => v,
        _ => {
            return Err(ill_formed(main_name, "missing aux inductive"));
        },
    };
    let mut old_rec_names: Vec<Arc<Name>> = Vec::new();
    let mut rec_map: Vec<(Arc<Name>, Arc<Name>)> = Vec::new();
    let mut next_idx: usize = 1;
    let mut i: usize = 0;
    while i < main_iv.all.len()
        invariant
            i <= main_iv.all@.len(),
            old_rec_names@.len() == rec_map@.len(),
            i <= ntypes ==> old_rec_names@.len() == 0,
            i > ntypes ==> old_rec_names@.len() + ntypes == i,
            forall|k: int|
                0 <= k < old_rec_names@.len() ==> (#[trigger] old_rec_names@[k])@ == rec_name_of(
                    main_iv.all@[ntypes + k]@,
                ) && rec_map@[k].0 == old_rec_names@[k],
        decreases main_iv.all@.len() - i,
    {
        if i >= ntypes {
            let old = mk_rec_name(&main_iv.all[i]);
            let new = append_index_after(&mk_rec_name(main_name), next_idx);
            if next_idx == usize::MAX {
                return Err(KernelError::DeepRecursion);
            }
            next_idx = next_idx + 1;
            old_rec_names.push(share(&old));
            rec_map.push((old, new));
        }
        i = i + 1;
    }
    Ok((old_rec_names, rec_map))
}

/// Adds `ci` under its name, which must be new.
fn add_checked(env: &mut Environment, ci: ConstantInfo) -> (r: Result<(), KernelError>)
    ensures
        final(env).quot_init() == old(env).quot_init(),
        grows(final(env).constants(), old(env).constants()),
        r is Ok <==> !crate::env::declares(old(env).constants(), const_name(ci)),
        r is Ok ==> final(env).constants() == old(env).constants().push(ci),
        r is Err ==> final(env).constants() == old(env).constants(),
        r matches Err(e) ==> (e matches KernelError::AlreadyDeclared(m) && m@ == const_name(ci)),
{
    let n = share(ci.name());
    check_name(env, &n)?;
    env.add_core(ci);
    Ok(())
}

/// Restores one recursor (main or auxiliary, renamed) into `env`.
fn process_rec(
    env: &mut Environment,
    aux_env: &Environment,
    res: &mut ElimResult,
    rec_name: &Arc<Name>,
    rec_map: &Vec<(Arc<Name>, Arc<Name>)>,
    all_ind_names: &Vec<Arc<Name>>,
    g: &mut RecGuard,
) -> (r: Result<(), KernelError>)
    ensures
        final(env).quot_init() == old(env).quot_init(),
        grows(final(env).constants(), old(env).constants()),
        r is Ok ==> final(env).constants().len() == old(env).constants().len() + 1,
        r is Ok ==> final(env).constants().last() is Rec,
        r is Err ==> final(env).constants() == old(env).constants(),
        !(crate::env::lookup(aux_env.constants(), rec_name@) matches Some(ConstantInfo::Rec(_)))
            ==> r is Err,
{
    let new_rec_name = match assoc(rec_map, rec_name) {
        Some(n) => n,
        None => share(rec_name),
    };
    let rv = match aux_env.get(rec_name) {
        Some(ConstantInfo::Rec(v)) => v,
        _ => {
            return Err(ill_formed(rec_name, "missing aux recursor"));
        },
    };
    let new_rec_type = res.restore_nested(&rv.val.ty, aux_env, rec_map, g)?;
    let renamed = !new_rec_name.equal(rec_name);
    let mut new_rules: Vec<RecursorRule> = Vec::new();
    let mut k: usize = 0;
    while k < rv.rules.len()
        decreases rv.rules@.len() - k,
    {
        let rule = &rv.rules[k];
        let new_rhs = res.restore_nested(&rule.rhs, aux_env, rec_map, g)?;
        let new_cnstr = if renamed {
            res.restore_constructor_name(aux_env, &rule.ctor)?
        } else {
            share(&rule.ctor)
        };
        new_rules.push(RecursorRule { ctor: new_cnstr, nfields: rule.nfields.clone(), rhs: new_rhs });
        k = k + 1;
    }
    let new_rv = RecursorVal {
        val: ConstantVal {
            name: share(&new_rec_name),
            level_params: AddInductiveFn::copy_names(&rv.val.level_params),
            ty: new_rec_type,
        },
        all: AddInductiveFn::copy_names(all_ind_names),
        num_params: rv.num_params.clone(),
        num_indices: rv.num_indices.clone(),
        num_motives: rv.num_motives.clone(),
        num_minors: rv.num_minors.clone(),
        rules: new_rules,
        k: rv.k,
        is_unsafe: rv.is_unsafe,
    };
    add_checked(env, ConstantInfo::Rec(new_rv))
}

/// Copies the block's types, constructors and recursors from the
/// auxiliary admission `aux_env` into `env`, with every auxiliary
/// occurrence restored and the auxiliary recursors renamed.
fn restore_nested_inductives(
    env: &mut Environment,
    aux_env: &Environment,
    res: &mut ElimResult,
    orig_types: &Vec<InductiveType>,
    g: &mut RecGuard,
) -> (r: Result<(), KernelError>)
    ensures
        final(env).quot_init() == old(env).quot_init(),
        grows(final(env).constants(), old(env).constants()),
        r is Ok ==> forall|i: int|
            0 <= i < orig_types@.len() ==> declares_inductive(
                final(env).constants(),
                (#[trigger] orig_types@[i]).name@,
            ),
{
    let mut all_ind_names: Vec<Arc<Name>> = Vec::new();
    let mut k: usize = 0;
    while k < orig_types.len()
        decreases orig_types@.len() - k,
    {
        all_ind_names.push(share(&orig_types[k].name));
        k = k + 1;
    }
    let (aux_rec_names, rec_map) = mk_aux_rec_name_map(aux_env, orig_types)?;
    let empty_map: Vec<(Arc<Name>, Arc<Name>)> = Vec::new();
    let mut t: usize = 0;
    while t < orig_types.len()
        invariant
            env.quot_init() == old(env).quot_init(),
            grows(env.constants(), old(env).constants()),
            t <= orig_types@.len(),
            forall|i: int|
                0 <= i < t ==> declares_inductive(env.constants(), (#[trigger] orig_types@[i]).name@),
        decreases orig_types@.len() - t,
    {
        let ind_name = &orig_types[t].name;
        let iv = match aux_env.get(ind_name) {
            Some(ConstantInfo::Induct(v)) => v,
            _ => {
                return Err(ill_formed(ind_name, "missing aux inductive"));
            },
        };
        let new_iv = InductiveVal {
            val: ConstantVal {
                name: share(&iv.val.name),
                level_params: AddInductiveFn::copy_names(&iv.val.level_params),
                ty: share(&iv.val.ty),
            },
            num_params: iv.num_params.clone(),
            num_indices: iv.num_indices.clone(),
            all: AddInductiveFn::copy_names(&all_ind_names),
            ctors: AddInductiveFn::copy_names(&iv.ctors),
            num_nested: iv.num_nested.clone(),
            is_rec: iv.is_rec,
            is_unsafe: iv.is_unsafe,
            is_reflexive: iv.is_reflexive,
        };
        check_name(env, ind_name)?;
        proof {
            let cs = aux_env.constants();
            let k = choose|k: int| 0 <= k < cs.len() && const_name(#[trigger] cs[k]) == ind_name@;
            assert(const_name(ConstantInfo::Induct(*iv)) == ind_name@);
            let ci = ConstantInfo::Induct(new_iv);
            assert(const_name(ci) == ind_name@);
            lemma_push_declares(env.constants(), ci);
            lemma_grows_keeps(env.constants().push(ci), env.constants());
        }
        env.add_core(ConstantInfo::Induct(new_iv));
        let ghost with_type = env.constants();
        let mut c: usize = 0;
        while c < iv.ctors.len()
            invariant
                env.quot_init() == old(env).quot_init(),
                grows(env.constants(), old(env).constants()),
                grows(env.constants(), with_type),
            decreases iv.ctors@.len() - c,
        {
            let cnstr_name = &iv.ctors[c];
            let cv = match aux_env.get(cnstr_name) {
                Some(ConstantInfo::Ctor(v)) => v,
                _ => {
                    return Err(ill_formed(cnstr_name, "missing aux constructor"));
                },
            };
            let new_type = res.restore_nested(&cv.val.ty, aux_env, &empty_map, g)?;
            let new_cv = ConstructorVal {
                val: ConstantVal {
                    name: share(&cv.val.name),
                    level_params: AddInductiveFn::copy_names(&cv.val.level_params),
                    ty: new_type,
                },
                induct: share(&cv.induct),
                cidx: cv.cidx.clone(),
                num_params: cv.num_params.clone(),
                num_fields: cv.num_fields.clone(),
                is_unsafe: cv.is_unsafe,
            };
            check_name(env, cnstr_name)?;
            env.add_core(ConstantInfo::Ctor(new_cv));
            c = c + 1;
        }
        process_rec(env, aux_env, res, &mk_rec_name(ind_name), &rec_map, &all_ind_names, g)?;
        proof {
            lemma_grows_keeps(env.constants(), with_type);
        }
        t = t + 1;
    }
    let mut k: usize = 0;
    let ghost with_types = env.constants();
    while k < aux_rec_names.len()
        invariant
            env.quot_init() == old(env).quot_init(),
            grows(env.constants(), old(env).constants()),
            grows(env.constants(), with_types),
            forall|i: int|
                0 <= i < orig_types@.len() ==> declares_inductive(
                    with_types,
                    (#[trigger] orig_types@[i]).name@,
                ),
        decreases aux_rec_names@.len() - k,
    {
        process_rec(env, aux_env, res, &aux_rec_names[k], &rec_map, &all_ind_names, g)?;
        k = k + 1;
    }
    proof {
        lemma_grows_keeps(env.constants(), with_types);
    }
    Ok(())
}

/// Admits a (mutual) block of inductive types with `nparams` common
/// parameters: nested occurrences are first rewritten into auxiliary
/// types, the enlarged block is admitted, and its constants are
/// translated back. On failure the environment is left as it was.
pub(crate) fn add_inductive(
    env: &mut Environment,
    lparams: Vec<Arc<Name>>,
    nparams: Nat,
    types: Vec<InductiveType>,
    is_unsafe: bool,
) -> (r: Result<(), KernelError>)
    ensures
        final(env).quot_init() == old(env).quot_init(),
        r is Err ==> final(env).constants() == old(env).constants(),
        r is Ok ==> grows(final(env).constants(), old(env).constants()),
        r is Ok ==> forall|i: int|
            0 <= i < types@.len() ==> declares_inductive(
                final(env).constants(),
                (#[trigger] types@[i]).name@,
            ),
{
    let name0 = if types.len() > 0 {
        share(&types[0].name)
    } else {
        Name::anonymous()
    };
    let nparams_usize = match nparams.to_usize() {
        Some(v) => v,
        None => {
            return Err(ill_formed(&name0, "too many parameters"));
        },
    };
    let mut g = RecGuard::new();
    let mut res = elim_nested(env, &lparams, nparams_usize, &types, &mut g)?;
    let nnested = res.aux2nested.len();
    let n0 = env.len();
    let mut aux_types: Vec<InductiveType> = Vec::new();
    std::mem::swap(&mut aux_types, &mut res.aux_types);
    if nnested == 0 {
        let ghost aux_view = aux_types@;
        let r = run_add_inductive_fn(
            env,
            lparams,
            nparams_usize,
            aux_types,
            is_unsafe,
            Nat::from_u64(0),
        );
        proof {
            if r is Ok {
                assert forall|i: int| 0 <= i < types@.len() implies declares_inductive(
                    env.constants(),
                    (#[trigger] types@[i]).name@,
                ) by {
                    assert(type_declared(env.constants(), aux_view[i]));
                    assert(same_names(aux_view[i], types@[i]));
                }
            }
        }
        return r;
    }
    run_add_inductive_fn(
        env,
        lparams,
        nparams_usize,
        aux_types,
        is_unsafe,
        Nat::from_u64(nnested as u64),
    )?;
    let aux_consts = env.split_off(n0);
    proof {
        assert(env.constants() =~= old(env).constants());
    }
    let mut modules: Vec<Vec<ConstantInfo>> = Vec::new();
    modules.push(aux_consts);
    let aux_env = match Environment::from_modules(modules) {
        Ok(e) => e,
        Err(_) => {
            return Err(ill_formed(&name0, "ill-formed nested declaration"));
        },
    };
    match restore_nested_inductives(env, &aux_env, &mut res, &types, &mut g) {
        Ok(()) => Ok(()),
        Err(e) => {
            env.truncate(n0);
            proof {
                assert(env.constants() =~= old(env).constants());
            }
            Err(e)
        },
    }
}

} // verus!
