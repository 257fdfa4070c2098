//! The kernel type checker: type inference, weak head normalization
//! (beta, zeta, delta, projections, iota and quotient reduction, `Nat`
//! literal arithmetic) and definitional equality (lazy delta reduction,
//! proof irrelevance, eta for functions and structures, unit-like types,
//! string literals), with their memo tables.
//!
//! Every mutually recursive entry (`infer_type_core`, `whnf`,
//! `whnf_core`, `is_def_eq_core`, `lazy_delta_reduction`) runs one frame
//! deeper on the checker's own depth counter, which rejects at
//! `MAX_REC_DEPTH` with `DeepRecursion`, on a stack segment grown on
//! demand. The loops that unfold definitions one step at a time stop with
//! `DeepRecursion` after `u64::MAX` steps, and a checker that has made
//! `u64::MAX` fresh locals declines to make more, the same way: machine
//! limits, never a wrong answer.
//!
//! What is proved: the checker terminates, never panics, keeps its local
//! context and caches consistent, and its results have the shapes stated
//! below (a weak head normal form carries no `let`, metadata or applied
//! lambda at its head; inference gives `Sort (u+1)` for `Sort u`, the
//! literal type for a literal and the declared type for a constant).
use crate::cache::{ExprCache, PairCache};
use crate::decl::{ConstantInfo, DefinitionSafety};
use crate::env::{lookup, Environment};
use crate::equiv::{entails, UnionFind};
use crate::error::KernelError;
use crate::expr::{
    app_args, app_fn, expr_fields, expr_height, exprs_view, lemma_expr_view, lemma_node_view, mk_spine, BinderInfo, Expr,
    ExprNode, Literal, SExpr, SLiteral,
};
use crate::guard::{RecGuard, MAX_REC_DEPTH};
use crate::level::{level_height, levels_view, names_view, spec_is_equivalent, Level, SLevel};
use crate::local_ctx::{find_decl, fresh_name, law_fresh_names_distinct, FVarIdGen, LocalContext};
use crate::name::{Name, NameComp};
use crate::num::Nat;
use crate::quot::{sname, sname2};
use crate::quot_red::{quot_major_positions, quot_reduce_with};
use crate::shared::{same_node, share};
use crate::subst::{
    inst_spec, instantiate, instantiate_level_params, instantiate_rev, lparams_spec, tree_height,
};
use crate::tc::{
    binder_dom_body, binder_full, cheap_beta_reduce, compare_hints, const0, const_levels_of_head,
    get_major_induct, get_rec_rule_for, get_undef_param, info_has_value, info_hints, info_is_unsafe,
    info_value, is_const_named, is_constructor_app, mk_name1, mk_name2, nat_binop,
    nat_lit_to_constructor, string_lit_to_constructor, to_lbool, undef_param, Lbool,
};
use std::sync::Arc;
use vstd::prelude::*;

verus! {

broadcast use {lemma_expr_view, lemma_node_view};

/// The largest exponent `Nat.pow` is folded for.
pub const REDUCE_POW_MAX_EXP: usize = 16777216;

/// No `let`, no metadata and no lambda applied at the head: what weak
/// head normalization leaves.
pub open spec fn whnf_core_shape(e: SExpr) -> bool {
    !(e is LetE) && !(e is MData) && !(e is App && app_fn(e) is Lam)
}

/// Expressions that weak head normalization gives back as they are.
pub open spec fn whnf_leaf(e: SExpr) -> bool {
    e is BVar || e is Sort || e is MVar || e is ForallE || e is Lit
}

/// What inference of `e` may give: nothing for an expression with loose
/// bound variables or for a metavariable; `Sort (u+1)` for `Sort u`;
/// `Nat` or `String` for a literal; for a constant, its declared type at
/// the given universe levels, when as many levels as parameters are
/// given; a sort for a binder type; a binder type for a lambda; the
/// field type `proj_field` for a projection out of a constant of a
/// structure (`proj_of_const`). Of an application, a `let`, another
/// projection, a free variable or a metadata node it says nothing.
#[verifier::opaque]
pub open spec fn inferred_shape(cs: Seq<ConstantInfo>, e: SExpr, t: SExpr) -> bool {
    &&& expr_fields(e).range == 0
    &&& match e {
        SExpr::MVar(_) => false,
        SExpr::Sort(l) => t == SExpr::Sort(SLevel::Succ(Box::new(l))),
        SExpr::Lit(SLiteral::NatVal(_)) => t == SExpr::Const(sname("Nat"@), Seq::empty()),
        SExpr::Lit(SLiteral::StrVal(_)) => t == SExpr::Const(sname("String"@), Seq::empty()),
        SExpr::Const(n, ls) => match lookup(cs, n) {
            Some(c) => {
                let ps = names_view(c.spec_constant_val().level_params@);
                ps.len() == ls.len() && t == lparams_spec(c.spec_constant_val().ty@, ps, ls)
            },
            None => false,
        },
        SExpr::ForallE(..) => t is Sort,
        SExpr::Lam(..) => t is ForallE,
        SExpr::Proj(..) => proj_of_const(cs, true, e) && proj_field(cs, e) is Some ==> Some(t)
            == proj_field(cs, e),
        _ => true,
    }
}

/// `Sort l` with every universe parameter of `l` among `ps` and `l`
/// short enough to walk under the depth cap: inference gives it a type.
pub open spec fn sort_in_scope(e: SExpr, ps: Seq<Seq<NameComp>>) -> bool {
    e matches SExpr::Sort(l) && undef_param(l, ps) is None && level_height(l) < MAX_REC_DEPTH
}

/// A constant given without universe levels, declared in `cs` without
/// universe parameters, neither unsafe nor partial, whose declared type
/// has no universe parameter and is short enough to walk: inference gives
/// it its declared type (`const_type`).
pub open spec fn const_in_scope(cs: Seq<ConstantInfo>, e: SExpr) -> bool {
    &&& e matches SExpr::Const(n, ls) && ls.len() == 0
    &&& lookup(cs, e->Const_0) matches Some(c) && {
        &&& c.spec_constant_val().level_params@.len() == 0
        &&& !crate::tc::spec_info_is_unsafe(c)
        &&& !(c matches ConstantInfo::Defn(v) && v.safety == DefinitionSafety::Partial)
        &&& !crate::expr_laws::expr_has_level_param(c.spec_constant_val().ty@)
        &&& crate::expr::expr_height(c.spec_constant_val().ty@) <= MAX_REC_DEPTH
    }
}

/// A constant whose name `cs` does not declare.
pub open spec fn names_unknown(cs: Seq<ConstantInfo>, e: SExpr) -> bool {
    e matches SExpr::Const(n, _) && lookup(cs, n) is None
}

/// The error for a constant that is not declared, naming it.
pub open spec fn unknown_error<T>(r: Result<T, KernelError>, e: SExpr) -> bool {
    r matches Err(KernelError::UnknownConstant(m)) && m@ == e->Const_0
}

/// The declared type of the constant `e` names in `cs`.
pub open spec fn const_type(cs: Seq<ConstantInfo>, e: SExpr) -> SExpr {
    match e {
        SExpr::Const(n, _) => match lookup(cs, n) {
            Some(c) => c.spec_constant_val().ty@,
            None => e,
        },
        _ => e,
    }
}

/// `e` projects out of a structure: an inductive type of `cs` with a
/// single constructor, itself declared in `cs`.
spec fn proj_struct_ok(cs: Seq<ConstantInfo>, e: SExpr) -> bool {
    e matches SExpr::Proj(sn, _, _) && lookup(cs, sn) matches Some(ConstantInfo::Induct(v))
        && v.ctors@.len() == 1 && lookup(cs, v.ctors@[0]@) is Some
}

/// A constant, or a constant applied to arguments, that head reduction
/// without unfolding leaves as it is: the constant is not a recursor,
/// and, once the quotient is initialized (`qi`), not a quotient
/// eliminator applied to its major premise.
pub open spec fn stuck_core(cs: Seq<ConstantInfo>, qi: bool, e: SExpr) -> bool {
    &&& app_fn(e) is Const
    &&& !rec_head(cs, e)
    &&& !(qi && crate::quot_red::quot_major(e) is Some)
}

/// A term that weak head normalization gives back as it is: `stuck_core`,
/// with a constant that is neither a definition nor a theorem to unfold
/// at the given universe levels, nor `Nat.succ` or a `Nat` binary
/// operation to fold on literals.
pub open spec fn stuck(cs: Seq<ConstantInfo>, qi: bool, e: SExpr) -> bool {
    &&& stuck_core(cs, qi, e)
    &&& delta_info(cs, e) is None
    &&& app_fn(e) matches SExpr::Const(n, _) && n != sname2("Nat"@, "succ"@)
        && crate::tc::nat_binop_spec(n) is None
}

/// The quotient step: once the quotient is initialized, a quotient
/// eliminator applied to its major premise, that premise already `stuck`,
/// reduces as `quot_reduct` says.
pub open spec fn quot_step(cs: Seq<ConstantInfo>, qi: bool, e: SExpr) -> Option<SExpr> {
    if qi && crate::quot_red::quot_major(e) is Some && stuck(
        cs,
        qi,
        app_args(e)[crate::quot_red::quot_major(e)->Some_0.0 as int],
    ) {
        crate::quot_red::quot_reduct(
            e,
            app_args(e)[crate::quot_red::quot_major(e)->Some_0.0 as int],
        )
    } else {
        None
    }
}

/// The result of the quotient step when it is itself `stuck`: what weak
/// head normalization gives.
pub open spec fn quot_target(cs: Seq<ConstantInfo>, qi: bool, e: SExpr) -> Option<SExpr> {
    match quot_step(cs, qi, e) {
        Some(y) => if stuck(cs, qi, y) {
            Some(y)
        } else {
            None
        },
        None => None,
    }
}

/// `Bool.true` or `Bool.false`.
pub open spec fn bool_expr(b: bool) -> SExpr {
    SExpr::Const(
        if b {
            sname2("Bool"@, "true"@)
        } else {
            sname2("Bool"@, "false"@)
        },
        Seq::empty(),
    )
}

/// The literal `Nat.op a b` folds to, when the kernel folds that
/// operation on literals: arithmetic, bitwise operations, shifts (a
/// shift by more than the machine's `usize` only for a right shift),
/// powers with an exponent up to `2^24`, and the `Bool` comparisons.
pub open spec fn nat_fold(op: Seq<char>, a: nat, b: nat) -> Option<SExpr> {
    let lit = |v: nat| SExpr::Lit(SLiteral::NatVal(v));
    if op == "add"@ {
        Some(lit(a + b))
    } else if op == "sub"@ {
        Some(lit(if a >= b { (a - b) as nat } else { 0nat }))
    } else if op == "mul"@ {
        Some(lit(a * b))
    } else if op == "gcd"@ {
        Some(lit(crate::num::nat_gcd(a, b)))
    } else if op == "mod"@ {
        Some(lit(if b == 0 { a } else { a % b }))
    } else if op == "div"@ {
        Some(lit(if b == 0 { 0nat } else { a / b }))
    } else if op == "land"@ {
        Some(lit(crate::num::nat_and(a, b)))
    } else if op == "lor"@ {
        Some(lit(crate::num::nat_or(a, b)))
    } else if op == "xor"@ {
        Some(lit(crate::num::nat_xor(a, b)))
    } else if op == "pow"@ {
        if b <= REDUCE_POW_MAX_EXP {
            Some(lit(vstd::arithmetic::power::pow(a as int, b) as nat))
        } else {
            None
        }
    } else if op == "shiftLeft"@ {
        if b <= usize::MAX {
            Some(lit(a * vstd::arithmetic::power2::pow2(b)))
        } else {
            None
        }
    } else if op == "shiftRight"@ {
        Some(lit(a / vstd::arithmetic::power2::pow2(if b <= usize::MAX { b } else { usize::MAX as nat })))
    } else if op == "beq"@ {
        Some(bool_expr(a == b))
    } else if op == "ble"@ {
        Some(bool_expr(a <= b))
    } else {
        None
    }
}

/// For `Nat.op a b` with two literal arguments: what it folds to
/// (`nat_fold`), if anything.
pub open spec fn nat_binop_app(e: SExpr) -> Option<Option<SExpr>> {
    if app_args(e).len() == 2 && app_fn(e) is Const && crate::tc::nat_binop_spec(app_fn(e)->Const_0)
        is Some && (app_args(e)[0] is Lit && app_args(e)[0]->Lit_0 is NatVal) && (app_args(e)[1] is Lit
        && app_args(e)[1]->Lit_0 is NatVal) {
        Some(
            nat_fold(
                crate::tc::nat_binop_spec(app_fn(e)->Const_0)->Some_0,
                app_args(e)[0]->Lit_0->NatVal_0,
                app_args(e)[1]->Lit_0->NatVal_0,
            ),
        )
    } else {
        None
    }
}

/// Delta unfolding of a constant given without universe levels that
/// names a definition or theorem declared without universe parameters,
/// whose value has none either: that value.
pub open spec fn delta_value(cs: Seq<ConstantInfo>, e: SExpr) -> Option<SExpr> {
    match e {
        SExpr::Const(n, ls) => if ls.len() == 0 {
            match lookup(cs, n) {
                Some(c) => if (c is Defn || c is Thm) && c.spec_constant_val().level_params@.len() == 0
                    && !crate::expr_laws::expr_has_level_param(const_value(c))
                    && crate::expr::expr_height(const_value(c)) <= MAX_REC_DEPTH {
                    Some(const_value(c))
                } else {
                    None
                },
                None => None,
            }
        } else {
            None
        },
        _ => None,
    }
}

/// The value of a definition or theorem.
pub open spec fn const_value(c: ConstantInfo) -> SExpr {
    match c {
        ConstantInfo::Defn(v) => v.value@,
        ConstantInfo::Thm(v) => v.value@,
        _ => SExpr::BVar(0),
    }
}

/// What weak head normalization gives for such a constant when the
/// value is itself `stuck`.
pub open spec fn delta_target(cs: Seq<ConstantInfo>, qi: bool, e: SExpr) -> Option<SExpr> {
    match delta_value(cs, e) {
        Some(v) => if stuck(cs, qi, v) {
            Some(v)
        } else {
            None
        },
        None => None,
    }
}

/// The fixed names and expressions the checker compares against.
struct CheckerNames {
    dont_care: Arc<Expr>,
    bool_true: Arc<Name>,
    bool_false: Arc<Name>,
    nat_name: Arc<Name>,
    string_name: Arc<Name>,
    nat_zero: Arc<Name>,
    nat_succ: Arc<Name>,
    string_mk: Arc<Name>,
}

impl CheckerNames {
    closed spec fn wf(self) -> bool {
        &&& self.nat_name@ == sname("Nat"@)
        &&& self.string_name@ == sname("String"@)
        &&& self.bool_true@ == sname2("Bool"@, "true"@)
        &&& self.bool_false@ == sname2("Bool"@, "false"@)
        &&& self.nat_zero@ == sname2("Nat"@, "zero"@)
        &&& self.nat_succ@ == sname2("Nat"@, "succ"@)
        &&& self.string_mk@ == sname2("String"@, "ofList"@)
    }

    fn new() -> (r: CheckerNames)
        ensures
            r.wf(),
    {
        CheckerNames {
            dont_care: const0(mk_name1("dontcare"), false),
            bool_true: mk_name2("Bool", "true"),
            bool_false: mk_name2("Bool", "false"),
            nat_name: mk_name1("Nat"),
            string_name: mk_name1("String"),
            nat_zero: mk_name2("Nat", "zero"),
            nat_succ: mk_name2("Nat", "succ"),
            string_mk: mk_name2("String", "ofList"),
        }
    }
}

/// The mutable state of a checker: the universe parameters in scope, the
/// local context and its id generator, the guard handed to the tree
/// walks, and the memo tables.
struct CheckerState {
    safety: DefinitionSafety,
    lparams: Vec<Arc<Name>>,
    lctx: LocalContext,
    fvar_gen: FVarIdGen,
    guard: RecGuard,
    infer_only_cache: ExprCache,
    infer_check_cache: ExprCache,
    whnf_cache: ExprCache,
    whnf_core_cache: ExprCache,
    eqv_cache: UnionFind,
    failure_cache: PairCache,
    unfold_memo: ExprCache,
}

/// The caches hold only what their functions may return.
spec fn st_wf(st: CheckerState, cs: Seq<ConstantInfo>, qi: bool) -> bool {
    &&& st.eqv_cache.wf()
    &&& st.guard.depth() == 0
    &&& forall|p: (SExpr, SExpr)| #[trigger]
        st.whnf_cache.pairs().contains(p) ==> whnf_core_shape(p.1) && (stuck(cs, qi, p.0) ==> p.1
            == p.0) && (proj_settles(cs, qi, p.0) ==> Some(p.1) == proj_reduct(cs, qi, p.0)) && (quot_target(cs, qi, p.0) matches Some(y) ==> p.1 == y) && (delta_target(
            cs,
            qi,
            p.0,
        ) matches Some(y) ==> p.1 == y)
    &&& forall|p: (SExpr, SExpr)| #[trigger]
        st.whnf_core_cache.pairs().contains(p) ==> whnf_core_shape(p.1) && (stuck_core(cs, qi, p.0)
            ==> p.1 == p.0) && (proj_settles_core(cs, qi, p.0) ==> Some(p.1) == proj_reduct(cs, qi, p.0)) && (quot_target(cs, qi, p.0) matches Some(y) ==> p.1 == y)
    &&& forall|p: (SExpr, SExpr)| #[trigger]
        st.infer_only_cache.pairs().contains(p) ==> inferred_shape(cs, p.0, p.1)
    &&& forall|p: (SExpr, SExpr)| #[trigger]
        st.infer_check_cache.pairs().contains(p) ==> inferred_shape(cs, p.0, p.1)
}

/// `st` has the scope and local context of `old`.
spec fn st_keeps(st: CheckerState, old: CheckerState) -> bool {
    &&& st.lctx.decls() == old.lctx.decls()
    &&& st.lparams@ == old.lparams@
    &&& st.safety == old.safety
    &&& st.fvar_gen.next() >= old.fvar_gen.next()
}

impl CheckerState {
    fn new() -> (r: CheckerState)
        ensures
            forall|cs: Seq<ConstantInfo>, qi: bool| st_wf(r, cs, qi),
            r.lctx.decls() == Seq::<crate::local_ctx::LocalDecl>::empty(),
            r.lparams@ == Seq::<Arc<Name>>::empty(),
            r.safety == DefinitionSafety::Safe,
            r.eqv_cache.equations() == Seq::<(SExpr, SExpr)>::empty(),
            r.infer_only_cache.pairs() == Set::<(SExpr, SExpr)>::empty(),
            r.infer_check_cache.pairs() == Set::<(SExpr, SExpr)>::empty(),
    {
        CheckerState {
            safety: DefinitionSafety::Safe,
            lparams: Vec::new(),
            lctx: LocalContext::default(),
            fvar_gen: FVarIdGen::default(),
            guard: RecGuard::new(),
            infer_only_cache: ExprCache::new(),
            infer_check_cache: ExprCache::new(),
            whnf_cache: ExprCache::new(),
            whnf_core_cache: ExprCache::new(),
            eqv_cache: UnionFind::new(),
            failure_cache: PairCache::new(),
            unfold_memo: ExprCache::new(),
        }
    }
}

/// A type checker over the environment `env`.
pub struct TypeChecker<'e> {
    env: &'e Environment,
    frames: RecGuard,
    st: CheckerState,
    names: Arc<CheckerNames>,
}

/// Three steps of lazy delta reduction.
enum ReductionStatus {
    Continue,
    DefUnknown,
    DefEqual,
    DefDiff,
}

/// An expression `whnf_core` gives back as it is: a variable, sort,
/// metavariable, binder, constant or literal.
pub open spec fn whnf_core_leaf(e: SExpr) -> bool {
    e is BVar || e is Sort || e is MVar || e is ForallE || e is Lam || e is Const || e is Lit
}

/// The predecessor `is_nat_succ` finds: of a positive literal, or the
/// argument of `Nat.succ` applied to one argument.
spec fn nat_pred(succ: Seq<NameComp>, t: SExpr) -> Option<SExpr> {
    match t {
        SExpr::Lit(SLiteral::NatVal(v)) => if v > 0 {
            Some(SExpr::Lit(SLiteral::NatVal((v - 1) as nat)))
        } else {
            None
        },
        SExpr::App(_, a) => if app_fn(t) matches SExpr::Const(n, _) && n == succ && app_args(t).len()
            == 1 {
            Some(*a)
        } else {
            None
        },
        _ => None,
    }
}

/// `t` is a string literal and `s` an application of `String.ofList`.
spec fn string_vs_mk(mk: Seq<NameComp>, t: SExpr, s: SExpr) -> bool {
    &&& t matches SExpr::Lit(SLiteral::StrVal(_))
    &&& s is App
    &&& app_fn(s) matches SExpr::Const(n, _) && n == mk
}

/// The head of `e` is a constructor of `cs`.
pub open spec fn ctor_head(cs: Seq<ConstantInfo>, e: SExpr) -> bool {
    app_fn(e) matches SExpr::Const(n, _) && lookup(cs, n) matches Some(ConstantInfo::Ctor(_))
}

/// Two constants, the first not `Nat.zero`, neither a definition or
/// theorem to unfold: lazy delta reduction has nothing to do.
spec fn delta_idle(cs: Seq<ConstantInfo>, t: SExpr, s: SExpr) -> bool {
    &&& t is Const
    &&& s is Const
    &&& t->Const_0 != sname2("Nat"@, "zero"@)
    &&& delta_info(cs, t) is None
    &&& delta_info(cs, s) is None
}

/// Two constants, given without universe levels, that no reduction
/// relates: distinct, both left as they are by weak head normalization,
/// neither a constructor; the first has a sort for its type and is not
/// `Nat.zero`, the second is not `Bool.true`. Definitional equality
/// never holds between them.
pub open spec fn rigid_pair(cs: Seq<ConstantInfo>, qi: bool, t: SExpr, s: SExpr) -> bool {
    &&& const_in_scope(cs, t)
    &&& const_in_scope(cs, s)
    &&& t != s
    &&& const_type(cs, t) is Sort
    &&& stuck(cs, qi, t)
    &&& stuck(cs, qi, s)
    &&& !ctor_head(cs, t)
    &&& !ctor_head(cs, s)
    &&& t->Const_0 != sname2("Nat"@, "zero"@)
    &&& s->Const_0 != sname2("Bool"@, "true"@)
}

/// The type of the field `i + left` of a constructor type `r` whose
/// fields from `i` on are still open: each field that a later field uses
/// is replaced there by its projection `sn.i` out of `c`.
pub open spec fn proj_walk(sn: Seq<NameComp>, c: SExpr, r: SExpr, i: nat, left: nat) -> Option<SExpr>
    decreases left,
{
    match r {
        SExpr::ForallE(_, d, b, _) => if left == 0 {
            Some(*d)
        } else {
            proj_walk(
                sn,
                c,
                if expr_fields(*b).range > 0 {
                    inst_spec(*b, 0, 0, seq![SExpr::Proj(sn, i, Box::new(c))], false)
                } else {
                    *b
                },
                i + 1,
                (left - 1) as nat,
            )
        },
        _ => None,
    }
}

/// A projection `sn.idx` out of a constant `c`, given without universe
/// levels, whose declared type is the structure `sn` applied to its
/// parameters and left as it is by weak head normalization: `sn` is an
/// inductive type with one constructor, declared without universe
/// parameters, whose parameters are exactly those arguments and which
/// has no indices.
pub open spec fn proj_of_const(cs: Seq<ConstantInfo>, qi: bool, e: SExpr) -> bool {
    &&& e is Proj
    &&& const_in_scope(cs, *e->Proj_2)
    &&& app_fn(const_type(cs, *e->Proj_2)) == SExpr::Const(e->Proj_0, Seq::empty())
    &&& stuck(cs, qi, const_type(cs, *e->Proj_2))
    &&& lookup(cs, e->Proj_0) is Some
    &&& lookup(cs, e->Proj_0)->Some_0 is Induct
    &&& lookup(cs, e->Proj_0)->Some_0->Induct_0.num_params@ == app_args(const_type(cs, *e->Proj_2)).len()
    &&& lookup(cs, e->Proj_0)->Some_0->Induct_0.num_indices@ == 0
    &&& lookup(cs, e->Proj_0)->Some_0->Induct_0.ctors@.len() == 1
    &&& lookup(cs, lookup(cs, e->Proj_0)->Some_0->Induct_0.ctors@[0]@) is Some
    &&& lookup(cs, lookup(cs, e->Proj_0)->Some_0->Induct_0.ctors@[0]@)->Some_0.spec_constant_val().level_params@.len() == 0
    &&& !crate::expr_laws::expr_has_level_param(
        lookup(cs, lookup(cs, e->Proj_0)->Some_0->Induct_0.ctors@[0]@)->Some_0.spec_constant_val().ty@,
    )
}

/// The type of the field a `proj_of_const` projection selects: the
/// constructor's type with its parameters instantiated in order by the
/// structure's arguments, walked to the field (`proj_walk`).
pub open spec fn proj_field(cs: Seq<ConstantInfo>, e: SExpr) -> Option<SExpr> {
    let kty = lookup(cs, lookup(cs, e->Proj_0)->Some_0->Induct_0.ctors@[0]@)->Some_0.spec_constant_val().ty@;
    match strip_binders(kty, app_args(const_type(cs, *e->Proj_2))) {
        Some(r) => proj_walk(e->Proj_0, *e->Proj_2, r, 0, e->Proj_1),
        None => None,
    }
}

/// `r` with its leading binders instantiated by `ps`, the first binder
/// by the first of `ps`; nothing when `r` has fewer binders.
pub open spec fn strip_binders(r: SExpr, ps: Seq<SExpr>) -> Option<SExpr>
    decreases ps.len(),
{
    if ps.len() == 0 {
        Some(r)
    } else {
        match r {
            SExpr::ForallE(_, _, b, _) => strip_binders(
                inst_spec(*b, 0, 0, seq![ps[0]], false),
                ps.drop_first(),
            ),
            _ => None,
        }
    }
}

/// The declared type of the local `e` refers to in `decls`: the last
/// declaration made with its id.
pub open spec fn local_type(decls: Seq<crate::local_ctx::LocalDecl>, e: SExpr) -> Option<SExpr> {
    match e {
        SExpr::FVar(id) => match find_decl(decls, id) {
            Some(d) => Some(d.ty@),
            None => None,
        },
        _ => None,
    }
}

/// Field `i` of a constructor application `c`: the argument after the
/// constructor's parameters, when there is one.
pub open spec fn ctor_field(cs: Seq<ConstantInfo>, c: SExpr, i: nat) -> Option<SExpr> {
    match app_fn(c) {
        SExpr::Const(n, _) => match lookup(cs, n) {
            Some(ConstantInfo::Ctor(v)) => if v.num_params@ + i < app_args(c).len() {
                Some(app_args(c)[(v.num_params@ + i) as int])
            } else {
                None
            },
            _ => None,
        },
        _ => None,
    }
}

/// Out of a constructor applied to its parameters and then to its
/// fields, `ctor_field` picks the field with the projection's index: for
/// `mk p_1 .. p_n f_0 .. f_k`, with `n` the constructor's parameter count,
/// field `i` is `f_i`, never a parameter.
pub proof fn law_ctor_field_skips_params(
    cs: Seq<ConstantInfo>,
    mk: Seq<NameComp>,
    ls: Seq<SLevel>,
    ps: Seq<SExpr>,
    fs: Seq<SExpr>,
    i: nat,
)
    requires
        lookup(cs, mk) matches Some(ConstantInfo::Ctor(v)) && v.num_params@ == ps.len(),
        i < fs.len(),
    ensures
        ctor_field(cs, mk_spine(SExpr::Const(mk, ls), ps + fs), i) == Some(fs[i as int]),
{
    crate::expr_laws::lemma_spine_of_mk(SExpr::Const(mk, ls), ps + fs);
    assert(app_args(SExpr::Const(mk, ls)) + (ps + fs) =~= ps + fs);
    assert((ps + fs)[(ps.len() + i) as int] == fs[i as int]);
}

/// Projection iota: for `Proj(_, i, c)` with `c` a constructor
/// application left as it is by weak head normalization, field `i` of
/// `c` (`ctor_field`).
pub open spec fn proj_reduct(cs: Seq<ConstantInfo>, qi: bool, e: SExpr) -> Option<SExpr> {
    if e is Proj && e->Proj_1 <= usize::MAX && stuck(cs, qi, *e->Proj_2) && !(*e->Proj_2 is Lit) {
        ctor_field(cs, *e->Proj_2, e->Proj_1)
    } else {
        None
    }
}

/// `proj_reduct` applies and gives a term weak head normalization leaves
/// as it is.
pub open spec fn proj_settles(cs: Seq<ConstantInfo>, qi: bool, e: SExpr) -> bool {
    &&& proj_reduct(cs, qi, e) is Some
    &&& stuck(cs, qi, proj_reduct(cs, qi, e)->Some_0) || whnf_leaf(proj_reduct(cs, qi, e)->Some_0)
}

/// `proj_reduct` applies and gives a term head reduction without
/// unfolding leaves as it is.
pub open spec fn proj_settles_core(cs: Seq<ConstantInfo>, qi: bool, e: SExpr) -> bool {
    &&& proj_reduct(cs, qi, e) is Some
    &&& stuck_core(cs, qi, proj_reduct(cs, qi, e)->Some_0) || whnf_core_leaf(
        proj_reduct(cs, qi, e)->Some_0,
    )
}

/// Two sorts whose universe levels are equivalent: equal, or with equal
/// normal forms. Such sorts are definitionally equal.
pub open spec fn sorts_equivalent(t: SExpr, s: SExpr) -> bool {
    &&& t is Sort
    &&& s is Sort
    &&& spec_is_equivalent(t->Sort_0, s->Sort_0)
}

/// Two sorts small enough for the comparison to finish under the depth
/// cap.
pub open spec fn sorts_small(t: SExpr, s: SExpr) -> bool {
    &&& t is Sort
    &&& s is Sort
    &&& expr_height(t) < MAX_REC_DEPTH
    &&& crate::level::level_size(t->Sort_0) * crate::level::level_size(t->Sort_0) < MAX_REC_DEPTH
    &&& crate::level::level_size(s->Sort_0) * crate::level::level_size(s->Sort_0) < MAX_REC_DEPTH
}

/// The head of `e` is a recursor of `cs`.
pub open spec fn rec_head(cs: Seq<ConstantInfo>, e: SExpr) -> bool {
    app_fn(e) matches SExpr::Const(n, _) && lookup(cs, n) matches Some(ConstantInfo::Rec(_))
}

/// `Nat.zero` or the literal `0`.
spec fn nat_zero_spec(zero: Seq<NameComp>, t: SExpr) -> bool {
    (t matches SExpr::Const(n, _) && n == zero) || t == SExpr::Lit(SLiteral::NatVal(0))
}

/// The value `v` when `e` is `Nat.succ` applied to the literal `v`.
spec fn nat_succ_of_lit(succ: Seq<NameComp>, e: SExpr) -> Option<nat> {
    match e {
        SExpr::App(f, a) => match (*f, *a) {
            (SExpr::Const(n, _), SExpr::Lit(SLiteral::NatVal(v))) => if n == succ {
                Some(v)
            } else {
                None
            },
            _ => None,
        },
        _ => None,
    }
}

/// The definition a delta step unfolds at the head of `e`: a constant
/// with a value, applied to as many levels as it has parameters.
pub open spec fn delta_info(cs: Seq<ConstantInfo>, e: SExpr) -> Option<ConstantInfo> {
    match app_fn(e) {
        SExpr::Const(n, ls) => match lookup(cs, n) {
            Some(c) => if (c is Defn || c is Thm) && c.spec_constant_val().level_params@.len()
                == ls.len() {
                Some(c)
            } else {
                None
            },
            None => None,
        },
        _ => None,
    }
}

/// Whether an expression of `es` from position `start` on has an
/// expression metavariable.
fn any_mvar_from(es: &[Arc<Expr>], start: usize) -> (r: bool)
    ensures
        r == exists|i: int| start <= i < es@.len() && expr_fields((#[trigger] es@[i])@).has_expr_mvar,
{
    let mut i: usize = start;
    while i < es.len()
        invariant
            start <= i,
            forall|j: int| start <= j < i ==> !expr_fields((#[trigger] es@[j])@).has_expr_mvar,
        decreases es@.len() - i,
    {
        let d = es[i].data();
        if d.has_expr_mvar() {
            proof {
                assert(expr_fields(es@[i as int]@).has_expr_mvar);
            }
            return true;
        }
        i = i + 1;
    }
    false
}

/// Whether the strings `a` and `b` are equal.
fn str_is(a: &str, b: &str) -> (r: bool)
    ensures
        r == (a@ == b@),
{
    let x = crate::name::string_chars(a);
    let y = crate::name::string_chars(b);
    if x.len() != y.len() {
        return false;
    }
    let mut i: usize = 0;
    while i < x.len()
        invariant
            x@ == a@,
            y@ == b@,
            x@.len() == y@.len(),
            i <= x@.len(),
            forall|j: int| 0 <= j < i ==> x@[j] == y@[j],
        decreases x@.len() - i,
    {
        if x[i] != y[i] {
            return false;
        }
        i = i + 1;
    }
    proof {
        assert(x@ =~= y@);
    }
    true
}

impl<'e> TypeChecker<'e> {
    /// The environment checked against.
    pub closed spec fn env(self) -> Seq<ConstantInfo> {
        self.env.constants()
    }

    /// Whether the environment's quotient is initialized.
    pub closed spec fn eqs(self) -> Seq<(SExpr, SExpr)> {
        self.st.eqv_cache.equations()
    }

    /// Whether the environment's quotient is initialized.
    pub closed spec fn quot_init(self) -> bool {
        self.env.quot_init()
    }

    /// The number of checker frames entered.
    pub closed spec fn depth(self) -> nat {
        self.frames.depth()
    }

    /// The frames left before the depth cap.
    pub closed spec fn budget(self) -> nat {
        (MAX_REC_DEPTH - self.frames.depth()) as nat
    }

    /// The local declarations in scope.
    pub closed spec fn locals(self) -> Seq<crate::local_ctx::LocalDecl> {
        self.st.lctx.decls()
    }

    /// No inferred type is recorded yet.
    pub closed spec fn no_cached_types(self) -> bool {
        &&& self.st.infer_only_cache.pairs() == Set::<(SExpr, SExpr)>::empty()
        &&& self.st.infer_check_cache.pairs() == Set::<(SExpr, SExpr)>::empty()
    }

    /// The caches hold only what their functions may return.
    pub closed spec fn wf(self) -> bool {
        &&& st_wf(self.st, self.env.constants(), self.env.quot_init())
        &&& self.names.wf()
        &&& self.frames.depth() <= MAX_REC_DEPTH
    }

    /// Same environment, depth, scope and local context as `old`.
    pub closed spec fn keeps(self, old: Self) -> bool {
        &&& self.env == old.env
        &&& self.frames == old.frames
        &&& self.names == old.names
        &&& st_keeps(self.st, old.st)
    }

    /// Like `keeps`, but locals may have been added after those of `old`.
    closed spec fn extends(self, old: Self) -> bool {
        &&& self.env == old.env
        &&& self.frames == old.frames
        &&& self.names == old.names
        &&& self.st.lparams@ == old.st.lparams@
        &&& self.st.safety == old.st.safety
        &&& old.st.fvar_gen.next() <= self.st.fvar_gen.next()
        &&& old.st.lctx.decls().len() <= self.st.lctx.decls().len()
        &&& forall|i: int|
            0 <= i < old.st.lctx.decls().len() ==> #[trigger] self.st.lctx.decls()[i]
                == old.st.lctx.decls()[i]
    }

    /// A checker over `env` with no universe parameters, no locals and
    /// empty caches.
    pub fn new(env: &'e Environment) -> (r: TypeChecker<'e>)
        ensures
            r.wf(),
            r.env() == env.constants(),
            r.quot_init() == env.quot_init(),
            r.eqs() == Seq::<(SExpr, SExpr)>::empty(),
            r.depth() == 0,
            r.locals() == Seq::<crate::local_ctx::LocalDecl>::empty(),
    {
        TypeChecker {
            env,
            frames: RecGuard::new(),
            st: CheckerState::new(),
            names: Arc::new(CheckerNames::new()),
        }
    }

    /// A checker over `env` that continues the local context `lctx` and
    /// the id generator `fvar_gen` of an earlier one.
    pub(crate) fn new_with(env: &'e Environment, lctx: LocalContext, fvar_gen: FVarIdGen) -> (r:
        TypeChecker<'e>)
        ensures
            r.wf(),
            r.env() == env.constants(),
            r.depth() == 0,
            r.locals() == lctx.decls(),
            r.no_cached_types(),
    {
        let mut st = CheckerState::new();
        proof {
            assert(st_wf(st, env.constants(), env.quot_init()));
        }
        st.lctx = lctx;
        st.fvar_gen = fvar_gen;
        TypeChecker { env, frames: RecGuard::new(), st, names: Arc::new(CheckerNames::new()) }
    }

    /// The local context and id generator, for a later checker.
    pub(crate) fn into_parts(self) -> (r: (LocalContext, FVarIdGen))
        ensures
            r.0.decls() == self.locals(),
    {
        (self.st.lctx, self.st.fvar_gen)
    }

    /// A fresh local of type `ty`; `DeepRecursion` once the id generator
    /// is exhausted.
    fn fresh_local(&mut self, name: &Arc<Name>, ty: Arc<Expr>, bi: BinderInfo) -> (r: Result<
        Arc<Expr>,
        KernelError,
    >)
        requires
            old(self).wf(),
        ensures
            final(self).wf(),
            final(self).extends(*old(self)),
            r matches Ok(x) ==> x@ is FVar,
            r is Err <==> old(self).st.fvar_gen.next() == u64::MAX,
            r matches Err(e) ==> e is DeepRecursion && final(self).locals() == old(self).locals(),
            r matches Ok(x) ==> {
                &&& x@ == SExpr::FVar(fresh_name(old(self).st.fvar_gen.next()))
                &&& final(self).locals().drop_last() == old(self).locals()
                &&& final(self).locals().last().id@ == fresh_name(old(self).st.fvar_gen.next())
                &&& final(self).locals().last().binder_name == *name
                &&& final(self).locals().last().ty == ty
                &&& final(self).locals().last().binder_info == bi
                &&& final(self).locals().last().value is None
                &&& final(self).st.fvar_gen.next() == old(self).st.fvar_gen.next() + 1
                &&& final(self).locals().len() == old(self).locals().len() + 1
            },
    {
        if self.st.fvar_gen.next_index() == u64::MAX {
            return Err(KernelError::DeepRecursion);
        }
        let ghost before = self.st.lctx.decls();
        let r = self.st.lctx.mk_local_decl(&mut self.st.fvar_gen, share(name), ty, bi);
        proof {
            assert forall|i: int| 0 <= i < before.len() implies #[trigger] self.st.lctx.decls()[i]
                == before[i] by {
                assert(self.st.lctx.decls().drop_last()[i] == before[i]);
            }
        }
        Ok(r)
    }

    /// A fresh `let`-bound local of type `ty` and value `value`.
    fn fresh_let(&mut self, name: &Arc<Name>, ty: Arc<Expr>, value: Arc<Expr>) -> (r: Result<
        Arc<Expr>,
        KernelError,
    >)
        requires
            old(self).wf(),
        ensures
            final(self).wf(),
            final(self).extends(*old(self)),
            r matches Ok(x) ==> x@ is FVar,
            r is Err <==> old(self).st.fvar_gen.next() == u64::MAX,
            r matches Err(e) ==> e is DeepRecursion && final(self).locals() == old(self).locals(),
            r matches Ok(x) ==> {
                &&& x@ == SExpr::FVar(fresh_name(old(self).st.fvar_gen.next()))
                &&& final(self).locals().drop_last() == old(self).locals()
                &&& final(self).locals().last().id@ == fresh_name(old(self).st.fvar_gen.next())
                &&& final(self).locals().last().binder_name == *name
                &&& final(self).locals().last().ty == ty
                &&& final(self).locals().last().binder_info == BinderInfo::Default
                &&& final(self).locals().last().value == Some(value)
            },
    {
        if self.st.fvar_gen.next_index() == u64::MAX {
            return Err(KernelError::DeepRecursion);
        }
        let ghost before = self.st.lctx.decls();
        let r = self.st.lctx.mk_let_decl(&mut self.st.fvar_gen, share(name), ty, value);
        proof {
            assert forall|i: int| 0 <= i < before.len() implies #[trigger] self.st.lctx.decls()[i]
                == before[i] by {
                assert(self.st.lctx.decls().drop_last()[i] == before[i]);
            }
        }
        Ok(r)
    }

    /// Drops the locals made after the checkpoint `saved`.
    fn restore_locals(&mut self, saved: usize, Ghost(start): Ghost<TypeChecker<'e>>)
        requires
            old(self).wf(),
            old(self).extends(start),
            saved == start.st.lctx.decls().len(),
        ensures
            final(self).wf(),
            final(self).keeps(start),
    {
        self.st.lctx.restore(saved);
        proof {
            assert(self.st.lctx.decls() =~= start.st.lctx.decls());
        }
    }

    // -----------------------------------------------------------------
    // Weak head normalization.
    // -----------------------------------------------------------------

    /// Whether `e` is a free variable declared with a value.
    fn is_let_fvar(&self, e: &Arc<Expr>) -> (r: bool)
        ensures
            r == (e@ matches SExpr::FVar(id) && find_decl(self.locals(), id) matches Some(d)
                && d.value is Some),
    {
        match e.node() {
            ExprNode::FVar { id } => match self.st.lctx.get(id) {
                Some(d) => d.value.is_some(),
                None => false,
            },
            _ => false,
        }
    }

    /// The weak head normal form of `e`: `whnf_core`, then `Nat`
    /// literal arithmetic, then one definition unfolded, again and again.
    /// A weak head normal form carries no `let`, metadata or applied
    /// lambda at its head; a sort, binder type, literal, variable or
    /// metavariable is its own.
    pub fn whnf(&mut self, e: &Arc<Expr>) -> (r: Result<Arc<Expr>, KernelError>)
        requires
            old(self).wf(),
        ensures
            final(self).wf(),
            final(self).keeps(*old(self)),
            final(self).env() == old(self).env(),
            final(self).depth() == old(self).depth(),
            final(self).locals() == old(self).locals(),
            r matches Ok(x) ==> whnf_core_shape(x@),
            old(self).depth() < MAX_REC_DEPTH && whnf_leaf(e@) ==> (r matches Ok(x) && x@ == e@),
            old(self).depth() + 1 < MAX_REC_DEPTH && stuck(old(self).env(), old(self).quot_init(), e@)
                ==> (r matches Ok(x) && x@ == e@),
            stuck(old(self).env(), old(self).quot_init(), e@) ==> (r matches Ok(x) ==> x@ == e@),
            whnf_leaf(e@) ==> (r matches Ok(x) ==> x@ == e@),
            e@ is Sort ==> (r is Ok ==> final(self).eqs() == old(self).eqs()),
            proj_settles(old(self).env(), old(self).quot_init(), e@) ==> (r matches Ok(x) ==> Some(x@)
                == proj_reduct(old(self).env(), old(self).quot_init(), e@)),
            quot_target(old(self).env(), old(self).quot_init(), e@) matches Some(y) ==> (r matches Ok(x) ==> x@ == y) && (old(self).depth() + 3 < MAX_REC_DEPTH ==> r is Ok),
            delta_target(old(self).env(), old(self).quot_init(), e@) matches Some(y) ==> (r matches Ok(x)
                ==> x@ == y) && (old(self).depth() + 2 < MAX_REC_DEPTH ==> r is Ok),
        decreases old(self).budget(), 0nat,
    {
        if self.frames.current_depth() >= MAX_REC_DEPTH {
            return Err(KernelError::DeepRecursion);
        }
        let ghost d = self.frames.depth();
        let mut st = CheckerState::new();
        std::mem::swap(&mut self.st, &mut st);
        let env = self.env;
        let names = share(&self.names);
        let e2 = share(e);
        let run = move |g2: RecGuard| -> (r: Result<
            (CheckerState, Result<Arc<Expr>, KernelError>),
            KernelError,
        >)
            requires
                d < MAX_REC_DEPTH,
                g2.depth() == d + 1,
                st_wf(st, env.constants(), env.quot_init()),
                names.wf(),
            ensures
                r matches Ok(p) && st_wf(p.0, env.constants(), env.quot_init()) && st_keeps(p.0, st) && (p.1 matches Ok(
                    x,
                ) ==> whnf_core_shape(x@)) && (whnf_leaf(e2@) ==> (p.1 matches Ok(x) && x@ == e2@))
                    && (d + 1 < MAX_REC_DEPTH && stuck(env.constants(), env.quot_init(), e2@) ==> (p.1 matches Ok(
                    x,
                ) && x@ == e2@)) && (stuck(env.constants(), env.quot_init(), e2@) ==> (p.1 matches Ok(x)
                    ==> x@ == e2@)) && (quot_target(env.constants(), env.quot_init(), e2@) matches Some(y) ==> (p.1 matches Ok(x) ==> x@ == y)
                    && (d + 3 < MAX_REC_DEPTH ==> p.1 is Ok)) && (delta_target(
                    env.constants(),
                    env.quot_init(),
                    e2@,
                ) matches Some(y) ==> (p.1 matches Ok(x) ==> x@ == y) && (d + 2 < MAX_REC_DEPTH ==> p.1 is Ok))
                    && (e2@ is Sort ==> (p.1 is Ok ==> p.0.eqv_cache.equations()
                    == st.eqv_cache.equations())) && (proj_settles(env.constants(), env.quot_init(), e2@) ==> (p.1 matches Ok(x)
                    ==> Some(x@) == proj_reduct(env.constants(), env.quot_init(), e2@))),
            {
                let mut tc = TypeChecker { env, frames: g2, st, names };
                let res = tc.whnf_frame(&e2);
                Ok((tc.st, res))
            };
        let (back, res) = match self.frames.enter(run) {
            Ok(p) => p,
            Err(err) => {
                proof {
                    assert(false);
                }
                return Err(err);
            },
        };
        self.st = back;
        res
    }

    fn whnf_frame(&mut self, e: &Arc<Expr>) -> (r: Result<Arc<Expr>, KernelError>)
        requires
            old(self).wf(),
        ensures
            final(self).wf(),
            final(self).keeps(*old(self)),
            r matches Ok(x) ==> whnf_core_shape(x@),
            whnf_leaf(e@) ==> (r matches Ok(x) && x@ == e@),
            old(self).depth() < MAX_REC_DEPTH && stuck(old(self).env(), old(self).env.quot_init(), e@)
                ==> (r matches Ok(x) && x@ == e@),
            stuck(old(self).env(), old(self).env.quot_init(), e@) ==> (r matches Ok(x) ==> x@ == e@),
            quot_target(old(self).env(), old(self).env.quot_init(), e@) matches Some(y) ==> (r matches Ok(x) ==> x@ == y) && (old(self).depth() + 2 < MAX_REC_DEPTH ==> r is Ok),
            delta_target(old(self).env(), old(self).env.quot_init(), e@) matches Some(y) ==> (r matches Ok(
                x,
            ) ==> x@ == y) && (old(self).depth() + 1 < MAX_REC_DEPTH ==> r is Ok),
            e@ is Sort ==> (r is Ok ==> final(self).eqs() == old(self).eqs()),
            proj_settles(old(self).env(), old(self).env.quot_init(), e@) ==> (r matches Ok(x) ==> Some(x@)
                == proj_reduct(old(self).env(), old(self).env.quot_init(), e@)),
        decreases old(self).budget(), 3nat,
    {
        let ghost st_e = stuck(self.env.constants(), self.env.quot_init(), e@) && self.frames.depth()
            < MAX_REC_DEPTH;
        let ghost qs = quot_target(self.env.constants(), self.env.quot_init(), e@) is Some;
        let ghost pr = proj_settles(self.env.constants(), self.env.quot_init(), e@);
        match e.node() {
            ExprNode::BVar { .. }
            | ExprNode::Sort { .. }
            | ExprNode::MVar { .. }
            | ExprNode::ForallE { .. }
            | ExprNode::Lit(_) => {
                return Ok(share(e));
            },
            ExprNode::MData { expr, .. } => {
                let inner = share(expr);
                return self.whnf(&inner);
            },
            ExprNode::FVar { .. } => {
                if !self.is_let_fvar(e) {
                    return Ok(share(e));
                }
            },
            _ => {},
        }
        if let Some(r) = self.st.whnf_cache.get(e) {
            return Ok(r);
        }
        let mut t = share(e);
        let mut fuel: u64 = u64::MAX;
        loop
            invariant
                self.wf(),
                self.keeps(*old(self)),
                !whnf_leaf(e@),
                st_e == (stuck(old(self).env.constants(), old(self).env.quot_init(), e@)
                    && old(self).frames.depth() < MAX_REC_DEPTH),
                st_e ==> t@ == e@ && fuel == u64::MAX,
                qs == quot_target(old(self).env.constants(), old(self).env.quot_init(), e@) is Some,
                delta_target(old(self).env.constants(), old(self).env.quot_init(), e@) matches Some(y)
                    ==> (t@ == e@ && fuel == u64::MAX) || (t@ == y && fuel == u64::MAX - 1),
                qs ==> t@ == e@ && fuel == u64::MAX,
                stuck(old(self).env.constants(), old(self).env.quot_init(), e@) ==> t@ == e@ && fuel
                    == u64::MAX,
                pr == proj_settles(old(self).env.constants(), old(self).env.quot_init(), e@),
                pr ==> t@ == e@ && fuel == u64::MAX,
            decreases fuel,
        {
            if fuel == 0 {
                return Err(KernelError::DeepRecursion);
            }
            fuel = fuel - 1;
            let t1 = self.whnf_core(&t, false, false)?;
            match self.reduce_nat(&t1)? {
                Some(v) => {
                    self.st.whnf_cache.insert(e, &v);
                    return Ok(v);
                },
                None => {},
            }
            match self.unfold_definition(&t1)? {
                Some(next) => {
                    t = next;
                },
                None => {
                    self.st.whnf_cache.insert(e, &t1);
                    return Ok(t1);
                },
            }
        }
    }

    /// Beta, zeta (of `let`s and `let`-bound locals) and projection
    /// reduction at the head, with iota and quotient reduction of
    /// recursor applications; no definition is unfolded. `cheap_rec`
    /// reduces recursor majors, and `cheap_proj` projected structures,
    /// without unfolding either.
    fn whnf_core(&mut self, e: &Arc<Expr>, cheap_rec: bool, cheap_proj: bool) -> (r: Result<
        Arc<Expr>,
        KernelError,
    >)
        requires
            old(self).wf(),
        ensures
            final(self).wf(),
            final(self).keeps(*old(self)),
            r matches Ok(x) ==> whnf_core_shape(x@),
            old(self).depth() < MAX_REC_DEPTH && whnf_core_leaf(e@) ==> (r matches Ok(x) && x@ == e@),
            old(self).depth() < MAX_REC_DEPTH && stuck_core(old(self).env(), old(self).env.quot_init(), e@)
                ==> (r matches Ok(x) && x@ == e@),
            r is Ok ==> old(self).depth() < MAX_REC_DEPTH,
            stuck_core(old(self).env(), old(self).env.quot_init(), e@) ==> (r matches Ok(x) ==> x@ == e@),
            quot_target(old(self).env(), old(self).env.quot_init(), e@) matches Some(y) ==> (r matches Ok(x) ==> x@ == y) && (old(self).depth() + 2 < MAX_REC_DEPTH ==> r is Ok),
            e@ is Const ==> (r is Ok ==> final(self).eqs() == old(self).eqs()),
            whnf_core_leaf(e@) ==> (r matches Ok(x) ==> x@ == e@),
            proj_settles_core(old(self).env(), old(self).env.quot_init(), e@) ==> (r matches Ok(x)
                ==> Some(x@) == proj_reduct(old(self).env(), old(self).env.quot_init(), e@)),
        decreases old(self).budget(), 0nat,
    {
        if self.frames.current_depth() >= MAX_REC_DEPTH {
            return Err(KernelError::DeepRecursion);
        }
        let ghost d = self.frames.depth();
        let mut st = CheckerState::new();
        std::mem::swap(&mut self.st, &mut st);
        let env = self.env;
        let names = share(&self.names);
        let e2 = share(e);
        let run = move |g2: RecGuard| -> (r: Result<
            (CheckerState, Result<Arc<Expr>, KernelError>),
            KernelError,
        >)
            requires
                d < MAX_REC_DEPTH,
                g2.depth() == d + 1,
                st_wf(st, env.constants(), env.quot_init()),
                names.wf(),
            ensures
                r matches Ok(p) && st_wf(p.0, env.constants(), env.quot_init()) && st_keeps(p.0, st) && (p.1 matches Ok(
                    x,
                ) ==> whnf_core_shape(x@)) && (whnf_core_leaf(e2@) ==> (p.1 matches Ok(x) && x@
                    == e2@)) && (stuck_core(env.constants(), env.quot_init(), e2@) ==> (p.1 matches Ok(x)
                    && x@ == e2@)) && (quot_target(env.constants(), env.quot_init(), e2@) matches Some(y) ==> (p.1 matches Ok(x) ==> x@ == y)
                    && (d + 2 < MAX_REC_DEPTH ==> p.1 is Ok)) && (e2@ is Const ==> (p.1 is Ok
                    ==> p.0.eqv_cache.equations() == st.eqv_cache.equations())) && (proj_settles_core(
                    env.constants(),
                    env.quot_init(),
                    e2@,
                ) ==> (p.1 matches Ok(x) ==> Some(x@) == proj_reduct(env.constants(), env.quot_init(), e2@))),
            {
                let mut tc = TypeChecker { env, frames: g2, st, names };
                let res = tc.whnf_core_frame(&e2, cheap_rec, cheap_proj);
                Ok((tc.st, res))
            };
        let (back, res) = match self.frames.enter(run) {
            Ok(p) => p,
            Err(err) => {
                proof {
                    assert(false);
                }
                return Err(err);
            },
        };
        self.st = back;
        res
    }

    fn whnf_core_frame(&mut self, e: &Arc<Expr>, cheap_rec: bool, cheap_proj: bool) -> (r: Result<
        Arc<Expr>,
        KernelError,
    >)
        requires
            old(self).wf(),
        ensures
            final(self).wf(),
            final(self).keeps(*old(self)),
            r matches Ok(x) ==> whnf_core_shape(x@),
            whnf_core_leaf(e@) ==> (r matches Ok(x) && x@ == e@),
            stuck_core(old(self).env(), old(self).env.quot_init(), e@) ==> (r matches Ok(x) && x@ == e@),
            quot_target(old(self).env(), old(self).env.quot_init(), e@) matches Some(y) ==> (r matches Ok(x) ==> x@ == y) && (old(self).depth() + 1 < MAX_REC_DEPTH ==> r is Ok),
            e@ is Const ==> (r is Ok ==> final(self).eqs() == old(self).eqs()),
            proj_settles_core(old(self).env(), old(self).env.quot_init(), e@) ==> (r matches Ok(x)
                ==> Some(x@) == proj_reduct(old(self).env(), old(self).env.quot_init(), e@)),
        decreases old(self).budget(), 5nat,
    {
        match e.node() {
            ExprNode::BVar { .. }
            | ExprNode::Sort { .. }
            | ExprNode::MVar { .. }
            | ExprNode::ForallE { .. }
            | ExprNode::Const { .. }
            | ExprNode::Lam { .. }
            | ExprNode::Lit(_) => {
                return Ok(share(e));
            },
            ExprNode::MData { expr, .. } => {
                let inner = share(expr);
                return self.whnf_core(&inner, cheap_rec, cheap_proj);
            },
            ExprNode::FVar { .. } => {
                if !self.is_let_fvar(e) {
                    return Ok(share(e));
                }
            },
            _ => {},
        }
        if let Some(r) = self.st.whnf_core_cache.get(e) {
            return Ok(r);
        }
        let r = match e.node() {
            ExprNode::FVar { .. } => {
                return self.whnf_fvar(e, cheap_rec, cheap_proj);
            },
            ExprNode::Proj { .. } => match self.reduce_proj(e, cheap_rec, cheap_proj)? {
                Some(m) => self.whnf_core(&m, cheap_rec, cheap_proj)?,
                None => share(e),
            },
            ExprNode::App { .. } => {
                let args = Expr::get_app_args(e);
                let f0 = share(Expr::get_app_fn(e));
                let (f, unchanged) = if f0.is_const() {
                    (share(&f0), true)
                } else {
                    let f = self.whnf_core(&f0, cheap_rec, cheap_proj)?;
                    let u = same_node(&f, &f0);
                    (f, u)
                };
                if f.is_lambda() {
                    // Peel as many lambdas as there are arguments, then
                    // substitute the consumed arguments at once.
                    let num_args = args.len();
                    proof {
                        assert(exprs_view(args@).len() == args@.len());
                        assert(app_args(e@).len() > 0);
                    }
                    let mut m: usize = 1;
                    let mut cur = share(&f);
                    loop
                        invariant
                            cur@ is Lam,
                            1 <= m <= num_args,
                            num_args == args@.len(),
                        decreases num_args - m,
                    {
                        let deeper = match cur.node() {
                            ExprNode::Lam { body, .. } => {
                                if body.is_lambda() && m < num_args {
                                    share(body)
                                } else {
                                    break ;
                                }
                            },
                            _ => {
                                break ;
                            },
                        };
                        cur = deeper;
                        m = m + 1;
                    }
                    let body = match cur.node() {
                        ExprNode::Lam { body, .. } => share(body),
                        _ => {
                            return Ok(share(e));
                        },
                    };
                    let consumed = vstd::slice::slice_subrange(args.as_slice(), 0, m);
                    let rest = vstd::slice::slice_subrange(args.as_slice(), m, num_args);
                    let inst = instantiate_rev(&body, consumed, &mut self.st.guard)?;
                    let applied = Expr::mk_app_spine(inst, rest);
                    self.whnf_core(&applied, cheap_rec, cheap_proj)?
                } else if unchanged {
                    match self.reduce_recursor(e, cheap_rec, cheap_proj)? {
                        Some(r) => {
                            return self.whnf_core(&r, cheap_rec, cheap_proj);
                        },
                        None => {
                            return Ok(share(e));
                        },
                    }
                } else {
                    let applied = Expr::mk_app_spine(f, args.as_slice());
                    self.whnf_core(&applied, cheap_rec, cheap_proj)?
                }
            },
            ExprNode::LetE { value, body, .. } => {
                let inst = instantiate(body, value, &mut self.st.guard)?;
                self.whnf_core(&inst, cheap_rec, cheap_proj)?
            },
            _ => {
                return Ok(share(e));
            },
        };
        if !cheap_rec && !cheap_proj {
            self.st.whnf_core_cache.insert(e, &r);
        }
        Ok(r)
    }

    /// Zeta for a `let`-bound local: `whnf_core` of its value.
    fn whnf_fvar(&mut self, e: &Arc<Expr>, cheap_rec: bool, cheap_proj: bool) -> (r: Result<
        Arc<Expr>,
        KernelError,
    >)
        requires
            old(self).wf(),
            e@ is FVar,
        ensures
            final(self).wf(),
            final(self).keeps(*old(self)),
            r matches Ok(x) ==> whnf_core_shape(x@),
            !(e@ matches SExpr::FVar(id) && find_decl(old(self).locals(), id) matches Some(d)
                && d.value is Some) ==> r == Ok::<Arc<Expr>, KernelError>(*e),
        decreases old(self).budget(), 1nat,
    {
        let val = match e.node() {
            ExprNode::FVar { id } => match self.st.lctx.get(id) {
                Some(d) => match &d.value {
                    Some(v) => Some(share(v)),
                    None => None,
                },
                None => None,
            },
            _ => None,
        };
        match val {
            Some(v) => self.whnf_core(&v, cheap_rec, cheap_proj),
            None => Ok(share(e)),
        }
    }

    /// The field `idx` of the projected structure, once reduced to a
    /// constructor application.
    fn reduce_proj(&mut self, e: &Arc<Expr>, cheap_rec: bool, cheap_proj: bool) -> (r: Result<
        Option<Arc<Expr>>,
        KernelError,
    >)
        requires
            old(self).wf(),
        ensures
            final(self).wf(),
            final(self).keeps(*old(self)),
            !(e@ is Proj) ==> r == Ok::<Option<Arc<Expr>>, KernelError>(None),
            e@ is Proj && e@->Proj_1 <= usize::MAX && stuck(
                old(self).env(),
                old(self).quot_init(),
                *e@->Proj_2,
            ) && !(*e@->Proj_2 is Lit) ==> (r matches Ok(o) ==> match ctor_field(
                old(self).env(),
                *e@->Proj_2,
                e@->Proj_1,
            ) {
                Some(f) => o matches Some(x) && x@ == f,
                None => o is None,
            }),
        decreases old(self).budget(), 2nat,
    {
        let (idx, structure) = match e.node() {
            ExprNode::Proj { idx, structure, .. } => (idx, share(structure)),
            _ => {
                return Ok(None);
            },
        };
        let idxv = match idx.to_usize() {
            Some(v) => v,
            None => {
                return Ok(None);
            },
        };
        let c = if cheap_proj {
            self.whnf_core(&structure, cheap_rec, cheap_proj)?
        } else {
            self.whnf(&structure)?
        };
        self.reduce_proj_core(&c, idxv)
    }

    /// Field `idx` of the constructor application `c` (a string literal
    /// is first put in constructor form), past the constructor's
    /// parameters.
    fn reduce_proj_core(&mut self, c: &Arc<Expr>, idx: usize) -> (r: Result<
        Option<Arc<Expr>>,
        KernelError,
    >)
        requires
            old(self).wf(),
        ensures
            final(self).wf(),
            final(self).keeps(*old(self)),
            !(c@ is Lit) ==> (r matches Ok(o) ==> match ctor_field(old(self).env(), c@, idx as nat) {
                Some(f) => o matches Some(x) && x@ == f,
                None => o is None,
            }),
            !(c@ is Lit) && (app_fn(c@) matches SExpr::Const(n, _) ==> lookup(old(self).env(), n) is Some)
                ==> r is Ok,
        decreases old(self).budget(), 1nat,
    {
        let c = match c.node() {
            ExprNode::Lit(Literal::StrVal(s)) => {
                let ctor = string_lit_to_constructor(s.as_str(), &mut self.st.guard)?;
                self.whnf(&ctor)?
            },
            _ => share(c),
        };
        let args = Expr::get_app_args(&c);
        let nargs = args.len();
        proof {
            assert(exprs_view(args@).len() == args@.len());
            assert(app_args(c@).len() == nargs);
        }
        let mk = Expr::get_app_fn(&c);
        let name = match mk.node() {
            ExprNode::Const { name, .. } => name,
            _ => {
                return Ok(None);
            },
        };
        let env = self.env;
        let mk_info = env.get_with(name)?;
        let nparams = match mk_info {
            ConstantInfo::Ctor(v) => match v.num_params.to_usize() {
                Some(n) => n,
                None => {
                    return Ok(None);
                },
            },
            _ => {
                return Ok(None);
            },
        };
        proof {
            assert(exprs_view(args@).len() == args@.len());
        }
        if nparams < args.len() && idx < args.len() - nparams {
            proof {
                assert(exprs_view(args@)[nparams + idx] == args@[nparams + idx]@);
            }
            Ok(Some(share(&args[nparams + idx])))
        } else {
            Ok(None)
        }
    }

    /// The definition to unfold at the head of `e`: a constant with a
    /// value, applied to as many universe levels as it has parameters.
    fn is_delta(&self, e: &Arc<Expr>) -> (r: Option<&'e ConstantInfo>)
        ensures
            match delta_info(self.env.constants(), e@) {
                Some(c) => r matches Some(x) && *x == c,
                None => r is None,
            },
    {
        let f = Expr::get_app_fn(e);
        match f.node() {
            ExprNode::Const { name, levels } => {
                let env = self.env;
                match env.get(name) {
                    Some(info) => {
                        if info_has_value(info) && info.constant_val().level_params.len()
                            == levels.len() {
                            Some(info)
                        } else {
                            None
                        }
                    },
                    None => None,
                }
            },
            _ => None,
        }
    }

    /// The value of the constant `e` at its universe levels, when it has
    /// one; polymorphic unfoldings are memoized so that a repeated unfold
    /// gives the same node.
    fn unfold_definition_core(&mut self, e: &Arc<Expr>) -> (r: Result<
        Option<Arc<Expr>>,
        KernelError,
    >)
        requires
            old(self).wf(),
        ensures
            final(self).wf(),
            final(self).keeps(*old(self)),
            !(e@ is Const && delta_info(old(self).env.constants(), e@) is Some) ==> r == Ok::<
                Option<Arc<Expr>>,
                KernelError,
            >(None),
            delta_value(old(self).env.constants(), e@) matches Some(v) ==> (r matches Ok(Some(x)) && x@
                == v),
    {
        let (name, levels) = match e.node() {
            ExprNode::Const { name, levels } => (name, levels),
            _ => {
                return Ok(None);
            },
        };
        let env = self.env;
        let info = match env.get(name) {
            Some(info) => info,
            None => {
                return Ok(None);
            },
        };
        if !info_has_value(info) || info.constant_val().level_params.len() != levels.len() {
            return Ok(None);
        }
        if levels.len() > 0 {
            if let Some(r) = self.st.unfold_memo.get(e) {
                return Ok(Some(r));
            }
        }
        let value = match info_value(info) {
            Some(v) => v,
            None => {
                return Ok(None);
            },
        };
        proof {
            if delta_value(self.env.constants(), e@) is Some {
                assert(levels_view(levels@) =~= Seq::<SLevel>::empty());
                crate::subst::law_lparams_without_params(
                    value@,
                    names_view(info.spec_constant_val().level_params@),
                    levels_view(levels@),
                );
            }
        }
        let result = instantiate_level_params(
            value,
            info.constant_val().level_params.as_slice(),
            levels.as_slice(),
            &mut self.st.guard,
        )?;
        if levels.len() > 0 {
            self.st.unfold_memo.insert(e, &result);
        }
        Ok(Some(result))
    }

    /// One definition unfolded at the head of `e`, re-applied to the
    /// arguments.
    fn unfold_definition(&mut self, e: &Arc<Expr>) -> (r: Result<Option<Arc<Expr>>, KernelError>)
        requires
            old(self).wf(),
        ensures
            final(self).wf(),
            final(self).keeps(*old(self)),
            delta_info(old(self).env.constants(), e@) is None ==> r == Ok::<
                Option<Arc<Expr>>,
                KernelError,
            >(None),
            delta_value(old(self).env.constants(), e@) matches Some(v) ==> (r matches Ok(Some(x)) && x@
                == v),
    {
        if e.is_app() {
            let f0 = share(Expr::get_app_fn(e));
            proof {
                crate::expr::lemma_app_fn_idem(e@);
            }
            match self.unfold_definition_core(&f0)? {
                Some(f) => {
                    let args = Expr::get_app_args(e);
                    Ok(Some(Expr::mk_app_spine(f, args.as_slice())))
                },
                None => Ok(None),
            }
        } else {
            self.unfold_definition_core(e)
        }
    }

    /// Full `whnf`, or `whnf_core` when `cheap_rec`.
    fn rec_whnf(&mut self, e: &Arc<Expr>, cheap_rec: bool, cheap_proj: bool) -> (r: Result<
        Arc<Expr>,
        KernelError,
    >)
        requires
            old(self).wf(),
        ensures
            final(self).wf(),
            final(self).keeps(*old(self)),
            r matches Ok(x) ==> whnf_core_shape(x@),
        decreases old(self).budget(), 1nat,
    {
        if cheap_rec {
            self.whnf_core(e, cheap_rec, cheap_proj)
        } else {
            self.whnf(e)
        }
    }

    /// Quotient reduction (when the quotient is initialized), then iota
    /// reduction of a recursor application.
    fn reduce_recursor(&mut self, e: &Arc<Expr>, cheap_rec: bool, cheap_proj: bool) -> (r: Result<
        Option<Arc<Expr>>,
        KernelError,
    >)
        requires
            old(self).wf(),
        ensures
            final(self).wf(),
            final(self).keeps(*old(self)),
            !old(self).env.quot_init() && !rec_head(old(self).env.constants(), e@) ==> r == Ok::<
                Option<Arc<Expr>>,
                KernelError,
            >(None),
            !(old(self).env.quot_init() && crate::quot_red::quot_major(e@) is Some) && !rec_head(
                old(self).env.constants(),
                e@,
            ) ==> r == Ok::<Option<Arc<Expr>>, KernelError>(None),
            quot_step(old(self).env.constants(), old(self).env.quot_init(), e@) matches Some(y) ==> (
            r matches Ok(o) ==> o matches Some(x) && x@ == y) && (old(self).depth() + 1 < MAX_REC_DEPTH
                ==> r is Ok),
        decreases old(self).budget(), 4nat,
    {
        if self.env.quot_initialized() {
            if let Some((mk_pos, _)) = quot_major_positions(e) {
                let args = Expr::get_app_args(e);
                proof {
                    assert(args@[mk_pos as int]@ == exprs_view(args@)[mk_pos as int]);
                }
                let mk = self.whnf(&args[mk_pos])?;
                let r = quot_reduce_with(e, &mk);
                if r.is_some() {
                    return Ok(r);
                }
            }
        }
        self.inductive_reduce_rec(e, cheap_rec, cheap_proj)
    }

    /// Iota reduction: the major premise of a recursor application
    /// reduced to a constructor application (K-recursor majors and
    /// literals first put in constructor form, structures eta-expanded),
    /// the matching rule's right-hand side applied to the parameters,
    /// motives and minor premises, then to the constructor's fields, then
    /// to any arguments past the major premise.
    fn inductive_reduce_rec(&mut self, e: &Arc<Expr>, cheap_rec: bool, cheap_proj: bool) -> (r: Result<
        Option<Arc<Expr>>,
        KernelError,
    >)
        requires
            old(self).wf(),
        ensures
            final(self).wf(),
            final(self).keeps(*old(self)),
            !rec_head(old(self).env.constants(), e@) ==> r == Ok::<Option<Arc<Expr>>, KernelError>(None),
        decreases old(self).budget(), 3nat,
    {
        let rec_fn = Expr::get_app_fn(e);
        let rec_name = match rec_fn.node() {
            ExprNode::Const { name, .. } => name,
            _ => {
                return Ok(None);
            },
        };
        let env = self.env;
        let rec_val = match env.get(rec_name) {
            Some(ConstantInfo::Rec(v)) => v,
            _ => {
                return Ok(None);
            },
        };
        let nparams = match rec_val.num_params.to_usize() {
            Some(v) => v,
            None => {
                return Ok(None);
            },
        };
        let nmotives = match rec_val.num_motives.to_usize() {
            Some(v) => v,
            None => {
                return Ok(None);
            },
        };
        let nminors = match rec_val.num_minors.to_usize() {
            Some(v) => v,
            None => {
                return Ok(None);
            },
        };
        let nindices = match rec_val.num_indices.to_usize() {
            Some(v) => v,
            None => {
                return Ok(None);
            },
        };
        let pmm = match nparams.checked_add(nmotives) {
            Some(a) => match a.checked_add(nminors) {
                Some(b) => b,
                None => {
                    return Ok(None);
                },
            },
            None => {
                return Ok(None);
            },
        };
        let major_idx = match pmm.checked_add(nindices) {
            Some(v) => v,
            None => {
                return Ok(None);
            },
        };
        let rec_args = Expr::get_app_args(e);
        if major_idx >= rec_args.len() {
            return Ok(None);
        }
        let major_induct = match get_major_induct(&rec_val.val.ty, major_idx) {
            Some(n) => n,
            None => {
                return Ok(None);
            },
        };
        let mut major = share(&rec_args[major_idx]);
        if rec_val.k {
            major = self.to_cnstr_when_k(&major_induct, nparams, &major, cheap_rec, cheap_proj)?;
        }
        major = self.rec_whnf(&major, cheap_rec, cheap_proj)?;
        major = match major.node() {
            ExprNode::Lit(Literal::NatVal(_)) => nat_lit_to_constructor(
                &major,
                &self.names.nat_zero,
                &self.names.nat_succ,
                &mut self.st.guard,
            )?,
            ExprNode::Lit(Literal::StrVal(s)) => {
                let c = string_lit_to_constructor(s.as_str(), &mut self.st.guard)?;
                self.rec_whnf(&c, cheap_rec, cheap_proj)?
            },
            _ => self.to_cnstr_when_structure(&major_induct, &major, cheap_rec, cheap_proj)?,
        };
        let rule = match get_rec_rule_for(rec_val.rules.as_slice(), &major) {
            Some(r) => r,
            None => {
                return Ok(None);
            },
        };
        let major_args = Expr::get_app_args(&major);
        let nfields = match rule.nfields.to_usize() {
            Some(v) => v,
            None => {
                return Ok(None);
            },
        };
        if nfields > major_args.len() {
            return Ok(None);
        }
        let rec_levels = const_levels_of_head(e);
        if rec_levels.len() != rec_val.val.level_params.len() {
            return Ok(None);
        }
        let mut rhs = instantiate_level_params(
            &rule.rhs,
            rec_val.val.level_params.as_slice(),
            rec_levels.as_slice(),
            &mut self.st.guard,
        )?;
        rhs = Expr::mk_app_spine(rhs, vstd::slice::slice_subrange(rec_args.as_slice(), 0, pmm));
        let nctor_params = major_args.len() - nfields;
        rhs = Expr::mk_app_spine(
            rhs,
            vstd::slice::slice_subrange(major_args.as_slice(), nctor_params, major_args.len()),
        );
        if rec_args.len() > major_idx + 1 {
            rhs = Expr::mk_app_spine(
                rhs,
                vstd::slice::slice_subrange(rec_args.as_slice(), major_idx + 1, rec_args.len()),
            );
        }
        Ok(Some(rhs))
    }

    /// For a recursor with the K rule: `e` replaced by the unique
    /// constructor of its type (the inductive `major_induct` applied to
    /// its parameters), when the types agree.
    fn to_cnstr_when_k(
        &mut self,
        major_induct: &Arc<Name>,
        nparams: usize,
        e: &Arc<Expr>,
        cheap_rec: bool,
        cheap_proj: bool,
    ) -> (r: Result<Arc<Expr>, KernelError>)
        requires
            old(self).wf(),
        ensures
            final(self).wf(),
            final(self).keeps(*old(self)),
        decreases old(self).budget(), 2nat,
    {
        let it = self.infer_type(e)?;
        let app_type = self.rec_whnf(&it, cheap_rec, cheap_proj)?;
        if !is_const_named(Expr::get_app_fn(&app_type), major_induct) {
            return Ok(share(e));
        }
        if app_type.data().has_expr_mvar() {
            let app_type_args = Expr::get_app_args(&app_type);
            if any_mvar_from(app_type_args.as_slice(), nparams) {
                return Ok(share(e));
            }
        }
        let new_cnstr_app = match self.mk_nullary_cnstr(&app_type, nparams)? {
            Some(c) => c,
            None => {
                return Ok(share(e));
            },
        };
        let new_type = self.infer_type(&new_cnstr_app)?;
        if !self.is_def_eq(&app_type, &new_type)? {
            return Ok(share(e));
        }
        Ok(new_cnstr_app)
    }

    /// The first constructor of `type_`'s inductive, at its universe
    /// levels, applied to the first `num_params` arguments of `type_`.
    fn mk_nullary_cnstr(&mut self, type_: &Arc<Expr>, num_params: usize) -> (r: Result<
        Option<Arc<Expr>>,
        KernelError,
    >)
        requires
            old(self).wf(),
        ensures
            final(self).wf(),
            final(self).keeps(*old(self)),
            r matches Err(e) ==> e is DeepRecursion,
            r matches Ok(x) ==> match app_fn(type_@) {
                SExpr::Const(n, ls) => match lookup(old(self).env.constants(), n) {
                    Some(ConstantInfo::Induct(v)) => if v.ctors@.len() > 0 && num_params <= app_args(
                        type_@,
                    ).len() {
                        x matches Some(c) && c@ == mk_spine(
                            SExpr::Const(v.ctors@[0]@, ls),
                            app_args(type_@).take(num_params as int),
                        )
                    } else {
                        x is None
                    },
                    _ => x is None,
                },
                _ => x is None,
            },
    {
        let args = Expr::get_app_args(type_);
        let d = Expr::get_app_fn(type_);
        let d_name = match d.node() {
            ExprNode::Const { name, .. } => name,
            _ => {
                return Ok(None);
            },
        };
        let cnstr_name = match self.first_cnstr(d_name) {
            Some(c) => c,
            None => {
                return Ok(None);
            },
        };
        if args.len() < num_params {
            return Ok(None);
        }
        let d_levels = const_levels_of_head(type_);
        let cnstr = Expr::const_(cnstr_name, d_levels, &mut self.st.guard)?;
        let sub = vstd::slice::slice_subrange(args.as_slice(), 0, num_params);
        proof {
            assert(exprs_view(sub@) =~= app_args(type_@).take(num_params as int));
        }
        Ok(Some(Expr::mk_app_spine(cnstr, sub)))
    }

    /// For a structure-like inductive `induct_name` (not a proposition):
    /// `e`, when it is no constructor application, eta-expanded into its
    /// constructor applied to its projections.
    fn to_cnstr_when_structure(
        &mut self,
        induct_name: &Arc<Name>,
        e: &Arc<Expr>,
        cheap_rec: bool,
        cheap_proj: bool,
    ) -> (r: Result<Arc<Expr>, KernelError>)
        requires
            old(self).wf(),
        ensures
            final(self).wf(),
            final(self).keeps(*old(self)),
        decreases old(self).budget(), 2nat,
    {
        if !self.env.is_structure_like(induct_name) || is_constructor_app(self.env, e) {
            return Ok(share(e));
        }
        let it = self.infer_type(e)?;
        let e_type = self.rec_whnf(&it, cheap_rec, cheap_proj)?;
        if !is_const_named(Expr::get_app_fn(&e_type), induct_name) {
            return Ok(share(e));
        }
        let et = self.infer_type(&e_type)?;
        let etw = self.rec_whnf(&et, cheap_rec, cheap_proj)?;
        let is_prop = match etw.node() {
            ExprNode::Sort { level } => level.is_zero(),
            _ => false,
        };
        if is_prop {
            return Ok(share(e));
        }
        self.expand_eta_struct(&e_type, e)
    }

    /// `e` as its structure's constructor (at `e_type`'s parameters)
    /// applied to the projections of `e`.
    fn expand_eta_struct(&mut self, e_type: &Arc<Expr>, e: &Arc<Expr>) -> (r: Result<
        Arc<Expr>,
        KernelError,
    >)
        requires
            old(self).wf(),
        ensures
            final(self).wf(),
            final(self).keeps(*old(self)),
    {
        let args = Expr::get_app_args(e_type);
        let i = Expr::get_app_fn(e_type);
        let i_name = match i.node() {
            ExprNode::Const { name, .. } => name,
            _ => {
                return Ok(share(e));
            },
        };
        let ctor_name = match self.first_cnstr(i_name) {
            Some(c) => c,
            None => {
                return Ok(share(e));
            },
        };
        let env = self.env;
        let (nparams, nfields) = match env.get(&ctor_name) {
            Some(ConstantInfo::Ctor(v)) => (v.num_params.to_usize(), v.num_fields.to_usize()),
            _ => {
                return Ok(share(e));
            },
        };
        let (nparams, nfields) = match (nparams, nfields) {
            (Some(p), Some(f)) => (p, f),
            _ => {
                return Ok(share(e));
            },
        };
        if args.len() < nparams {
            return Ok(share(e));
        }
        let i_levels = const_levels_of_head(e_type);
        let ctor = Expr::const_(ctor_name, i_levels, &mut self.st.guard)?;
        let mut result = Expr::mk_app_spine(
            ctor,
            vstd::slice::slice_subrange(args.as_slice(), 0, nparams),
        );
        let mut f: usize = 0;
        while f < nfields
            decreases nfields - f,
        {
            let proj = Expr::proj(share(i_name), Nat::from_u64(f as u64), share(e));
            result = Expr::app(result, proj);
            f = f + 1;
        }
        Ok(result)
    }

    /// The first constructor of the inductive `name`.
    fn first_cnstr(&self, name: &Name) -> (r: Option<Arc<Name>>)
        ensures
            match lookup(self.env.constants(), name@) {
                Some(ConstantInfo::Induct(v)) => if v.ctors@.len() > 0 {
                    r == Some(v.ctors@[0])
                } else {
                    r is None
                },
                _ => r is None,
            },
    {
        match self.env.get(name) {
            Some(ConstantInfo::Induct(v)) => {
                if v.ctors.len() > 0 {
                    Some(share(&v.ctors[0]))
                } else {
                    None
                }
            },
            _ => None,
        }
    }

    /// The number of arguments of `e`, counted up to 3.
    fn few_args(e: &Arc<Expr>) -> (r: usize)
        ensures
            r == (if app_args(e@).len() < 3 {
                app_args(e@).len()
            } else {
                3
            }),
    {
        let mut n: usize = 0;
        let mut cur: &Arc<Expr> = e;
        loop
            invariant
                n <= 3,
                n < 3 ==> app_args(e@).len() == n + app_args(cur@).len(),
                n == 3 ==> app_args(e@).len() >= 3,
            decreases cur@,
        {
            if n == 3 {
                return n;
            }
            match cur.node() {
                ExprNode::App { f, .. } => {
                    n = n + 1;
                    cur = f;
                },
                _ => {
                    return n;
                },
            }
        }
    }

    /// `Bool.true` or `Bool.false`.
    fn bool_const(&self, b: bool) -> (r: Arc<Expr>)
        requires
            self.names.wf(),
        ensures
            r@ is Const,
            r@ == bool_expr(b),
    {
        if b {
            const0(share(&self.names.bool_true), false)
        } else {
            const0(share(&self.names.bool_false), false)
        }
    }

    /// The value of `e`'s weak head normal form, when that is a `Nat`
    /// literal or `Nat.zero`.
    fn get_nat_lit_ext(&mut self, e: &Arc<Expr>) -> (r: Result<Option<Nat>, KernelError>)
        requires
            old(self).wf(),
        ensures
            final(self).wf(),
            final(self).keeps(*old(self)),
            old(self).depth() < MAX_REC_DEPTH ==> (e@ matches SExpr::Lit(SLiteral::NatVal(v)) ==> (
            r matches Ok(Some(n)) && n@ == v)),
        decreases old(self).budget(), 1nat,
    {
        let w = self.whnf(e)?;
        match w.node() {
            ExprNode::Lit(Literal::NatVal(v)) => Ok(Some(v.clone())),
            ExprNode::Const { name, .. } => {
                if name.equal(&self.names.nat_zero) {
                    Ok(Some(Nat::from_u64(0)))
                } else {
                    Ok(None)
                }
            },
            _ => Ok(None),
        }
    }

    /// `Nat.succ n` and the binary `Nat` operations folded on arguments
    /// whose weak head normal forms are literals. `Nat.pow` is folded for
    /// exponents up to `2^24` only, `Nat.shiftLeft` for shifts that fit a
    /// machine word.
    fn reduce_nat(&mut self, e: &Arc<Expr>) -> (r: Result<Option<Arc<Expr>>, KernelError>)
        requires
            old(self).wf(),
        ensures
            final(self).wf(),
            final(self).keeps(*old(self)),
            r matches Ok(Some(x)) ==> x@ is Lit || x@ is Const,
            old(self).depth() < MAX_REC_DEPTH ==> (nat_succ_of_lit(old(self).names.nat_succ@, e@) matches Some(
                v,
            ) ==> (r matches Ok(Some(x)) && x@ == SExpr::Lit(SLiteral::NatVal(v + 1)))),
            app_fn(e@) matches SExpr::Const(n, _) && n != sname2("Nat"@, "succ"@)
                && crate::tc::nat_binop_spec(n) is None ==> r == Ok::<Option<Arc<Expr>>, KernelError>(
                None,
            ),
            app_args(e@).len() == 0 ==> r == Ok::<Option<Arc<Expr>>, KernelError>(None)
                && final(self).eqs() == old(self).eqs(),
            old(self).depth() < MAX_REC_DEPTH ==> (nat_binop_app(e@) matches Some(res) ==> match res {
                Some(x) => r matches Ok(Some(y)) && y@ == x,
                None => r == Ok::<Option<Arc<Expr>>, KernelError>(None),
            }),
        decreases old(self).budget(), 2nat,
    {
        proof {
            reveal_with_fuel(app_args, 2);
        }
        let nargs = Self::few_args(e);
        if nargs == 1 {
            let (f, arg) = match e.node() {
                ExprNode::App { f, arg } => (f, share(arg)),
                _ => {
                    return Ok(None);
                },
            };
            proof {
                reveal_with_fuel(app_fn, 2);
                assert(!(f@ is App));
                assert(app_fn(e@) == f@);
            }
            if is_const_named(f, &self.names.nat_succ) {
                let v = match self.get_nat_lit_ext(&arg)? {
                    Some(v) => v,
                    None => {
                        return Ok(None);
                    },
                };
                return Ok(Some(Expr::lit(Literal::NatVal(v.add(&Nat::from_u64(1))))));
            }
            return Ok(None);
        }
        if nargs != 2 {
            return Ok(None);
        }
        let (ff, a2) = match e.node() {
            ExprNode::App { f, arg } => (f, share(arg)),
            _ => {
                return Ok(None);
            },
        };
        let (head, a1) = match ff.node() {
            ExprNode::App { f, arg } => (f, share(arg)),
            _ => {
                return Ok(None);
            },
        };
        proof {
            reveal_with_fuel(app_fn, 3);
            reveal_with_fuel(app_args, 3);
            assert(!(head@ is App));
            assert(app_fn(e@) == head@);
        }
        let op: &str = match head.node() {
            ExprNode::Const { name, .. } => match nat_binop(name) {
                Some(o) => o,
                None => {
                    return Ok(None);
                },
            },
            _ => {
                return Ok(None);
            },
        };
        let v1 = match self.get_nat_lit_ext(&a1)? {
            Some(v) => v,
            None => {
                return Ok(None);
            },
        };
        let v2 = match self.get_nat_lit_ext(&a2)? {
            Some(v) => v,
            None => {
                return Ok(None);
            },
        };
        let n = if str_is(op, "add") {
            v1.add(&v2)
        } else if str_is(op, "sub") {
            v1.sub(&v2)
        } else if str_is(op, "mul") {
            v1.mul(&v2)
        } else if str_is(op, "gcd") {
            v1.gcd(&v2)
        } else if str_is(op, "mod") {
            v1.modulo(&v2)
        } else if str_is(op, "div") {
            v1.div(&v2)
        } else if str_is(op, "land") {
            v1.land(&v2)
        } else if str_is(op, "lor") {
            v1.lor(&v2)
        } else if str_is(op, "xor") {
            v1.lxor(&v2)
        } else if str_is(op, "pow") {
            match v2.to_usize() {
                Some(exp) => {
                    if exp <= REDUCE_POW_MAX_EXP {
                        v1.pow(exp as u32)
                    } else {
                        return Ok(None);
                    }
                },
                None => {
                    return Ok(None);
                },
            }
        } else if str_is(op, "shiftLeft") {
            match v2.to_usize() {
                Some(k) => v1.shiftl(k),
                None => {
                    return Ok(None);
                },
            }
        } else if str_is(op, "shiftRight") {
            match v2.to_usize() {
                Some(k) => v1.shiftr(k),
                None => v1.shiftr(usize::MAX),
            }
        } else if str_is(op, "beq") {
            return Ok(Some(self.bool_const(v1.beq(&v2))));
        } else if str_is(op, "ble") {
            return Ok(Some(self.bool_const(v1.ble(&v2))));
        } else {
            return Ok(None);
        };
        Ok(Some(Expr::lit(Literal::NatVal(n))))
    }

    // -----------------------------------------------------------------
    // Type inference.
    // -----------------------------------------------------------------

    /// Checks `e` under the universe parameters `lparams`, which stay in
    /// scope afterwards, and gives its type: every binder domain must be
    /// a type, every argument must have its function's domain type, every
    /// `let` value its declared type, and every constant must be used at
    /// defined universe levels and be safe to use here.
    pub fn check(&mut self, e: &Arc<Expr>, lparams: &[Arc<Name>]) -> (r: Result<
        Arc<Expr>,
        KernelError,
    >)
        requires
            old(self).wf(),
        ensures
            final(self).wf(),
            final(self).env() == old(self).env(),
            final(self).quot_init() == old(self).quot_init(),
            final(self).depth() == old(self).depth(),
            final(self).locals() == old(self).locals(),
            r matches Ok(t) ==> inferred_shape(old(self).env(), e@, t@),
            old(self).depth() < MAX_REC_DEPTH && expr_fields(e@).range > 0 ==> r
                == Err::<Arc<Expr>, KernelError>(KernelError::LooseBVar),
            old(self).depth() < MAX_REC_DEPTH && expr_fields(e@).range == 0 && e@ is MVar ==> r
                == Err::<Arc<Expr>, KernelError>(KernelError::MetavarEncountered),
            old(self).depth() < MAX_REC_DEPTH && sort_in_scope(e@, names_view(lparams@)) ==> r is Ok,
            old(self).depth() < MAX_REC_DEPTH && const_in_scope(old(self).env(), e@) ==> (r matches Ok(
                t,
            ) && t@ == const_type(old(self).env(), e@)),
            old(self).depth() < MAX_REC_DEPTH && names_unknown(old(self).env(), e@) ==> unknown_error(
                r,
                e@,
            ),
            e@ is Const || e@ is Sort ==> (r is Ok ==> final(self).eqs() == old(self).eqs()),
        decreases old(self).budget(), 1nat,
    {
        let mut ps: Vec<Arc<Name>> = Vec::new();
        let mut i: usize = 0;
        while i < lparams.len()
            invariant
                i <= lparams@.len(),
                ps@ == lparams@.take(i as int),
            decreases lparams@.len() - i,
        {
            ps.push(share(&lparams[i]));
            i = i + 1;
            proof {
                assert(ps@ =~= lparams@.take(i as int));
            }
        }
        proof {
            assert(ps@ =~= lparams@);
        }
        self.st.lparams = ps;
        self.infer_type_core(e, false)
    }

    /// The type of `e`, trusting that `e` is well typed (nothing is
    /// checked but what inference needs).
    pub fn infer_type(&mut self, e: &Arc<Expr>) -> (r: Result<Arc<Expr>, KernelError>)
        requires
            old(self).wf(),
        ensures
            final(self).wf(),
            final(self).keeps(*old(self)),
            final(self).env() == old(self).env(),
            final(self).depth() == old(self).depth(),
            final(self).locals() == old(self).locals(),
            r matches Ok(t) ==> inferred_shape(old(self).env(), e@, t@),
            old(self).depth() < MAX_REC_DEPTH && expr_fields(e@).range > 0 ==> r
                == Err::<Arc<Expr>, KernelError>(KernelError::LooseBVar),
            old(self).depth() < MAX_REC_DEPTH && expr_fields(e@).range == 0 && e@ is MVar ==> r
                == Err::<Arc<Expr>, KernelError>(KernelError::MetavarEncountered),
            old(self).depth() < MAX_REC_DEPTH && const_in_scope(old(self).env(), e@) ==> (r matches Ok(
                t,
            ) && t@ == const_type(old(self).env(), e@)),
            e@ is Const || e@ is Sort ==> (r is Ok ==> final(self).eqs() == old(self).eqs()),
            old(self).no_cached_types() && e@ is FVar ==> (r matches Ok(t) ==> local_type(
                old(self).locals(),
                e@,
            ) == Some(t@)),
        decreases old(self).budget(), 1nat,
    {
        self.infer_type_core(e, true)
    }

    /// `e` itself when it is a sort, else its weak head normal form when
    /// that is one, else `TypeExpected`.
    pub fn ensure_sort(&mut self, e: &Arc<Expr>) -> (r: Result<Arc<Expr>, KernelError>)
        requires
            old(self).wf(),
        ensures
            final(self).wf(),
            final(self).keeps(*old(self)),
            final(self).env() == old(self).env(),
            final(self).depth() == old(self).depth(),
            final(self).locals() == old(self).locals(),
            r matches Ok(x) ==> x@ is Sort,
            e@ is Sort ==> (r matches Ok(x) && x@ == e@),
            old(self).depth() + 1 < MAX_REC_DEPTH && stuck(old(self).env(), old(self).quot_init(), e@)
                && !(e@ is Sort) ==> r matches Err(KernelError::TypeExpected),
            e@ is Sort ==> final(self).eqs() == old(self).eqs(),
        decreases old(self).budget(), 1nat,
    {
        if e.is_sort() {
            return Ok(share(e));
        }
        let new_e = self.whnf(e)?;
        if new_e.is_sort() {
            Ok(new_e)
        } else {
            Err(KernelError::TypeExpected)
        }
    }

    /// `e` itself when it is a binder type, else its weak head normal
    /// form when that is one, else `FunctionExpected`.
    pub fn ensure_pi(&mut self, e: &Arc<Expr>) -> (r: Result<Arc<Expr>, KernelError>)
        requires
            old(self).wf(),
        ensures
            final(self).wf(),
            final(self).keeps(*old(self)),
            final(self).env() == old(self).env(),
            final(self).depth() == old(self).depth(),
            final(self).locals() == old(self).locals(),
            r matches Ok(x) ==> x@ is ForallE,
            e@ is ForallE ==> (r matches Ok(x) && x@ == e@),
        decreases old(self).budget(), 1nat,
    {
        if e.is_forall() {
            return Ok(share(e));
        }
        let new_e = self.whnf(e)?;
        if new_e.is_forall() {
            Ok(new_e)
        } else {
            Err(KernelError::FunctionExpected)
        }
    }

    /// Whether the type of `e` normalizes to `Prop`, `Sort 0`.
    pub fn is_prop(&mut self, e: &Arc<Expr>) -> (r: Result<bool, KernelError>)
        requires
            old(self).wf(),
        ensures
            final(self).wf(),
            final(self).keeps(*old(self)),
            final(self).env() == old(self).env(),
            final(self).depth() == old(self).depth(),
            final(self).locals() == old(self).locals(),
            old(self).depth() < MAX_REC_DEPTH && e@ is Sort ==> (r matches Ok(x) ==> !x),
            e@ is Sort ==> (r matches Ok(x) ==> !x && final(self).eqs() == old(self).eqs()),
            old(self).depth() < MAX_REC_DEPTH && const_in_scope(old(self).env(), e@) && const_type(
                old(self).env(),
                e@,
            ) == SExpr::Sort(SLevel::Zero) ==> r == Ok::<bool, KernelError>(true),
            old(self).depth() < MAX_REC_DEPTH && const_in_scope(old(self).env(), e@) && const_type(
                old(self).env(),
                e@,
            ) is Sort && !(const_type(old(self).env(), e@)->Sort_0 is Zero) ==> r == Ok::<
                bool,
                KernelError,
            >(false),
        decreases old(self).budget(), 2nat,
    {
        proof {
            reveal(inferred_shape);
        }
        let ty = self.infer_type(e)?;
        let w = self.whnf(&ty)?;
        Ok(
            match w.node() {
                ExprNode::Sort { level } => level.is_zero(),
                _ => false,
            },
        )
    }

    fn infer_type_core(&mut self, e: &Arc<Expr>, infer_only: bool) -> (r: Result<
        Arc<Expr>,
        KernelError,
    >)
        requires
            old(self).wf(),
        ensures
            final(self).wf(),
            final(self).keeps(*old(self)),
            r matches Ok(t) ==> inferred_shape(old(self).env(), e@, t@),
            old(self).depth() < MAX_REC_DEPTH && expr_fields(e@).range > 0 ==> r
                == Err::<Arc<Expr>, KernelError>(KernelError::LooseBVar),
            old(self).depth() < MAX_REC_DEPTH && expr_fields(e@).range == 0 && e@ is MVar ==> r
                == Err::<Arc<Expr>, KernelError>(KernelError::MetavarEncountered),
            old(self).depth() < MAX_REC_DEPTH && sort_in_scope(e@, names_view(old(self).st.lparams@))
                ==> r is Ok,
            old(self).depth() < MAX_REC_DEPTH && const_in_scope(old(self).env(), e@) ==> (r matches Ok(
                t,
            ) && t@ == const_type(old(self).env(), e@)),
            old(self).depth() < MAX_REC_DEPTH && names_unknown(old(self).env(), e@) ==> unknown_error(
                r,
                e@,
            ),
            e@ is Const || e@ is Sort ==> (r is Ok ==> final(self).eqs() == old(self).eqs()),
            old(self).no_cached_types() && e@ is FVar ==> (r matches Ok(t) ==> local_type(
                old(self).locals(),
                e@,
            ) == Some(t@)),
        decreases old(self).budget(), 0nat,
    {
        if self.frames.current_depth() >= MAX_REC_DEPTH {
            return Err(KernelError::DeepRecursion);
        }
        let ghost d = self.frames.depth();
        let mut st = CheckerState::new();
        std::mem::swap(&mut self.st, &mut st);
        let env = self.env;
        let names = share(&self.names);
        let e2 = share(e);
        let run = move |g2: RecGuard| -> (r: Result<
            (CheckerState, Result<Arc<Expr>, KernelError>),
            KernelError,
        >)
            requires
                d < MAX_REC_DEPTH,
                g2.depth() == d + 1,
                st_wf(st, env.constants(), env.quot_init()),
                names.wf(),
            ensures
                r matches Ok(p) && st_wf(p.0, env.constants(), env.quot_init()) && st_keeps(p.0, st) && (p.1 matches Ok(
                    t,
                ) ==> inferred_shape(env.constants(), e2@, t@)) && (expr_fields(e2@).range > 0 ==> p.1
                    == Err::<Arc<Expr>, KernelError>(KernelError::LooseBVar)) && (expr_fields(
                    e2@,
                ).range == 0 && e2@ is MVar ==> p.1 == Err::<Arc<Expr>, KernelError>(
                    KernelError::MetavarEncountered,
                )) && (sort_in_scope(e2@, names_view(st.lparams@)) ==> p.1 is Ok) && (const_in_scope(
                    env.constants(),
                    e2@,
                ) ==> (p.1 matches Ok(t) && t@ == const_type(env.constants(), e2@))) && (names_unknown(
                    env.constants(),
                    e2@,
                ) ==> unknown_error(p.1, e2@)) && (e2@ is Const || e2@ is Sort ==> (p.1 is Ok
                    ==> p.0.eqv_cache.equations() == st.eqv_cache.equations())) && (
                st.infer_only_cache.pairs() == Set::<(SExpr, SExpr)>::empty()
                    && st.infer_check_cache.pairs() == Set::<(SExpr, SExpr)>::empty() && e2@ is FVar
                    ==> (p.1 matches Ok(t) ==> local_type(st.lctx.decls(), e2@) == Some(t@))),
            {
                let mut tc = TypeChecker { env, frames: g2, st, names };
                let res = tc.infer_type_frame(&e2, infer_only);
                Ok((tc.st, res))
            };
        let (back, res) = match self.frames.enter(run) {
            Ok(p) => p,
            Err(err) => {
                proof {
                    assert(false);
                }
                return Err(err);
            },
        };
        self.st = back;
        res
    }

    fn infer_type_frame(&mut self, e: &Arc<Expr>, infer_only: bool) -> (r: Result<
        Arc<Expr>,
        KernelError,
    >)
        requires
            old(self).wf(),
        ensures
            final(self).wf(),
            final(self).keeps(*old(self)),
            r matches Ok(t) ==> inferred_shape(old(self).env(), e@, t@),
            expr_fields(e@).range > 0 ==> r == Err::<Arc<Expr>, KernelError>(
                KernelError::LooseBVar,
            ),
            expr_fields(e@).range == 0 && e@ is MVar ==> r == Err::<Arc<Expr>, KernelError>(
                KernelError::MetavarEncountered,
            ),
            sort_in_scope(e@, names_view(old(self).st.lparams@)) ==> r is Ok,
            const_in_scope(old(self).env(), e@) ==> (r matches Ok(t) && t@ == const_type(
                old(self).env(),
                e@,
            )),
            names_unknown(old(self).env(), e@) ==> unknown_error(r, e@),
            e@ is Const || e@ is Sort ==> (r is Ok ==> final(self).eqs() == old(self).eqs()),
            old(self).no_cached_types() && e@ is FVar ==> (r matches Ok(t) ==> local_type(
                old(self).locals(),
                e@,
            ) == Some(t@)),
        decreases old(self).budget(), 5nat,
    {
        proof {
            reveal(inferred_shape);
        }
        if e.data().loose_bvar_range() > 0 {
            return Err(KernelError::LooseBVar);
        }
        let cached = if infer_only {
            self.st.infer_only_cache.get(e)
        } else {
            self.st.infer_check_cache.get(e)
        };
        if let Some(r) = cached {
            proof {
                if const_in_scope(self.env.constants(), e@) {
                    let c = lookup(self.env.constants(), e@->Const_0)->Some_0;
                    crate::subst::lemma_lparams_nothing(
                        c.spec_constant_val().ty@,
                        names_view(c.spec_constant_val().level_params@),
                        e@->Const_1,
                    );
                }
            }
            return Ok(r);
        }
        let r = match e.node() {
            ExprNode::Lit(l) => self.infer_lit(l),
            ExprNode::MData { expr, .. } => {
                let inner = share(expr);
                self.infer_type_core(&inner, infer_only)?
            },
            ExprNode::Proj { .. } => self.infer_proj(e, infer_only)?,
            ExprNode::FVar { .. } => self.infer_fvar(e)?,
            ExprNode::MVar { .. } => {
                return Err(KernelError::MetavarEncountered);
            },
            ExprNode::BVar { .. } => {
                return Err(KernelError::LooseBVar);
            },
            ExprNode::Sort { level } => {
                if !infer_only {
                    self.check_level(level)?;
                }
                Expr::sort(Level::mk_succ(share(level)), &mut self.st.guard)?
            },
            ExprNode::Const { .. } => self.infer_constant(e, infer_only)?,
            ExprNode::Lam { .. } => self.infer_lambda(e, infer_only)?,
            ExprNode::ForallE { .. } => self.infer_pi(e, infer_only)?,
            ExprNode::App { .. } => self.infer_app(e, infer_only)?,
            ExprNode::LetE { .. } => self.infer_let(e, infer_only)?,
        };
        if infer_only {
            self.st.infer_only_cache.insert(e, &r);
        } else {
            self.st.infer_check_cache.insert(e, &r);
        }
        Ok(r)
    }

    /// The type of a literal: `Nat` or `String`.
    fn infer_lit(&self, l: &Literal) -> (r: Arc<Expr>)
        requires
            self.names.wf(),
        ensures
            r@ == (match l@ {
                SLiteral::NatVal(_) => SExpr::Const(sname("Nat"@), Seq::empty()),
                SLiteral::StrVal(_) => SExpr::Const(sname("String"@), Seq::empty()),
            }),
    {
        match l {
            Literal::NatVal(_) => const0(share(&self.names.nat_name), false),
            Literal::StrVal(_) => const0(share(&self.names.string_name), false),
        }
    }

    /// `UnivParamArityMismatch` for the first universe parameter of `l`
    /// not in scope.
    fn check_level(&mut self, l: &Arc<Level>) -> (r: Result<(), KernelError>)
        requires
            old(self).wf(),
        ensures
            final(self).wf(),
            final(self).keeps(*old(self)),
            r is Ok ==> undef_param(l@, names_view(old(self).st.lparams@)) is None,
            level_height(l@) <= MAX_REC_DEPTH && undef_param(l@, names_view(old(self).st.lparams@))
                is None ==> r is Ok,
            r matches Err(e) ==> e is DeepRecursion || (e matches KernelError::UnivParamArityMismatch {
                name,
            } && undef_param(l@, names_view(old(self).st.lparams@)) == Some(name@)),
            final(self).eqs() == old(self).eqs(),
    {
        match get_undef_param(l, self.st.lparams.as_slice(), &mut self.st.guard)? {
            Some(n) => Err(KernelError::UnivParamArityMismatch { name: n }),
            None => Ok(()),
        }
    }

    /// The declared type of a local; an undeclared variable is
    /// `LooseBVar`.
    fn infer_fvar(&self, e: &Arc<Expr>) -> (r: Result<Arc<Expr>, KernelError>)
        ensures
            match e@ {
                SExpr::FVar(id) => match find_decl(self.locals(), id) {
                    Some(d) => r == Ok::<Arc<Expr>, KernelError>(d.ty),
                    None => r == Err::<Arc<Expr>, KernelError>(KernelError::LooseBVar),
                },
                _ => r == Err::<Arc<Expr>, KernelError>(KernelError::LooseBVar),
            },
    {
        if let ExprNode::FVar { id } = e.node() {
            if let Some(decl) = self.st.lctx.get(id) {
                return Ok(share(&decl.ty));
            }
        }
        Err(KernelError::LooseBVar)
    }

    /// The declared type of a constant at the given universe levels;
    /// when checking, also its safety and the levels' parameters.
    fn infer_constant(&mut self, e: &Arc<Expr>, infer_only: bool) -> (r: Result<
        Arc<Expr>,
        KernelError,
    >)
        requires
            old(self).wf(),
            e@ is Const,
            expr_fields(e@).range == 0,
        ensures
            final(self).wf(),
            final(self).keeps(*old(self)),
            r matches Ok(t) ==> inferred_shape(old(self).env(), e@, t@),
            const_in_scope(old(self).env(), e@) ==> (r matches Ok(t) && t@ == const_type(
                old(self).env(),
                e@,
            )),
            names_unknown(old(self).env(), e@) ==> unknown_error(r, e@),
            final(self).eqs() == old(self).eqs(),
    {
        let env = self.env;
        let (name, levels) = match e.node() {
            ExprNode::Const { name, levels } => (name, levels),
            _ => {
                return Err(KernelError::LooseBVar);
            },
        };
        proof {
            assert(e@->Const_0 == name@);
        }
        let info = env.get_with(name)?;
        proof {
            assert(!names_unknown(self.env.constants(), e@));
        }
        let cv = info.constant_val();
        if cv.level_params.len() != levels.len() {
            return Err(KernelError::UnivParamArityMismatch { name: share(name) });
        }
        if !infer_only {
            if info_is_unsafe(info) && self.st.safety != DefinitionSafety::Unsafe {
                return Err(KernelError::UnsafeConstInSafeDecl(share(name)));
            }
            if let ConstantInfo::Defn(dv) = info {
                if dv.safety == DefinitionSafety::Partial && self.st.safety
                    == DefinitionSafety::Safe {
                    return Err(KernelError::UnsafeConstInSafeDecl(share(name)));
                }
            }
            let mut i: usize = 0;
            proof {
                if const_in_scope(self.env.constants(), e@) {
                    assert(levels_view(levels@).len() == 0);
                }
            }
            while i < levels.len()
                invariant
                    self.wf(),
                    self.keeps(*old(self)),
                    const_in_scope(old(self).env.constants(), e@) ==> levels@.len() == 0,
                    !names_unknown(old(self).env.constants(), e@),
                    self.eqs() == old(self).eqs(),
                decreases levels@.len() - i,
            {
                self.check_level(&levels[i])?;
                i = i + 1;
            }
        }
        proof {
            reveal(inferred_shape);
            assert(names_view(cv.level_params@).len() == cv.level_params@.len());
            if const_in_scope(env.constants(), e@) {
                assert(levels_view(levels@) =~= Seq::<SLevel>::empty());
                crate::subst::lemma_lparams_nothing(
                    cv.ty@,
                    names_view(cv.level_params@),
                    levels_view(levels@),
                );
            }
        }
        instantiate_level_params(
            &cv.ty,
            cv.level_params.as_slice(),
            levels.as_slice(),
            &mut self.st.guard,
        )
    }

    /// The type of a lambda: a binder type over the type of its body,
    /// inferred with fresh locals for the bound variables.
    fn infer_lambda(&mut self, e: &Arc<Expr>, infer_only: bool) -> (r: Result<
        Arc<Expr>,
        KernelError,
    >)
        requires
            old(self).wf(),
        ensures
            final(self).wf(),
            final(self).keeps(*old(self)),
            e@ is Lam ==> (r matches Ok(t) ==> t@ is ForallE),
        decreases old(self).budget(), 3nat,
    {
        let ghost start = *self;
        let saved = self.st.lctx.save();
        let r = self.infer_lambda_body(e, infer_only);
        self.restore_locals(saved, Ghost(start));
        r
    }

    #[verifier::rlimit(40)]
    fn infer_lambda_body(&mut self, e0: &Arc<Expr>, infer_only: bool) -> (r: Result<
        Arc<Expr>,
        KernelError,
    >)
        requires
            old(self).wf(),
        ensures
            final(self).wf(),
            final(self).extends(*old(self)),
            e0@ is Lam ==> (r matches Ok(t) ==> t@ is ForallE),
        decreases old(self).budget(), 2nat,
    {
        let mut fvars: Vec<Arc<Expr>> = Vec::new();
        let mut e = share(e0);
        let ghost mut n0: nat = 0;
        let ghost mut p0: int = 0;
        loop
            invariant
                self.wf(),
                self.extends(*old(self)),
                fvars@.len() == 0 ==> e@ == e0@,
                fvars@.len() > 0 ==> {
                    &&& fvars@[0]@ == SExpr::FVar(fresh_name(n0))
                    &&& 0 <= p0 < self.st.lctx.decls().len()
                    &&& self.st.lctx.decls()[p0].id@ == fresh_name(n0)
                    &&& self.st.lctx.decls()[p0].value is None
                    &&& n0 < self.st.fvar_gen.next()
                    &&& forall|q: int|
                        p0 < q < self.st.lctx.decls().len() ==> (#[trigger] self.st.lctx.decls()[q]).id@
                            != fresh_name(n0)
                },
            ensures
                e0@ is Lam ==> fvars@.len() > 0,
            decreases tree_height(e@),
        {
            let (bn, bt, bi, next) = match e.node() {
                ExprNode::Lam { binder_name, binder_type, body, binder_info } => (
                    share(binder_name),
                    share(binder_type),
                    *binder_info,
                    share(body),
                ),
                _ => {
                    break ;
                },
            };
            let d = instantiate_rev(&bt, fvars.as_slice(), &mut self.st.guard)?;
            let ghost gen0 = self.st.fvar_gen.next();
            let ghost len0 = self.st.lctx.decls().len();
            let ghost decls0 = self.st.lctx.decls();
            let fvar = self.fresh_local(&bn, share(&d), bi)?;
            proof {
                if fvars@.len() == 0 {
                    n0 = gen0;
                    p0 = len0 as int;
                    assert(self.st.lctx.decls().len() == len0 + 1);
                    assert(self.st.lctx.decls()[p0] == self.st.lctx.decls().last());
                } else {
                    assert(self.st.lctx.decls()[p0] == decls0[p0]);
                    assert forall|q: int| p0 < q < self.st.lctx.decls().len() implies (
                    #[trigger] self.st.lctx.decls()[q]).id@ != fresh_name(n0) by {
                        if q < len0 {
                            assert(self.st.lctx.decls()[q] == decls0[q]);
                        } else {
                            assert(self.st.lctx.decls()[q] == self.st.lctx.decls().last());
                            law_fresh_names_distinct(gen0, n0);
                        }
                    }
                }
            }
            fvars.push(fvar);
            proof {
                assert(fvars@[0]@ == SExpr::FVar(fresh_name(n0)));
            }
            if !infer_only {
                let dty = self.infer_type_core(&d, infer_only)?;
                self.ensure_sort(&dty)?;
            }
            e = next;
        }
        let inst = instantiate_rev(&e, fvars.as_slice(), &mut self.st.guard)?;
        let r = self.infer_type_core(&inst, infer_only)?;
        let r = cheap_beta_reduce(&r);
        let res = self.st.lctx.mk_pi(fvars.as_slice(), &r, &mut self.st.guard);
        proof {
            if e0@ is Lam && res is Ok {
                let decls = self.st.lctx.decls();
                let fv = exprs_view(fvars@);
                assert(fv.len() == fvars@.len());
                assert(fv[0] == fvars@[0]@);
                crate::local_ctx::lemma_find_last(decls, fresh_name(n0), p0);
                crate::local_ctx::lemma_wrap_outer_forall(
                    decls,
                    fv,
                    fv.len(),
                    crate::subst::abstract_spec(r@, 0, fv),
                );
            }
        }
        res
    }

    /// The type of a binder type: the sort of the `imax` of its domains'
    /// universes and its body's.
    fn infer_pi(&mut self, e: &Arc<Expr>, infer_only: bool) -> (r: Result<Arc<Expr>, KernelError>)
        requires
            old(self).wf(),
        ensures
            final(self).wf(),
            final(self).keeps(*old(self)),
            r matches Ok(t) ==> t@ is Sort,
        decreases old(self).budget(), 3nat,
    {
        let ghost start = *self;
        let saved = self.st.lctx.save();
        let r = self.infer_pi_body(e, infer_only);
        self.restore_locals(saved, Ghost(start));
        r
    }

    fn infer_pi_body(&mut self, e0: &Arc<Expr>, infer_only: bool) -> (r: Result<
        Arc<Expr>,
        KernelError,
    >)
        requires
            old(self).wf(),
        ensures
            final(self).wf(),
            final(self).extends(*old(self)),
            r matches Ok(t) ==> t@ is Sort,
        decreases old(self).budget(), 2nat,
    {
        let mut fvars: Vec<Arc<Expr>> = Vec::new();
        let mut us: Vec<Arc<Level>> = Vec::new();
        let mut e = share(e0);
        loop
            invariant
                self.wf(),
                self.extends(*old(self)),
                us@.len() == fvars@.len(),
            decreases tree_height(e@),
        {
            let (bn, bt, bi, next) = match e.node() {
                ExprNode::ForallE { binder_name, binder_type, body, binder_info } => (
                    share(binder_name),
                    share(binder_type),
                    *binder_info,
                    share(body),
                ),
                _ => {
                    break ;
                },
            };
            let d = instantiate_rev(&bt, fvars.as_slice(), &mut self.st.guard)?;
            let dty = self.infer_type_core(&d, infer_only)?;
            let t1 = self.ensure_sort(&dty)?;
            let lvl = match t1.node() {
                ExprNode::Sort { level } => share(level),
                _ => {
                    return Err(KernelError::TypeExpected);
                },
            };
            us.push(lvl);
            let fvar = self.fresh_local(&bn, d, bi)?;
            fvars.push(fvar);
            e = next;
        }
        let inst = instantiate_rev(&e, fvars.as_slice(), &mut self.st.guard)?;
        let sty = self.infer_type_core(&inst, infer_only)?;
        let s = self.ensure_sort(&sty)?;
        let mut r = match s.node() {
            ExprNode::Sort { level } => share(level),
            _ => {
                return Err(KernelError::TypeExpected);
            },
        };
        let mut i = fvars.len();
        while i > 0
            invariant
                i <= us@.len(),
                self.wf(),
                self.extends(*old(self)),
            decreases i,
        {
            i = i - 1;
            r = Level::mk_imax_pair(share(&us[i]), r, &mut self.st.guard)?;
        }
        Expr::sort(r, &mut self.st.guard)
    }

    /// The type of an application. When checking, the argument's type
    /// must be definitionally equal to the function's domain; when only
    /// inferring, the function's type is walked without checks.
    fn infer_app(&mut self, e: &Arc<Expr>, infer_only: bool) -> (r: Result<
        Arc<Expr>,
        KernelError,
    >)
        requires
            old(self).wf(),
        ensures
            final(self).wf(),
            final(self).keeps(*old(self)),
        decreases old(self).budget(), 2nat,
    {
        if !infer_only {
            let (f, arg) = match e.node() {
                ExprNode::App { f, arg } => (share(f), share(arg)),
                _ => {
                    return Err(KernelError::LooseBVar);
                },
            };
            let ft = self.infer_type_core(&f, infer_only)?;
            let f_type = self.ensure_pi(&ft)?;
            let a_type = self.infer_type_core(&arg, infer_only)?;
            let (d_type, body) = match f_type.node() {
                ExprNode::ForallE { binder_type, body, .. } => (share(binder_type), share(body)),
                _ => {
                    return Err(KernelError::FunctionExpected);
                },
            };
            if !self.is_def_eq(&a_type, &d_type)? {
                return Err(KernelError::AppTypeMismatch);
            }
            instantiate(&body, &arg, &mut self.st.guard)
        } else {
            let args = Expr::get_app_args(e);
            let f = share(Expr::get_app_fn(e));
            let mut f_type = self.infer_type_core(&f, true)?;
            let mut j: usize = 0;
            let nargs = args.len();
            let mut i: usize = 0;
            while i < nargs
                invariant
                    self.wf(),
                    self.keeps(*old(self)),
                    j <= i <= nargs,
                    nargs == args@.len(),
                decreases nargs - i,
            {
                let next = match f_type.node() {
                    ExprNode::ForallE { body, .. } => Some(share(body)),
                    _ => None,
                };
                match next {
                    Some(b) => {
                        f_type = b;
                    },
                    None => {
                        let seg = vstd::slice::slice_subrange(args.as_slice(), j, i);
                        f_type = instantiate_rev(&f_type, seg, &mut self.st.guard)?;
                        f_type = self.ensure_pi(&f_type)?;
                        f_type = match f_type.node() {
                            ExprNode::ForallE { body, .. } => share(body),
                            _ => {
                                return Err(KernelError::FunctionExpected);
                            },
                        };
                        j = i;
                    },
                }
                i = i + 1;
            }
            let seg = vstd::slice::slice_subrange(args.as_slice(), j, nargs);
            instantiate_rev(&f_type, seg, &mut self.st.guard)
        }
    }

    /// The type of a `let`: its body's type with the bound variables as
    /// `let`-bound locals, closed back over them. When checking, each
    /// value's type must be definitionally equal to its declared type.
    fn infer_let(&mut self, e: &Arc<Expr>, infer_only: bool) -> (r: Result<
        Arc<Expr>,
        KernelError,
    >)
        requires
            old(self).wf(),
        ensures
            final(self).wf(),
            final(self).keeps(*old(self)),
        decreases old(self).budget(), 3nat,
    {
        let ghost start = *self;
        let saved = self.st.lctx.save();
        let r = self.infer_let_body(e, infer_only);
        self.restore_locals(saved, Ghost(start));
        r
    }

    fn infer_let_body(&mut self, e0: &Arc<Expr>, infer_only: bool) -> (r: Result<
        Arc<Expr>,
        KernelError,
    >)
        requires
            old(self).wf(),
        ensures
            final(self).wf(),
            final(self).extends(*old(self)),
        decreases old(self).budget(), 2nat,
    {
        let mut fvars: Vec<Arc<Expr>> = Vec::new();
        let mut e = share(e0);
        loop
            invariant
                self.wf(),
                self.extends(*old(self)),
            decreases tree_height(e@),
        {
            let (dn, t, v, next) = match e.node() {
                ExprNode::LetE { decl_name, ty, value, body, .. } => (
                    share(decl_name),
                    share(ty),
                    share(value),
                    share(body),
                ),
                _ => {
                    break ;
                },
            };
            let type_ = instantiate_rev(&t, fvars.as_slice(), &mut self.st.guard)?;
            let val = instantiate_rev(&v, fvars.as_slice(), &mut self.st.guard)?;
            let fvar = self.fresh_let(&dn, share(&type_), share(&val))?;
            fvars.push(fvar);
            if !infer_only {
                let tty = self.infer_type_core(&type_, infer_only)?;
                self.ensure_sort(&tty)?;
                let val_type = self.infer_type_core(&val, infer_only)?;
                if !self.is_def_eq(&val_type, &type_)? {
                    return Err(KernelError::LetTypeMismatch);
                }
            }
            e = next;
        }
        let inst = instantiate_rev(&e, fvars.as_slice(), &mut self.st.guard)?;
        let r = self.infer_type_core(&inst, infer_only)?;
        let r = cheap_beta_reduce(&r);
        self.st.lctx.mk_pi(fvars.as_slice(), &r, &mut self.st.guard)
    }

    /// The type of a projection: the structure's type must be the named
    /// structure-like inductive (one constructor, no indices) at exactly
    /// its parameters; the field's type is read off the constructor's
    /// type, with earlier fields as projections. A proposition's field
    /// must itself be a proof. Every other shape is `InvalidProj`.
    /// The constructor type `r0` with its first `nparams` binders
    /// instantiated, in order, by the structure's parameters `args`.
    fn strip_params(&mut self, r0: Arc<Expr>, args: &Vec<Arc<Expr>>, nparams: usize) -> (r: Result<
        Arc<Expr>,
        KernelError,
    >)
        requires
            old(self).wf(),
            nparams <= args@.len(),
        ensures
            final(self).wf(),
            final(self).keeps(*old(self)),
            strip_binders(r0@, exprs_view(args@).take(nparams as int)) matches Some(x0) ==> (r matches Ok(
                x,
            ) ==> x@ == x0),
        decreases old(self).budget(), 2nat,
    {
        let ghost want = strip_binders(r0@, exprs_view(args@).take(nparams as int));
        proof {
            assert(exprs_view(args@).take(nparams as int) =~= exprs_view(args@).subrange(0, nparams as int));
        }
        let mut r = r0;
        let mut k: usize = 0;
        while k < nparams
            invariant
                self.wf(),
                self.keeps(*old(self)),
                nparams <= args@.len(),
                k <= nparams,
                want is Some ==> want == strip_binders(
                    r@,
                    exprs_view(args@).subrange(k as int, nparams as int),
                ),
            decreases nparams - k,
        {
            let ghost r_before = r@;
            r = self.whnf(&r)?;
            let body = match r.node() {
                ExprNode::ForallE { body, .. } => share(body),
                _ => {
                    return Err(KernelError::InvalidProj);
                },
            };
            r = instantiate(&body, &args[k], &mut self.st.guard)?;
            proof {
                let ps = exprs_view(args@).subrange(k as int, nparams as int);
                assert(exprs_view(args@).len() == args@.len());
                assert(ps[0] == args@[k as int]@);
                assert(ps.drop_first() =~= exprs_view(args@).subrange(k + 1, nparams as int));
                if want is Some {
                    assert(r_before is ForallE);
                    assert(strip_binders(r_before, ps) == strip_binders(r@, ps.drop_first()));
                }
            }
            k = k + 1;
        }
        proof {
            assert(exprs_view(args@).subrange(k as int, nparams as int) =~= Seq::<SExpr>::empty());
        }
        Ok(r)
    }

    fn infer_proj(&mut self, e: &Arc<Expr>, infer_only: bool) -> (r: Result<
        Arc<Expr>,
        KernelError,
    >)
        requires
            old(self).wf(),
        ensures
            final(self).wf(),
            final(self).keeps(*old(self)),
            !(e@ is Proj) ==> r == Err::<Arc<Expr>, KernelError>(KernelError::InvalidProj),
            r is Ok ==> proj_struct_ok(old(self).env(), e@),
            proj_of_const(old(self).env(), old(self).quot_init(), e@) && proj_field(old(self).env(), e@)
                is Some ==> (r matches Ok(t) ==> Some(t@) == proj_field(old(self).env(), e@)),
        decreases old(self).budget(), 4nat,
    {
        let (proj_name, idx, structure) = match e.node() {
            ExprNode::Proj { struct_name, idx, structure } => (
                share(struct_name),
                idx,
                share(structure),
            ),
            _ => {
                return Err(KernelError::InvalidProj);
            },
        };
        let ghost pc = proj_of_const(self.env.constants(), self.env.quot_init(), e@) && proj_field(
            self.env.constants(),
            e@,
        ) is Some;
        let ghost cty = const_type(self.env.constants(), structure@);
        let sty = self.infer_type_core(&structure, infer_only)?;
        proof {
            if pc {
                reveal(inferred_shape);
                let c = lookup(self.env.constants(), structure@->Const_0)->Some_0;
                crate::subst::lemma_lparams_nothing(
                    c.spec_constant_val().ty@,
                    names_view(c.spec_constant_val().level_params@),
                    structure@->Const_1,
                );
                assert(sty@ == cty);
            }
        }
        let type_ = self.whnf(&sty)?;
        let idxv = match idx.to_usize() {
            Some(v) => v,
            None => {
                return Err(KernelError::InvalidProj);
            },
        };
        let args = Expr::get_app_args(&type_);
        let head = Expr::get_app_fn(&type_);
        let i_name = match head.node() {
            ExprNode::Const { name, .. } => share(name),
            _ => {
                return Err(KernelError::InvalidProj);
            },
        };
        if !i_name.equal(&proj_name) {
            return Err(KernelError::InvalidProj);
        }
        let env = self.env;
        let i_info = env.get_with(&i_name)?;
        let i_val = match i_info {
            ConstantInfo::Induct(v) => v,
            _ => {
                return Err(KernelError::InvalidProj);
            },
        };
        let nparams = match i_val.num_params.to_usize() {
            Some(v) => v,
            None => {
                return Err(KernelError::InvalidProj);
            },
        };
        let nindices = match i_val.num_indices.to_usize() {
            Some(v) => v,
            None => {
                return Err(KernelError::InvalidProj);
            },
        };
        if i_val.ctors.len() != 1 || nparams > args.len() || args.len() - nparams != nindices {
            return Err(KernelError::InvalidProj);
        }
        let c_info = env.get_with(&i_val.ctors[0])?;
        let c_cv = c_info.constant_val();
        let i_levels = const_levels_of_head(&type_);
        let mut r = instantiate_level_params(
            &c_cv.ty,
            c_cv.level_params.as_slice(),
            i_levels.as_slice(),
            &mut self.st.guard,
        )?;
        proof {
            assert(proj_struct_ok(self.env(), e@));
            if pc {
                assert(exprs_view(args@).len() == args@.len());
                assert(c_cv.ty@ == lookup(
                    self.env.constants(),
                    lookup(self.env.constants(), e@->Proj_0)->Some_0->Induct_0.ctors@[0]@,
                )->Some_0.spec_constant_val().ty@);
                crate::subst::lemma_lparams_nothing(
                    c_cv.ty@,
                    names_view(c_cv.level_params@),
                    levels_view(i_levels@),
                );
                assert(exprs_view(args@).take(nparams as int) =~= app_args(cty));
            }
        }
        r = self.strip_params(r, &args, nparams)?;
        let is_prop_type = self.is_prop(&type_)?;
        self.field_type(r, idxv, &i_name, &structure, is_prop_type)
    }

    /// The type of field `idxv` of the constructor type `r0` whose
    /// parameters are already instantiated: each earlier field a later one
    /// uses is replaced by its projection out of `structure` (and, for a
    /// proposition, checked to be a proof).
    fn field_type(
        &mut self,
        r0: Arc<Expr>,
        idxv: usize,
        i_name: &Arc<Name>,
        structure: &Arc<Expr>,
        is_prop_type: bool,
    ) -> (r: Result<Arc<Expr>, KernelError>)
        requires
            old(self).wf(),
        ensures
            final(self).wf(),
            final(self).keeps(*old(self)),
            proj_walk(i_name@, structure@, r0@, 0, idxv as nat) matches Some(t0) ==> (r matches Ok(t)
                ==> t@ == t0),
        decreases old(self).budget(), 3nat,
    {
        let ghost want = proj_walk(i_name@, structure@, r0@, 0, idxv as nat);
        let mut r = r0;
        let mut i: usize = 0;
        while i < idxv
            invariant
                self.wf(),
                self.keeps(*old(self)),
                i <= idxv,
                want is Some ==> want == proj_walk(i_name@, structure@, r@, i as nat, (idxv - i) as nat),
            decreases idxv - i,
        {
            let ghost r_before = r@;
            r = self.whnf(&r)?;
            let (dom, body) = match r.node() {
                ExprNode::ForallE { binder_type, body, .. } => (share(binder_type), share(body)),
                _ => {
                    return Err(KernelError::InvalidProj);
                },
            };
            if body.data().loose_bvar_range() > 0 {
                if is_prop_type && !self.is_prop(&dom)? {
                    return Err(KernelError::InvalidProj);
                }
                let proj = Expr::proj(share(i_name), Nat::from_u64(i as u64), share(structure));
                r = instantiate(&body, &proj, &mut self.st.guard)?;
            } else {
                r = body;
            }
            proof {
                if want is Some {
                    assert(r_before is ForallE);
                }
            }
            i = i + 1;
        }
        r = self.whnf(&r)?;
        let dom = match r.node() {
            ExprNode::ForallE { binder_type, .. } => share(binder_type),
            _ => {
                return Err(KernelError::InvalidProj);
            },
        };
        if is_prop_type && !self.is_prop(&dom)? {
            return Err(KernelError::InvalidProj);
        }
        Ok(dom)
    }

    // -----------------------------------------------------------------
    // Definitional equality.
    // -----------------------------------------------------------------

    /// Whether `t` and `s` are definitionally equal; a proved equality is
    /// recorded in the equivalence cache.
    pub fn is_def_eq(&mut self, t: &Arc<Expr>, s: &Arc<Expr>) -> (r: Result<bool, KernelError>)
        requires
            old(self).wf(),
        ensures
            final(self).wf(),
            final(self).keeps(*old(self)),
            final(self).env() == old(self).env(),
            final(self).depth() == old(self).depth(),
            final(self).locals() == old(self).locals(),
            r matches Ok(x) ==> (t@ == s@ ==> x),
            t@ == s@ && old(self).depth() < MAX_REC_DEPTH && expr_height(t@) < MAX_REC_DEPTH ==> r
                == Ok::<bool, KernelError>(true),
            rigid_pair(old(self).env(), old(self).quot_init(), t@, s@) && !entails(
                old(self).eqs(),
                t@,
                s@,
            ) ==> (r matches Ok(x) ==> !x),
            sorts_equivalent(t@, s@) ==> (r matches Ok(x) ==> x),
            old(self).depth() < MAX_REC_DEPTH && sorts_equivalent(t@, s@) && sorts_small(t@, s@) ==> r
                == Ok::<bool, KernelError>(true),
        decreases old(self).budget(), 1nat,
    {
        let r = self.is_def_eq_core(t, s)?;
        if r {
            self.st.eqv_cache.merge(t, s);
        }
        Ok(r)
    }

    /// The cases decided without reduction: the equivalence cache, two
    /// binders of the same kind, two sorts, two metadata nodes, two
    /// literals. Anything else is `Undef`.
    fn quick_is_def_eq(&mut self, t: &Arc<Expr>, s: &Arc<Expr>, use_hash: bool) -> (r: Result<
        Lbool,
        KernelError,
    >)
        requires
            old(self).wf(),
        ensures
            final(self).wf(),
            final(self).keeps(*old(self)),
            r matches Ok(x) ==> (t@ == s@ ==> x == Lbool::True),
            t@ == s@ && expr_height(t@) < MAX_REC_DEPTH ==> r == Ok::<Lbool, KernelError>(Lbool::True),
            t@ is Const && s@ is Const && !entails(old(self).eqs(), t@, s@) ==> (r matches Ok(x) ==> x
                == Lbool::Undef && final(self).eqs() == old(self).eqs()),
            sorts_equivalent(t@, s@) ==> (r matches Ok(x) ==> x == Lbool::True),
            sorts_equivalent(t@, s@) && sorts_small(t@, s@) ==> r == Ok::<Lbool, KernelError>(
                Lbool::True,
            ),
        decreases old(self).budget(), 5nat,
    {
        if self.st.eqv_cache.is_equiv(t, s, use_hash, &mut self.st.guard)? {
            return Ok(Lbool::True);
        }
        match (t.node(), s.node()) {
            (ExprNode::Lam { .. }, ExprNode::Lam { .. }) => Ok(to_lbool(self.is_def_eq_binding(t, s)?)),
            (ExprNode::ForallE { .. }, ExprNode::ForallE { .. }) => Ok(
                to_lbool(self.is_def_eq_binding(t, s)?),
            ),
            (ExprNode::Sort { level: lt }, ExprNode::Sort { level: ls }) => Ok(
                to_lbool(Level::is_equivalent(lt, ls, &mut self.st.guard)?),
            ),
            (ExprNode::MData { expr: et, .. }, ExprNode::MData { expr: es, .. }) => {
                let (a, b) = (share(et), share(es));
                Ok(to_lbool(self.is_def_eq(&a, &b)?))
            },
            (ExprNode::Lit(la), ExprNode::Lit(lb)) => Ok(to_lbool(crate::expr::literal_eq(la, lb))),
            _ => Ok(Lbool::Undef),
        }
    }

    /// Two binders of the same kind, compared binder by binder: domains
    /// structurally equal or definitionally equal, bodies under a fresh
    /// local (when either body uses its variable), then the remaining
    /// bodies.
    fn is_def_eq_binding(&mut self, t: &Arc<Expr>, s: &Arc<Expr>) -> (r: Result<
        bool,
        KernelError,
    >)
        requires
            old(self).wf(),
            t@ is Lam && s@ is Lam || t@ is ForallE && s@ is ForallE,
        ensures
            final(self).wf(),
            final(self).keeps(*old(self)),
        decreases old(self).budget(), 4nat,
    {
        let ghost start = *self;
        let saved = self.st.lctx.save();
        let r = self.is_def_eq_binding_body(t, s);
        self.restore_locals(saved, Ghost(start));
        r
    }

    fn is_def_eq_binding_body(&mut self, t0: &Arc<Expr>, s0: &Arc<Expr>) -> (r: Result<
        bool,
        KernelError,
    >)
        requires
            old(self).wf(),
            t0@ is Lam && s0@ is Lam || t0@ is ForallE && s0@ is ForallE,
        ensures
            final(self).wf(),
            final(self).extends(*old(self)),
        decreases old(self).budget(), 3nat,
    {
        let mut subst: Vec<Arc<Expr>> = Vec::new();
        let mut t = share(t0);
        let mut s = share(s0);
        let is_lam = t.is_lambda();
        loop
            invariant_except_break
                is_lam ==> t@ is Lam && s@ is Lam,
                !is_lam ==> t@ is ForallE && s@ is ForallE,
            invariant
                self.wf(),
                self.extends(*old(self)),
            ensures
                self.wf(),
                self.extends(*old(self)),
            decreases tree_height(t@),
        {
            let (t_dom, t_body) = binder_dom_body(&t);
            let (s_dom, s_body, s_name, s_info) = binder_full(&s);
            let used = t_body.data().loose_bvar_range() > 0 || s_body.data().loose_bvar_range() > 0;
            match self.binding_var(subst.as_slice(), &t_dom, &s_dom, &s_name, s_info, used)? {
                Some(v) => {
                    subst.push(v);
                },
                None => {
                    return Ok(false);
                },
            }
            t = t_body;
            s = s_body;
            let same = if is_lam {
                t.is_lambda() && s.is_lambda()
            } else {
                t.is_forall() && s.is_forall()
            };
            if !same {
                break ;
            }
        }
        let ti = instantiate_rev(&t, subst.as_slice(), &mut self.st.guard)?;
        let si = instantiate_rev(&s, subst.as_slice(), &mut self.st.guard)?;
        self.is_def_eq(&ti, &si)
    }

    /// One binder pair of `is_def_eq_binding_body`, under the variables
    /// `subst` of the binders outside it: `None` when the domains are
    /// neither structurally nor definitionally equal; else what replaces
    /// the bound variable, a fresh local of `s`'s domain when one of the
    /// bodies uses it.
    fn binding_var(
        &mut self,
        subst: &[Arc<Expr>],
        t_dom: &Arc<Expr>,
        s_dom: &Arc<Expr>,
        s_name: &Arc<Name>,
        s_info: BinderInfo,
        used: bool,
    ) -> (r: Result<Option<Arc<Expr>>, KernelError>)
        requires
            old(self).wf(),
        ensures
            final(self).wf(),
            final(self).extends(*old(self)),
        decreases old(self).budget(), 2nat,
    {
        let mut var_s_type: Option<Arc<Expr>> = None;
        if !Expr::structural_eq(t_dom, s_dom, &mut self.st.guard)? {
            let vst = instantiate_rev(s_dom, subst, &mut self.st.guard)?;
            let vtt = instantiate_rev(t_dom, subst, &mut self.st.guard)?;
            if !self.is_def_eq(&vtt, &vst)? {
                return Ok(None);
            }
            var_s_type = Some(vst);
        }
        if used {
            let vst = match var_s_type {
                Some(v) => v,
                None => instantiate_rev(s_dom, subst, &mut self.st.guard)?,
            };
            let fvar = self.fresh_local(s_name, vst, s_info)?;
            Ok(Some(fvar))
        } else {
            Ok(Some(share(&self.names.dont_care)))
        }
    }

    /// Two application spines with pairwise definitionally equal
    /// arguments, compared from the last, and heads that are no
    /// applications.
    fn is_def_eq_args(&mut self, t0: &Arc<Expr>, s0: &Arc<Expr>) -> (r: Result<
        bool,
        KernelError,
    >)
        requires
            old(self).wf(),
        ensures
            final(self).wf(),
            final(self).keeps(*old(self)),
            r matches Ok(x) ==> (t0@ == s0@ ==> x),
            r matches Ok(x) ==> (app_args(t0@).len() != app_args(s0@).len() ==> !x),
        decreases old(self).budget(), 2nat,
    {
        let mut t = share(t0);
        let mut s = share(s0);
        loop
            invariant
                self.wf(),
                self.keeps(*old(self)),
                t0@ == s0@ ==> t@ == s@,
                app_args(t0@).len() - app_args(t@).len() == app_args(s0@).len() - app_args(s@).len(),
            ensures
                self.wf(),
                self.keeps(*old(self)),
                t0@ == s0@ ==> t@ == s@,
                app_args(t0@).len() - app_args(t@).len() == app_args(s0@).len() - app_args(s@).len(),
                !(t@ is App) || !(s@ is App),
            decreases tree_height(t@),
        {
            let (tf, ta) = match t.node() {
                ExprNode::App { f, arg } => (share(f), share(arg)),
                _ => {
                    break ;
                },
            };
            let (sf, sa) = match s.node() {
                ExprNode::App { f, arg } => (share(f), share(arg)),
                _ => {
                    break ;
                },
            };
            if !self.is_def_eq(&ta, &sa)? {
                return Ok(false);
            }
            t = tf;
            s = sf;
        }
        Ok(!t.is_app() && !s.is_app())
    }

    /// Two applications with definitionally equal heads and as many,
    /// pairwise definitionally equal, arguments.
    fn is_def_eq_app(&mut self, t: &Arc<Expr>, s: &Arc<Expr>) -> (r: Result<bool, KernelError>)
        requires
            old(self).wf(),
        ensures
            final(self).wf(),
            final(self).keeps(*old(self)),
            !(t@ is App && s@ is App) ==> r == Ok::<bool, KernelError>(false),
            r matches Ok(x) ==> (t@ == s@ && t@ is App ==> x),
        decreases old(self).budget(), 2nat,
    {
        if t.is_app() && s.is_app() {
            let t_args = Expr::get_app_args(t);
            let t_fn = share(Expr::get_app_fn(t));
            let s_args = Expr::get_app_args(s);
            let s_fn = share(Expr::get_app_fn(s));
            proof {
                assert(exprs_view(t_args@).len() == t_args@.len());
                assert(exprs_view(s_args@).len() == s_args@.len());
            }
            if self.is_def_eq(&t_fn, &s_fn)? && t_args.len() == s_args.len() {
                let mut i: usize = 0;
                while i < t_args.len()
                    invariant
                        self.wf(),
                        self.keeps(*old(self)),
                        t_args@.len() == s_args@.len(),
                        t@ == s@ ==> exprs_view(t_args@) == exprs_view(s_args@),
                        t@ is App && s@ is App,
                    decreases t_args@.len() - i,
                {
                    proof {
                        if t@ == s@ {
                            assert(exprs_view(t_args@)[i as int] == exprs_view(s_args@)[i as int]);
                        }
                    }
                    if !self.is_def_eq(&t_args[i], &s_args[i])? {
                        return Ok(false);
                    }
                    i = i + 1;
                }
                return Ok(true);
            }
        }
        Ok(false)
    }

    /// Proof irrelevance: when `t`'s type is a proposition, `t` and `s`
    /// are equal iff their types are.
    fn is_def_eq_proof_irrel(&mut self, t: &Arc<Expr>, s: &Arc<Expr>) -> (r: Result<
        Lbool,
        KernelError,
    >)
        requires
            old(self).wf(),
        ensures
            final(self).wf(),
            final(self).keeps(*old(self)),
            const_in_scope(old(self).env(), t@) && const_type(old(self).env(), t@) is Sort ==> (r matches Ok(
                x,
            ) ==> x == Lbool::Undef && final(self).eqs() == old(self).eqs()),
        decreases old(self).budget(), 3nat,
    {
        let t_type = self.infer_type(t)?;
        proof {
            if const_in_scope(self.env.constants(), t@) {
                reveal(inferred_shape);
                let c = lookup(self.env.constants(), t@->Const_0)->Some_0;
                crate::subst::lemma_lparams_nothing(
                    c.spec_constant_val().ty@,
                    names_view(c.spec_constant_val().level_params@),
                    t@->Const_1,
                );
            }
        }
        if !self.is_prop(&t_type)? {
            return Ok(Lbool::Undef);
        }
        let s_type = self.infer_type(s)?;
        Ok(to_lbool(self.is_def_eq(&t_type, &s_type)?))
    }

    /// As many universe levels, pairwise equivalent.
    fn is_def_eq_levels(&mut self, ls1: &Vec<Arc<Level>>, ls2: &Vec<Arc<Level>>) -> (r: Result<
        bool,
        KernelError,
    >)
        requires
            old(self).wf(),
        ensures
            final(self).wf(),
            final(self).keeps(*old(self)),
            r matches Ok(x) ==> x == (ls1@.len() == ls2@.len() && forall|i: int|
                0 <= i < ls1@.len() ==> spec_is_equivalent((#[trigger] ls1@[i])@, ls2@[i]@)),
            r matches Err(e) ==> e is DeepRecursion,
    {
        if ls1.len() != ls2.len() {
            return Ok(false);
        }
        let mut i: usize = 0;
        while i < ls1.len()
            invariant
                self.wf(),
                self.keeps(*old(self)),
                ls1@.len() == ls2@.len(),
                i <= ls1@.len(),
                forall|j: int| 0 <= j < i ==> spec_is_equivalent((#[trigger] ls1@[j])@, ls2@[j]@),
            decreases ls1@.len() - i,
        {
            if !Level::is_equivalent(&ls1[i], &ls2[i], &mut self.st.guard)? {
                return Ok(false);
            }
            i = i + 1;
        }
        Ok(true)
    }

    /// Whether the pair was recorded as unequal, in the order of their
    /// hashes (either order on a tie).
    fn failed_before(&self, t: &Arc<Expr>, s: &Arc<Expr>) -> (r: bool)
        ensures
            r ==> self.st.failure_cache.pairs().contains((t@, s@))
                || self.st.failure_cache.pairs().contains((s@, t@)),
    {
        let ht = t.data().hash();
        let hs = s.data().hash();
        if ht < hs {
            self.st.failure_cache.contains(t, s)
        } else if ht > hs {
            self.st.failure_cache.contains(s, t)
        } else {
            self.st.failure_cache.contains(t, s) || self.st.failure_cache.contains(s, t)
        }
    }

    /// Records the pair as unequal, in the order of their hashes.
    fn cache_failure(&mut self, t: &Arc<Expr>, s: &Arc<Expr>)
        requires
            old(self).wf(),
        ensures
            final(self).wf(),
            final(self).keeps(*old(self)),
            final(self).st.failure_cache.pairs() == old(self).st.failure_cache.pairs().insert(
                if expr_fields(t@).hash <= expr_fields(s@).hash {
                    (t@, s@)
                } else {
                    (s@, t@)
                },
            ),
    {
        if t.data().hash() <= s.data().hash() {
            self.st.failure_cache.insert(t, s);
        } else {
            self.st.failure_cache.insert(s, t);
        }
    }

    /// `whnf_core` of an application whose head is a projection, when it
    /// changes anything.
    fn try_unfold_proj_app(&mut self, e: &Arc<Expr>) -> (r: Result<Option<Arc<Expr>>, KernelError>)
        requires
            old(self).wf(),
        ensures
            final(self).wf(),
            final(self).keeps(*old(self)),
            !(app_fn(e@) is Proj) ==> r == Ok::<Option<Arc<Expr>>, KernelError>(None),
            r matches Ok(Some(x)) ==> whnf_core_shape(x@),
        decreases old(self).budget(), 1nat,
    {
        let f = Expr::get_app_fn(e);
        if f.is_proj() {
            let e_new = self.whnf_core(e, false, false)?;
            if !same_node(&e_new, e) {
                return Ok(Some(e_new));
            }
        }
        Ok(None)
    }

    /// One definition unfolded at the head of `e`, then `whnf_core`
    /// without unfolding projected structures; `e` when nothing unfolds.
    fn unfold_and_whnf(&mut self, e: &Arc<Expr>) -> (r: Result<Arc<Expr>, KernelError>)
        requires
            old(self).wf(),
        ensures
            final(self).wf(),
            final(self).keeps(*old(self)),
            delta_info(old(self).env.constants(), e@) is None ==> r == Ok::<Arc<Expr>, KernelError>(*e),
            r matches Ok(x) ==> x == *e || whnf_core_shape(x@),
        decreases old(self).budget(), 1nat,
    {
        match self.unfold_definition(e)? {
            Some(u) => self.whnf_core(&u, false, true),
            None => Ok(share(e)),
        }
    }

    /// One step of lazy delta reduction: unfold the side whose head
    /// definition is higher (both when they are the same; first trying
    /// their arguments when they are the same regular definition at
    /// equivalent levels), then try the quick cases.
    fn lazy_delta_reduction_step(&mut self, t_n: &mut Arc<Expr>, s_n: &mut Arc<Expr>) -> (r: Result<
        ReductionStatus,
        KernelError,
    >)
        requires
            old(self).wf(),
        ensures
            final(self).wf(),
            final(self).keeps(*old(self)),
            delta_info(old(self).env(), old(t_n)@) is None && delta_info(old(self).env(), old(s_n)@)
                is None ==> (r matches Ok(ReductionStatus::DefUnknown) && final(self).eqs() == old(
                self,
            ).eqs() && *final(t_n) == *old(t_n) && *final(s_n) == *old(s_n)),
        decreases old(self).budget(), 6nat,
    {
        let d_t = self.is_delta(t_n);
        let d_s = self.is_delta(s_n);
        match (d_t, d_s) {
            (None, None) => {
                return Ok(ReductionStatus::DefUnknown);
            },
            (Some(_), None) => {
                match self.try_unfold_proj_app(s_n)? {
                    Some(s_new) => {
                        *s_n = s_new;
                    },
                    None => {
                        *t_n = self.unfold_and_whnf(t_n)?;
                    },
                }
            },
            (None, Some(_)) => {
                match self.try_unfold_proj_app(t_n)? {
                    Some(t_new) => {
                        *t_n = t_new;
                    },
                    None => {
                        *s_n = self.unfold_and_whnf(s_n)?;
                    },
                }
            },
            (Some(dt), Some(ds)) => {
                let c = compare_hints(info_hints(dt), info_hints(ds));
                if c < 0 {
                    *t_n = self.unfold_and_whnf(t_n)?;
                } else if c > 0 {
                    *s_n = self.unfold_and_whnf(s_n)?;
                } else {
                    if t_n.is_app() && s_n.is_app() && dt.constant_val().name.equal(
                        &ds.constant_val().name,
                    ) && info_hints(dt).is_regular_hint() && !self.failed_before(t_n, s_n) {
                        let lt = const_levels_of_head(t_n);
                        let ls = const_levels_of_head(s_n);
                        if self.is_def_eq_levels(&lt, &ls)? && self.is_def_eq_args(t_n, s_n)? {
                            return Ok(ReductionStatus::DefEqual);
                        }
                        self.cache_failure(t_n, s_n);
                    }
                    *t_n = self.unfold_and_whnf(t_n)?;
                    *s_n = self.unfold_and_whnf(s_n)?;
                }
            },
        }
        match self.quick_is_def_eq(t_n, s_n, false)? {
            Lbool::True => Ok(ReductionStatus::DefEqual),
            Lbool::False => Ok(ReductionStatus::DefDiff),
            Lbool::Undef => Ok(ReductionStatus::Continue),
        }
    }

    /// Lazy delta reduction of `t_n` and `s_n` until they are decided
    /// equal or different, or nothing unfolds; `Nat` offsets and `Nat`
    /// literal arithmetic first. Both are left as far as they got.
    fn lazy_delta_reduction(&mut self, t_n: &mut Arc<Expr>, s_n: &mut Arc<Expr>) -> (r: Result<
        Lbool,
        KernelError,
    >)
        requires
            old(self).wf(),
        ensures
            final(self).wf(),
            final(self).keeps(*old(self)),
            delta_idle(old(self).env(), old(t_n)@, old(s_n)@) ==> (r matches Ok(x) ==> x == Lbool::Undef
                && final(self).eqs() == old(self).eqs() && final(t_n)@ == old(t_n)@ && final(s_n)@
                == old(s_n)@),
        decreases old(self).budget(), 0nat,
    {
        if self.frames.current_depth() >= MAX_REC_DEPTH {
            return Err(KernelError::DeepRecursion);
        }
        let ghost d = self.frames.depth();
        let mut st = CheckerState::new();
        std::mem::swap(&mut self.st, &mut st);
        let env = self.env;
        let names = share(&self.names);
        let t2 = share(t_n);
        let s2 = share(s_n);
        let run = move |g2: RecGuard| -> (r: Result<
            (CheckerState, Arc<Expr>, Arc<Expr>, Result<Lbool, KernelError>),
            KernelError,
        >)
            requires
                d < MAX_REC_DEPTH,
                g2.depth() == d + 1,
                st_wf(st, env.constants(), env.quot_init()),
                names.wf(),
            ensures
                r matches Ok(p) && st_wf(p.0, env.constants(), env.quot_init()) && st_keeps(p.0, st) && (
                delta_idle(env.constants(), t2@, s2@) ==> (p.3 matches Ok(x) ==> x == Lbool::Undef
                    && p.0.eqv_cache.equations() == st.eqv_cache.equations() && p.1@ == t2@ && p.2@
                    == s2@)),
            {
                let mut tc = TypeChecker { env, frames: g2, st, names };
                let mut t3 = t2;
                let mut s3 = s2;
                let res = tc.lazy_delta_reduction_frame(&mut t3, &mut s3);
                Ok((tc.st, t3, s3, res))
            };
        let (back, t4, s4, res) = match self.frames.enter(run) {
            Ok(p) => p,
            Err(err) => {
                proof {
                    assert(false);
                }
                return Err(err);
            },
        };
        self.st = back;
        *t_n = t4;
        *s_n = s4;
        res
    }

    fn lazy_delta_reduction_frame(&mut self, t_n: &mut Arc<Expr>, s_n: &mut Arc<Expr>) -> (r:
        Result<Lbool, KernelError>)
        requires
            old(self).wf(),
        ensures
            final(self).wf(),
            final(self).keeps(*old(self)),
            delta_idle(old(self).env(), old(t_n)@, old(s_n)@) ==> (r matches Ok(x) ==> x == Lbool::Undef
                && final(self).eqs() == old(self).eqs() && final(t_n)@ == old(t_n)@ && final(s_n)@
                == old(s_n)@),
        decreases old(self).budget(), 7nat,
    {
        let mut fuel: u64 = u64::MAX;
        loop
            invariant
                self.wf(),
                self.keeps(*old(self)),
                delta_idle(old(self).env(), old(t_n)@, old(s_n)@) ==> (fuel == u64::MAX && self.eqs()
                    == old(self).eqs() && *t_n == *old(t_n) && *s_n == *old(s_n)),
            decreases fuel,
        {
            if fuel == 0 {
                return Err(KernelError::DeepRecursion);
            }
            fuel = fuel - 1;
            let r = self.is_def_eq_offset(t_n, s_n)?;
            if r != Lbool::Undef {
                return Ok(r);
            }
            if !t_n.data().has_fvar() && !s_n.data().has_fvar() {
                if let Some(tv) = self.reduce_nat(t_n)? {
                    return Ok(to_lbool(self.is_def_eq_core(&tv, s_n)?));
                }
                if let Some(sv) = self.reduce_nat(s_n)? {
                    return Ok(to_lbool(self.is_def_eq_core(t_n, &sv)?));
                }
            }
            match self.lazy_delta_reduction_step(t_n, s_n)? {
                ReductionStatus::Continue => {},
                ReductionStatus::DefUnknown => {
                    return Ok(Lbool::Undef);
                },
                ReductionStatus::DefEqual => {
                    return Ok(Lbool::True);
                },
                ReductionStatus::DefDiff => {
                    return Ok(Lbool::False);
                },
            }
        }
    }

    /// Lazy delta reduction of two projections' structures; when it
    /// stalls, the projected fields (when both reduce) or the structures
    /// themselves are compared.
    fn lazy_delta_proj_reduction(&mut self, t_n: &mut Arc<Expr>, s_n: &mut Arc<Expr>, idx: &Nat) -> (r:
        Result<bool, KernelError>)
        requires
            old(self).wf(),
        ensures
            final(self).wf(),
            final(self).keeps(*old(self)),
        decreases old(self).budget(), 7nat,
    {
        let mut fuel: u64 = u64::MAX;
        loop
            invariant
                self.wf(),
                self.keeps(*old(self)),
            decreases fuel,
        {
            if fuel == 0 {
                return Err(KernelError::DeepRecursion);
            }
            fuel = fuel - 1;
            match self.lazy_delta_reduction_step(t_n, s_n)? {
                ReductionStatus::Continue => {},
                ReductionStatus::DefEqual => {
                    return Ok(true);
                },
                ReductionStatus::DefUnknown | ReductionStatus::DefDiff => {
                    if let Some(i) = idx.to_usize() {
                        if let Some(t) = self.reduce_proj_core(t_n, i)? {
                            if let Some(s) = self.reduce_proj_core(s_n, i)? {
                                return self.is_def_eq_core(&t, &s);
                            }
                        }
                    }
                    return self.is_def_eq_core(t_n, s_n);
                },
            }
        }
    }

    /// Two zeros, or two successors (of literals or `Nat.succ`
    /// applications) compared by their predecessors.
    fn is_def_eq_offset(&mut self, t: &Arc<Expr>, s: &Arc<Expr>) -> (r: Result<Lbool, KernelError>)
        requires
            old(self).wf(),
        ensures
            final(self).wf(),
            final(self).keeps(*old(self)),
            nat_zero_spec(old(self).names.nat_zero@, t@) && nat_zero_spec(old(self).names.nat_zero@, s@)
                ==> r == Ok::<Lbool, KernelError>(Lbool::True),
            !(nat_zero_spec(old(self).names.nat_zero@, t@) && nat_zero_spec(old(self).names.nat_zero@, s@))
                && !(nat_pred(old(self).names.nat_succ@, t@) is Some && nat_pred(
                old(self).names.nat_succ@,
                s@,
            ) is Some) ==> r == Ok::<Lbool, KernelError>(Lbool::Undef),
            r matches Ok(x) ==> (nat_pred(old(self).names.nat_succ@, t@) is Some && nat_pred(
                old(self).names.nat_succ@,
                t@,
            ) == nat_pred(old(self).names.nat_succ@, s@) ==> x == Lbool::True),
            t@ is Const && s@ is Const && t@->Const_0 != sname2("Nat"@, "zero"@) ==> (r matches Ok(x)
                ==> x == Lbool::Undef && final(self).eqs() == old(self).eqs()),
        decreases old(self).budget(), 1nat,
    {
        if self.is_nat_zero(t) && self.is_nat_zero(s) {
            return Ok(Lbool::True);
        }
        let pred_t = self.is_nat_succ(t);
        let pred_s = self.is_nat_succ(s);
        match (pred_t, pred_s) {
            (Some(pt), Some(ps)) => Ok(to_lbool(self.is_def_eq_core(&pt, &ps)?)),
            _ => Ok(Lbool::Undef),
        }
    }

    /// `Nat.zero` or the literal `0`.
    fn is_nat_zero(&self, t: &Arc<Expr>) -> (r: bool)
        ensures
            r == ((t@ matches SExpr::Const(n, _) && n == self.names.nat_zero@) || t@ == SExpr::Lit(
                SLiteral::NatVal(0),
            )),
    {
        if is_const_named(t, &self.names.nat_zero) {
            return true;
        }
        match t.node() {
            ExprNode::Lit(Literal::NatVal(v)) => v.is_zero(),
            _ => false,
        }
    }

    /// The predecessor of a positive literal or of `Nat.succ n`.
    fn is_nat_succ(&self, t: &Arc<Expr>) -> (r: Option<Arc<Expr>>)
        ensures
            match nat_pred(self.names.nat_succ@, t@) {
                Some(p) => r matches Some(x) && x@ == p,
                None => r is None,
            },
    {
        if let ExprNode::Lit(Literal::NatVal(v)) = t.node() {
            if !v.is_zero() {
                return Some(Expr::lit(Literal::NatVal(v.sub(&Nat::from_u64(1)))));
            }
        }
        if is_const_named(Expr::get_app_fn(t), &self.names.nat_succ) && Self::few_args(t) == 1 {
            if let ExprNode::App { arg, .. } = t.node() {
                return Some(share(arg));
            }
        }
        None
    }

    /// Eta for functions, in both orders.
    fn try_eta_expansion(&mut self, t: &Arc<Expr>, s: &Arc<Expr>) -> (r: Result<bool, KernelError>)
        requires
            old(self).wf(),
        ensures
            final(self).wf(),
            final(self).keeps(*old(self)),
            !(t@ is Lam && !(s@ is Lam)) && !(s@ is Lam && !(t@ is Lam)) ==> r == Ok::<
                bool,
                KernelError,
            >(false),
        decreases old(self).budget(), 3nat,
    {
        if self.try_eta_expansion_core(t, s)? {
            return Ok(true);
        }
        self.try_eta_expansion_core(s, t)
    }

    /// A lambda `t` against a non-lambda `s` of a function type: `t`
    /// against `fun x => s x`.
    fn try_eta_expansion_core(&mut self, t: &Arc<Expr>, s: &Arc<Expr>) -> (r: Result<
        bool,
        KernelError,
    >)
        requires
            old(self).wf(),
        ensures
            final(self).wf(),
            final(self).keeps(*old(self)),
            !(t@ is Lam && !(s@ is Lam)) ==> r == Ok::<bool, KernelError>(false),
        decreases old(self).budget(), 2nat,
    {
        if !t.is_lambda() || s.is_lambda() {
            return Ok(false);
        }
        let st = self.infer_type(s)?;
        let s_type = self.whnf(&st)?;
        let (bn, dom, bi) = match s_type.node() {
            ExprNode::ForallE { binder_name, binder_type, binder_info, .. } => (
                share(binder_name),
                share(binder_type),
                *binder_info,
            ),
            _ => {
                return Ok(false);
            },
        };
        let body = Expr::app(share(s), Expr::bvar(Nat::from_u64(0)));
        let new_s = Expr::lam(bn, dom, body, bi);
        self.is_def_eq(t, &new_s)
    }

    /// Eta for structures, in both orders.
    fn try_eta_struct(&mut self, t: &Arc<Expr>, s: &Arc<Expr>) -> (r: Result<bool, KernelError>)
        requires
            old(self).wf(),
        ensures
            final(self).wf(),
            final(self).keeps(*old(self)),
            !ctor_head(old(self).env.constants(), s@) && !ctor_head(old(self).env.constants(), t@)
                ==> r == Ok::<bool, KernelError>(false),
        decreases old(self).budget(), 3nat,
    {
        if self.try_eta_struct_core(t, s)? {
            return Ok(true);
        }
        self.try_eta_struct_core(s, t)
    }

    /// `s` a full application of a structure-like constructor, of the
    /// same type as `t`: each field against the projection of `t`.
    fn try_eta_struct_core(&mut self, t: &Arc<Expr>, s: &Arc<Expr>) -> (r: Result<
        bool,
        KernelError,
    >)
        requires
            old(self).wf(),
        ensures
            final(self).wf(),
            final(self).keeps(*old(self)),
            !ctor_head(old(self).env.constants(), s@) ==> r == Ok::<bool, KernelError>(false),
        decreases old(self).budget(), 2nat,
    {
        let f = Expr::get_app_fn(s);
        let fname = match f.node() {
            ExprNode::Const { name, .. } => name,
            _ => {
                return Ok(false);
            },
        };
        let env = self.env;
        let (nparams, nfields, induct) = match env.get(fname) {
            Some(ConstantInfo::Ctor(v)) => (
                v.num_params.to_usize(),
                v.num_fields.to_usize(),
                share(&v.induct),
            ),
            _ => {
                return Ok(false);
            },
        };
        let (nparams, nfields) = match (nparams, nfields) {
            (Some(p), Some(f)) => (p, f),
            _ => {
                return Ok(false);
            },
        };
        proof {
            assert(ctor_head(old(self).env.constants(), s@));
        }
        let s_args = Expr::get_app_args(s);
        if nparams > s_args.len() || s_args.len() - nparams != nfields {
            return Ok(false);
        }
        if !self.env.is_structure_like(&induct) {
            return Ok(false);
        }
        let tt = self.infer_type(t)?;
        let ss = self.infer_type(s)?;
        if !self.is_def_eq(&tt, &ss)? {
            return Ok(false);
        }
        let mut i: usize = nparams;
        while i < s_args.len()
            invariant
                self.wf(),
                self.keeps(*old(self)),
                nparams <= i,
                ctor_head(old(self).env.constants(), s@),
            decreases s_args@.len() - i,
        {
            let proj = Expr::proj(share(&induct), Nat::from_u64((i - nparams) as u64), share(t));
            if !self.is_def_eq(&proj, &s_args[i])? {
                return Ok(false);
            }
            i = i + 1;
        }
        Ok(true)
    }

    /// A string literal against `String.ofList _`, in both orders.
    fn try_string_lit_expansion(&mut self, t: &Arc<Expr>, s: &Arc<Expr>) -> (r: Result<
        Lbool,
        KernelError,
    >)
        requires
            old(self).wf(),
        ensures
            final(self).wf(),
            final(self).keeps(*old(self)),
            !string_vs_mk(old(self).names.string_mk@, t@, s@) && !string_vs_mk(
                old(self).names.string_mk@,
                s@,
                t@,
            ) ==> r == Ok::<Lbool, KernelError>(Lbool::Undef),
        decreases old(self).budget(), 2nat,
    {
        let r = self.try_string_lit_expansion_core(t, s)?;
        if r != Lbool::Undef {
            return Ok(r);
        }
        self.try_string_lit_expansion_core(s, t)
    }

    /// A string literal `t` against `String.ofList _`: its constructor
    /// form against `s`.
    fn try_string_lit_expansion_core(&mut self, t: &Arc<Expr>, s: &Arc<Expr>) -> (r: Result<
        Lbool,
        KernelError,
    >)
        requires
            old(self).wf(),
        ensures
            final(self).wf(),
            final(self).keeps(*old(self)),
            !string_vs_mk(old(self).names.string_mk@, t@, s@) ==> r == Ok::<Lbool, KernelError>(
                Lbool::Undef,
            ),
        decreases old(self).budget(), 1nat,
    {
        if let ExprNode::Lit(Literal::StrVal(str_val)) = t.node() {
            if s.is_app() && is_const_named(Expr::get_app_fn(s), &self.names.string_mk) {
                let ctor = string_lit_to_constructor(str_val.as_str(), &mut self.st.guard)?;
                let w = self.whnf(&ctor)?;
                return Ok(to_lbool(self.is_def_eq_core(&w, s)?));
            }
        }
        Ok(Lbool::Undef)
    }

    /// Two terms of a structure-like type without fields are equal when
    /// their types are.
    fn is_def_eq_unit_like(&mut self, t: &Arc<Expr>, s: &Arc<Expr>) -> (r: Result<
        bool,
        KernelError,
    >)
        requires
            old(self).wf(),
        ensures
            final(self).wf(),
            final(self).keeps(*old(self)),
            const_in_scope(old(self).env(), t@) && const_type(old(self).env(), t@) is Sort ==> (r matches Ok(
                x,
            ) ==> !x),
        decreases old(self).budget(), 2nat,
    {
        let tt = self.infer_type(t)?;
        proof {
            if const_in_scope(self.env.constants(), t@) {
                reveal(inferred_shape);
                let c = lookup(self.env.constants(), t@->Const_0)->Some_0;
                crate::subst::lemma_lparams_nothing(
                    c.spec_constant_val().ty@,
                    names_view(c.spec_constant_val().level_params@),
                    t@->Const_1,
                );
            }
        }
        let t_type = self.whnf(&tt)?;
        let i = Expr::get_app_fn(&t_type);
        let i_name = match i.node() {
            ExprNode::Const { name, .. } => share(name),
            _ => {
                return Ok(false);
            },
        };
        if !self.env.is_structure_like(&i_name) {
            return Ok(false);
        }
        let ctor_name = match self.first_cnstr(&i_name) {
            Some(c) => c,
            None => {
                return Ok(false);
            },
        };
        let env = self.env;
        let nfields = match env.get(&ctor_name) {
            Some(ConstantInfo::Ctor(v)) => v.num_fields.to_usize(),
            _ => {
                return Ok(false);
            },
        };
        match nfields {
            Some(0) => {},
            _ => {
                return Ok(false);
            },
        }
        let st = self.infer_type(s)?;
        self.is_def_eq_core(&t_type, &st)
    }

    fn is_def_eq_core(&mut self, t: &Arc<Expr>, s: &Arc<Expr>) -> (r: Result<bool, KernelError>)
        requires
            old(self).wf(),
        ensures
            final(self).wf(),
            final(self).keeps(*old(self)),
            r matches Ok(x) ==> (t@ == s@ ==> x),
            t@ == s@ && old(self).depth() < MAX_REC_DEPTH && expr_height(t@) < MAX_REC_DEPTH ==> r
                == Ok::<bool, KernelError>(true),
            rigid_pair(old(self).env(), old(self).quot_init(), t@, s@) && !entails(
                old(self).eqs(),
                t@,
                s@,
            ) ==> (r matches Ok(x) ==> !x),
            sorts_equivalent(t@, s@) ==> (r matches Ok(x) ==> x),
            old(self).depth() < MAX_REC_DEPTH && sorts_equivalent(t@, s@) && sorts_small(t@, s@) ==> r
                == Ok::<bool, KernelError>(true),
        decreases old(self).budget(), 0nat,
    {
        if self.frames.current_depth() >= MAX_REC_DEPTH {
            return Err(KernelError::DeepRecursion);
        }
        let ghost d = self.frames.depth();
        let mut st = CheckerState::new();
        std::mem::swap(&mut self.st, &mut st);
        let env = self.env;
        let names = share(&self.names);
        let t2 = share(t);
        let s2 = share(s);
        let run = move |g2: RecGuard| -> (r: Result<
            (CheckerState, Result<bool, KernelError>),
            KernelError,
        >)
            requires
                d < MAX_REC_DEPTH,
                g2.depth() == d + 1,
                st_wf(st, env.constants(), env.quot_init()),
                names.wf(),
            ensures
                r matches Ok(p) && st_wf(p.0, env.constants(), env.quot_init()) && st_keeps(p.0, st) && (p.1 matches Ok(
                    x,
                ) ==> (t2@ == s2@ ==> x)) && (t2@ == s2@ && expr_height(t2@) < MAX_REC_DEPTH ==> p.1
                    == Ok::<bool, KernelError>(true)) && (rigid_pair(
                    env.constants(),
                    env.quot_init(),
                    t2@,
                    s2@,
                ) && !entails(st.eqv_cache.equations(), t2@, s2@) ==> (p.1 matches Ok(x) ==> !x)) && (
                sorts_equivalent(t2@, s2@) ==> (p.1 matches Ok(x) ==> x)) && (sorts_equivalent(t2@, s2@)
                    && sorts_small(t2@, s2@) ==> p.1 == Ok::<bool, KernelError>(true)),
            {
                let mut tc = TypeChecker { env, frames: g2, st, names };
                let res = tc.is_def_eq_frame(&t2, &s2);
                Ok((tc.st, res))
            };
        let (back, res) = match self.frames.enter(run) {
            Ok(p) => p,
            Err(err) => {
                proof {
                    assert(false);
                }
                return Err(err);
            },
        };
        self.st = back;
        res
    }

    /// The quick cases; `Bool.true` by evaluation; the quick cases again
    /// after `whnf_core`; proof irrelevance; lazy delta reduction; equal
    /// constants, locals or projections; the quick cases after full
    /// `whnf_core`; congruence of applications; eta for functions and
    /// structures; string literals; unit-like types.
    #[verifier::rlimit(80)]
    fn is_def_eq_frame(&mut self, t: &Arc<Expr>, s: &Arc<Expr>) -> (r: Result<bool, KernelError>)
        requires
            old(self).wf(),
        ensures
            final(self).wf(),
            final(self).keeps(*old(self)),
            r matches Ok(x) ==> (t@ == s@ ==> x),
            t@ == s@ && expr_height(t@) < MAX_REC_DEPTH ==> r == Ok::<bool, KernelError>(true),
            rigid_pair(old(self).env(), old(self).env.quot_init(), t@, s@) && !entails(
                old(self).eqs(),
                t@,
                s@,
            ) ==> (r matches Ok(x) ==> !x),
            sorts_equivalent(t@, s@) ==> (r matches Ok(x) ==> x),
            sorts_equivalent(t@, s@) && sorts_small(t@, s@) ==> r == Ok::<bool, KernelError>(true),
        decreases old(self).budget(), 8nat,
    {
        let ghost rig = rigid_pair(self.env.constants(), self.env.quot_init(), t@, s@) && !entails(
            self.st.eqv_cache.equations(),
            t@,
            s@,
        );
        let ghost e0 = self.st.eqv_cache.equations();
        proof {
            if rig {
                assert(stuck_core(self.env.constants(), self.env.quot_init(), t@));
                assert(stuck_core(self.env.constants(), self.env.quot_init(), s@));
                assert(t@->Const_1.len() == 0 && s@->Const_1.len() == 0);
                assert(t@->Const_1 =~= s@->Const_1);
                assert(t@->Const_0 != s@->Const_0);
            }
        }
        let r = self.quick_is_def_eq(t, s, true)?;
        if r != Lbool::Undef {
            return Ok(r == Lbool::True);
        }
        if !t.data().has_fvar() && is_const_named(s, &self.names.bool_true) {
            let wt = self.whnf(t)?;
            if is_const_named(&wt, &self.names.bool_true) {
                return Ok(true);
            }
        }
        let mut t_n = self.whnf_core(t, false, true)?;
        let mut s_n = self.whnf_core(s, false, true)?;
        if !same_node(&t_n, t) || !same_node(&s_n, s) {
            let r = self.quick_is_def_eq(&t_n, &s_n, false)?;
            if r != Lbool::Undef {
                return Ok(r == Lbool::True);
            }
        }
        let r = self.is_def_eq_proof_irrel(&t_n, &s_n)?;
        if r != Lbool::Undef {
            return Ok(r == Lbool::True);
        }
        let r = self.lazy_delta_reduction(&mut t_n, &mut s_n)?;
        if r != Lbool::Undef {
            return Ok(r == Lbool::True);
        }
        let const_heads = match (t_n.node(), s_n.node()) {
            (ExprNode::Const { name: nt, levels: lt }, ExprNode::Const { name: ns, levels: ls }) => {
                if nt.equal(ns) {
                    Some((const_levels_of_head(&t_n), const_levels_of_head(&s_n)))
                } else {
                    None
                }
            },
            _ => None,
        };
        if let Some((lt, ls)) = const_heads {
            if self.is_def_eq_levels(&lt, &ls)? {
                return Ok(true);
            }
        }
        match (t_n.node(), s_n.node()) {
            (ExprNode::FVar { id: it }, ExprNode::FVar { id: is }) => {
                if it.equal(is) {
                    return Ok(true);
                }
            },
            _ => {},
        }
        let projs = match (t_n.node(), s_n.node()) {
            (
                ExprNode::Proj { idx: ix_t, structure: ct, .. },
                ExprNode::Proj { idx: ix_s, structure: cs, .. },
            ) => {
                if ix_t.beq(ix_s) {
                    Some((ix_t.clone(), share(ct), share(cs)))
                } else {
                    None
                }
            },
            _ => None,
        };
        if let Some((idx, ct, cs)) = projs {
            let mut tc = ct;
            let mut sc = cs;
            if self.lazy_delta_proj_reduction(&mut tc, &mut sc, &idx)? {
                return Ok(true);
            }
        }
        let t_n_n = self.whnf_core(&t_n, false, false)?;
        let s_n_n = self.whnf_core(&s_n, false, false)?;
        if !same_node(&t_n_n, &t_n) || !same_node(&s_n_n, &s_n) {
            return self.is_def_eq_core(&t_n_n, &s_n_n);
        }
        if self.is_def_eq_app(&t_n, &s_n)? {
            return Ok(true);
        }
        if self.try_eta_expansion(&t_n, &s_n)? {
            return Ok(true);
        }
        if self.try_eta_struct(&t_n, &s_n)? {
            return Ok(true);
        }
        let r = self.try_string_lit_expansion(&t_n, &s_n)?;
        if r != Lbool::Undef {
            return Ok(r == Lbool::True);
        }
        if self.is_def_eq_unit_like(&t_n, &s_n)? {
            return Ok(true);
        }
        Ok(false)
    }
}

} // verus!
