//! What the cached data word of an expression means, and how application
//! spines come apart and go back together.
use crate::expr::{
    app_args, app_fn, expr_fields, levels_have_mvar, levels_have_param, max_nat, mk_spine, SExpr,
    LOOSE_BVAR_SAT,
};
use crate::level::{spec_has_mvar, spec_has_param};
use vstd::prelude::*;

verus! {

/// Whether a free variable occurs in `e`.
pub open spec fn expr_has_fvar(e: SExpr) -> bool
    decreases e,
{
    match e {
        SExpr::FVar(_) => true,
        SExpr::App(f, a) => expr_has_fvar(*f) || expr_has_fvar(*a),
        SExpr::Lam(_, t, b, _) => expr_has_fvar(*t) || expr_has_fvar(*b),
        SExpr::ForallE(_, t, b, _) => expr_has_fvar(*t) || expr_has_fvar(*b),
        SExpr::LetE(_, t, v, b, _) => expr_has_fvar(*t) || expr_has_fvar(*v) || expr_has_fvar(*b),
        SExpr::MData(_, x) => expr_has_fvar(*x),
        SExpr::Proj(_, _, x) => expr_has_fvar(*x),
        _ => false,
    }
}

/// Whether an expression metavariable occurs in `e`.
pub open spec fn expr_has_expr_mvar(e: SExpr) -> bool
    decreases e,
{
    match e {
        SExpr::MVar(_) => true,
        SExpr::App(f, a) => expr_has_expr_mvar(*f) || expr_has_expr_mvar(*a),
        SExpr::Lam(_, t, b, _) => expr_has_expr_mvar(*t) || expr_has_expr_mvar(*b),
        SExpr::ForallE(_, t, b, _) => expr_has_expr_mvar(*t) || expr_has_expr_mvar(*b),
        SExpr::LetE(_, t, v, b, _) => expr_has_expr_mvar(*t) || expr_has_expr_mvar(*v)
            || expr_has_expr_mvar(*b),
        SExpr::MData(_, x) => expr_has_expr_mvar(*x),
        SExpr::Proj(_, _, x) => expr_has_expr_mvar(*x),
        _ => false,
    }
}

/// Whether a universe metavariable occurs in `e`.
pub open spec fn expr_has_level_mvar(e: SExpr) -> bool
    decreases e,
{
    match e {
        SExpr::Sort(l) => spec_has_mvar(l),
        SExpr::Const(_, ls) => levels_have_mvar(ls),
        SExpr::App(f, a) => expr_has_level_mvar(*f) || expr_has_level_mvar(*a),
        SExpr::Lam(_, t, b, _) => expr_has_level_mvar(*t) || expr_has_level_mvar(*b),
        SExpr::ForallE(_, t, b, _) => expr_has_level_mvar(*t) || expr_has_level_mvar(*b),
        SExpr::LetE(_, t, v, b, _) => expr_has_level_mvar(*t) || expr_has_level_mvar(*v)
            || expr_has_level_mvar(*b),
        SExpr::MData(_, x) => expr_has_level_mvar(*x),
        SExpr::Proj(_, _, x) => expr_has_level_mvar(*x),
        _ => false,
    }
}

/// Whether a universe parameter occurs in `e`.
pub open spec fn expr_has_level_param(e: SExpr) -> bool
    decreases e,
{
    match e {
        SExpr::Sort(l) => spec_has_param(l),
        SExpr::Const(_, ls) => levels_have_param(ls),
        SExpr::App(f, a) => expr_has_level_param(*f) || expr_has_level_param(*a),
        SExpr::Lam(_, t, b, _) => expr_has_level_param(*t) || expr_has_level_param(*b),
        SExpr::ForallE(_, t, b, _) => expr_has_level_param(*t) || expr_has_level_param(*b),
        SExpr::LetE(_, t, v, b, _) => expr_has_level_param(*t) || expr_has_level_param(*v)
            || expr_has_level_param(*b),
        SExpr::MData(_, x) => expr_has_level_param(*x),
        SExpr::Proj(_, _, x) => expr_has_level_param(*x),
        _ => false,
    }
}

/// One less, floored at zero.
pub open spec fn pred(n: nat) -> nat {
    if n == 0 {
        0
    } else {
        (n - 1) as nat
    }
}

/// One more than the largest loose bound variable index in `e`, or zero
/// when `e` has none: `#i` counts `i + 1`, and each binder that `#i`
/// sits under closes one level.
pub open spec fn loose_range(e: SExpr) -> nat
    decreases e,
{
    match e {
        SExpr::BVar(i) => i + 1,
        SExpr::App(f, a) => max_nat(loose_range(*f), loose_range(*a)),
        SExpr::Lam(_, t, b, _) => max_nat(loose_range(*t), pred(loose_range(*b))),
        SExpr::ForallE(_, t, b, _) => max_nat(loose_range(*t), pred(loose_range(*b))),
        SExpr::LetE(_, t, v, b, _) => max_nat(
            max_nat(loose_range(*t), loose_range(*v)),
            pred(loose_range(*b)),
        ),
        SExpr::MData(_, x) => loose_range(*x),
        SExpr::Proj(_, _, x) => loose_range(*x),
        _ => 0,
    }
}

/// The four cached flags say exactly whether a free variable, an
/// expression metavariable, a universe metavariable or a universe
/// parameter occurs in the expression.
pub proof fn lemma_flags_exact(e: SExpr)
    ensures
        expr_fields(e).has_fvar == expr_has_fvar(e),
        expr_fields(e).has_expr_mvar == expr_has_expr_mvar(e),
        expr_fields(e).has_level_mvar == expr_has_level_mvar(e),
        expr_fields(e).has_level_param == expr_has_level_param(e),
    decreases e,
{
    match e {
        SExpr::App(f, a) => {
            lemma_flags_exact(*f);
            lemma_flags_exact(*a);
        },
        SExpr::Lam(_, t, b, _) => {
            lemma_flags_exact(*t);
            lemma_flags_exact(*b);
        },
        SExpr::ForallE(_, t, b, _) => {
            lemma_flags_exact(*t);
            lemma_flags_exact(*b);
        },
        SExpr::LetE(_, t, v, b, _) => {
            lemma_flags_exact(*t);
            lemma_flags_exact(*v);
            lemma_flags_exact(*b);
        },
        SExpr::MData(_, x) => {
            lemma_flags_exact(*x);
        },
        SExpr::Proj(_, _, x) => {
            lemma_flags_exact(*x);
        },
        _ => {},
    }
}

/// The cached range never exceeds the saturation value, and below it the
/// range is exact: it is the loose range of the expression. Above, it
/// bounds nothing.
pub proof fn lemma_range_exact(e: SExpr)
    ensures
        expr_fields(e).range <= LOOSE_BVAR_SAT,
        expr_fields(e).range < LOOSE_BVAR_SAT ==> expr_fields(e).range == loose_range(e),
    decreases e,
{
    match e {
        SExpr::App(f, a) => {
            lemma_range_exact(*f);
            lemma_range_exact(*a);
        },
        SExpr::Lam(_, t, b, _) => {
            lemma_range_exact(*t);
            lemma_range_exact(*b);
        },
        SExpr::ForallE(_, t, b, _) => {
            lemma_range_exact(*t);
            lemma_range_exact(*b);
        },
        SExpr::LetE(_, t, v, b, _) => {
            lemma_range_exact(*t);
            lemma_range_exact(*v);
            lemma_range_exact(*b);
        },
        SExpr::MData(_, x) => {
            lemma_range_exact(*x);
        },
        SExpr::Proj(_, _, x) => {
            lemma_range_exact(*x);
        },
        _ => {},
    }
}

/// Splitting an expression into the head and the arguments of its
/// application spine, and applying the head to the arguments again, gives
/// the expression back.
pub proof fn lemma_spine_roundtrip(e: SExpr)
    ensures
        mk_spine(app_fn(e), app_args(e)) == e,
    decreases e,
{
    if let SExpr::App(f, a) = e {
        lemma_spine_roundtrip(*f);
        assert(app_args(e).drop_last() =~= app_args(*f));
    }
}

/// Applying `f` to `args` extends `f`'s spine by `args` and keeps its
/// head.
pub proof fn lemma_spine_of_mk(f: SExpr, args: Seq<SExpr>)
    ensures
        app_fn(mk_spine(f, args)) == app_fn(f),
        app_args(mk_spine(f, args)) == app_args(f) + args,
    decreases args.len(),
{
    if args.len() == 0 {
        assert(app_args(f) + args =~= app_args(f));
    } else {
        lemma_spine_of_mk(f, args.drop_last());
        assert(app_args(f) + args =~= (app_args(f) + args.drop_last()).push(args.last()));
    }
}

} // verus!
