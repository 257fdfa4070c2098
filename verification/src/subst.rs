//! Substitution: `instantiate`/`instantiate_rev` (replace loose bound
//! variables by terms), `lift_loose_bvars` (shift loose bound variables
//! up), `abstract_fvars` (turn free variables into loose bound variables)
//! and `instantiate_level_params` (substitute universe parameters).
//!
//! Each walk threads an `offset`: the number of binders crossed so far,
//! one more for the body of a `Lam`, `ForallE` or `LetE` (never for a
//! binder's type nor a `let` value). A subtree whose cached range is
//! exact and at most the cutoff holds no bound variable the walk could
//! touch and is returned as it is; so is a subtree without free variables
//! (for `abstract_fvars`) or without universe parameters (for
//! `instantiate_level_params`). Unchanged subtrees are shared, not
//! copied.
//!
//! Cutoffs are 32-bit: where `s + offset` leaves that range, the walk
//! leaves the subtree unchanged, and the specifications say so.
use crate::error::KernelError;
use crate::expr::{
    exprs_view, expr_fields, lemma_expr_view, lemma_node_view, max_nat, node_view, rebuild1,
    rebuild2, rebuild3, with_child, with_children2, with_children3, Expr, ExprNode, SExpr,
};
use crate::expr_laws::{expr_has_fvar, expr_has_level_param, lemma_flags_exact, lemma_range_exact, loose_range, pred};
use crate::guard::{RecGuard, MAX_REC_DEPTH};
use crate::level::{
    lemma_inst_height, level_height, levels_view, names_view, spec_has_param, spec_inst, Level, SLevel,
};
use crate::name::{Name, NameComp};
use crate::num::Nat;
use crate::shared::{same_node, share};
use std::sync::Arc;
use vstd::prelude::*;

verus! {

broadcast use {lemma_expr_view, lemma_node_view};

// ---------------------------------------------------------------------
// Specifications.
// ---------------------------------------------------------------------

/// The guard frames a walk over `e` needs: one per node with children
/// expressions.
pub open spec fn tree_height(e: SExpr) -> nat
    decreases e,
{
    match e {
        SExpr::App(f, a) => 1 + max_nat(tree_height(*f), tree_height(*a)),
        SExpr::Lam(_, t, b, _) => 1 + max_nat(tree_height(*t), tree_height(*b)),
        SExpr::ForallE(_, t, b, _) => 1 + max_nat(tree_height(*t), tree_height(*b)),
        SExpr::LetE(_, t, v, b, _) => 1 + max_nat(
            max_nat(tree_height(*t), tree_height(*v)),
            tree_height(*b),
        ),
        SExpr::MData(_, x) => 1 + tree_height(*x),
        SExpr::Proj(_, _, x) => 1 + tree_height(*x),
        _ => 0,
    }
}

/// Whether a walk over `e` fits under the guard's cap.
pub open spec fn tree_fits(g: RecGuard, e: SExpr) -> bool {
    g.depth() + tree_height(e) <= MAX_REC_DEPTH
}

/// `e` with every loose bound variable `#i` with `i >= c` raised to
/// `#(i + d)`; unchanged once the cutoff `c` leaves 32 bits.
pub open spec fn lift_spec(e: SExpr, c: nat, d: nat) -> SExpr
    decreases e,
{
    if c > u32::MAX {
        e
    } else {
        match e {
            SExpr::BVar(i) => if i >= c {
                SExpr::BVar(i + d)
            } else {
                e
            },
            SExpr::App(f, a) => SExpr::App(
                Box::new(lift_spec(*f, c, d)),
                Box::new(lift_spec(*a, c, d)),
            ),
            SExpr::Lam(n, t, b, bi) => SExpr::Lam(
                n,
                Box::new(lift_spec(*t, c, d)),
                Box::new(lift_spec(*b, c + 1, d)),
                bi,
            ),
            SExpr::ForallE(n, t, b, bi) => SExpr::ForallE(
                n,
                Box::new(lift_spec(*t, c, d)),
                Box::new(lift_spec(*b, c + 1, d)),
                bi,
            ),
            SExpr::LetE(n, t, v, b, nd) => SExpr::LetE(
                n,
                Box::new(lift_spec(*t, c, d)),
                Box::new(lift_spec(*v, c, d)),
                Box::new(lift_spec(*b, c + 1, d)),
                nd,
            ),
            SExpr::MData(m, x) => SExpr::MData(m, Box::new(lift_spec(*x, c, d))),
            SExpr::Proj(n, i, x) => SExpr::Proj(n, i, Box::new(lift_spec(*x, c, d))),
            _ => e,
        }
    }
}

/// Nothing to lift below the loose range.
pub proof fn lemma_lift_closed(e: SExpr, c: nat, d: nat)
    requires
        loose_range(e) <= c,
    ensures
        lift_spec(e, c, d) == e,
    decreases e,
{
    if c <= u32::MAX {
        match e {
            SExpr::App(f, a) => {
                lemma_lift_closed(*f, c, d);
                lemma_lift_closed(*a, c, d);
            },
            SExpr::Lam(_, t, b, _) => {
                lemma_lift_closed(*t, c, d);
                lemma_lift_closed(*b, c + 1, d);
            },
            SExpr::ForallE(_, t, b, _) => {
                lemma_lift_closed(*t, c, d);
                lemma_lift_closed(*b, c + 1, d);
            },
            SExpr::LetE(_, t, v, b, _) => {
                lemma_lift_closed(*t, c, d);
                lemma_lift_closed(*v, c, d);
                lemma_lift_closed(*b, c + 1, d);
            },
            SExpr::MData(_, x) => {
                lemma_lift_closed(*x, c, d);
            },
            SExpr::Proj(_, _, x) => {
                lemma_lift_closed(*x, c, d);
            },
            _ => {},
        }
    }
}

/// Lifting by zero changes nothing.
pub proof fn lemma_lift_zero(e: SExpr, c: nat)
    ensures
        lift_spec(e, c, 0) == e,
    decreases e,
{
    if c <= u32::MAX {
        match e {
            SExpr::App(f, a) => {
                lemma_lift_zero(*f, c);
                lemma_lift_zero(*a, c);
            },
            SExpr::Lam(_, t, b, _) => {
                lemma_lift_zero(*t, c);
                lemma_lift_zero(*b, c + 1);
            },
            SExpr::ForallE(_, t, b, _) => {
                lemma_lift_zero(*t, c);
                lemma_lift_zero(*b, c + 1);
            },
            SExpr::LetE(_, t, v, b, _) => {
                lemma_lift_zero(*t, c);
                lemma_lift_zero(*v, c);
                lemma_lift_zero(*b, c + 1);
            },
            SExpr::MData(_, x) => {
                lemma_lift_zero(*x, c);
            },
            SExpr::Proj(_, _, x) => {
                lemma_lift_zero(*x, c);
            },
            _ => {},
        }
    }
}

// ---------------------------------------------------------------------
// lift_loose_bvars
// ---------------------------------------------------------------------

/// Raises every loose bound variable `#i` with `i >= s` to `#(i + d)`.
pub fn lift_loose_bvars(e: &Arc<Expr>, s: u32, d: u32, g: &mut RecGuard) -> (r: Result<
    Arc<Expr>,
    KernelError,
>)
    ensures
        *final(g) == *old(g),
        r matches Ok(x) ==> x@ == lift_spec(e@, s as nat, d as nat),
        r matches Err(err) ==> err is DeepRecursion,
        tree_fits(*old(g), e@) ==> r is Ok,
{
    if d == 0 {
        proof {
            lemma_lift_zero(e@, s as nat);
        }
        return Ok(share(e));
    }
    lift_go(e, s, 0, d, g)
}

fn lift_go(e: &Arc<Expr>, s: u32, offset: u32, d: u32, g: &mut RecGuard) -> (r: Result<
    Arc<Expr>,
    KernelError,
>)
    requires
        offset <= old(g).depth(),
    ensures
        *final(g) == *old(g),
        r matches Ok(x) ==> x@ == lift_spec(e@, (s + offset) as nat, d as nat),
        r matches Err(err) ==> err is DeepRecursion,
        tree_fits(*old(g), e@) ==> r is Ok,
    decreases tree_height(e@), 1nat,
{
    let s1 = match s.checked_add(offset) {
        Some(v) => v,
        None => {
            return Ok(share(e));
        },
    };
    if let Some(range) = e.data().loose_bvar_range_exact() {
        if range <= s1 {
            proof {
                lemma_range_exact(e@);
                lemma_lift_closed(e@, s1 as nat, d as nat);
            }
            return Ok(share(e));
        }
    }
    let _ = g.current_depth();
    match &(**e).node {
        ExprNode::BVar { idx } => {
            let c = Nat::from_u64(s1 as u64);
            if c.ble(idx) {
                let dn = Nat::from_u64(d as u64);
                Ok(Expr::bvar(idx.add(&dn)))
            } else {
                Ok(share(e))
            }
        },
        ExprNode::App { f, arg } => {
            let (x, y) = lift_two(share(f), share(arg), s, offset, offset, d, g)?;
            Ok(rebuild2(e, x, y))
        },
        ExprNode::Lam { binder_type, body, .. } => {
            let (x, y) = lift_two(share(binder_type), share(body), s, offset, offset + 1, d, g)?;
            Ok(rebuild2(e, x, y))
        },
        ExprNode::ForallE { binder_type, body, .. } => {
            let (x, y) = lift_two(share(binder_type), share(body), s, offset, offset + 1, d, g)?;
            Ok(rebuild2(e, x, y))
        },
        ExprNode::LetE { ty, value, body, .. } => {
            let (x, y, z) = lift_three(share(ty), share(value), share(body), s, offset, d, g)?;
            Ok(rebuild3(e, x, y, z))
        },
        ExprNode::MData { expr, .. } => {
            let x = lift_one(share(expr), s, offset, d, g)?;
            Ok(rebuild1(e, x))
        },
        ExprNode::Proj { structure, .. } => {
            let x = lift_one(share(structure), s, offset, d, g)?;
            Ok(rebuild1(e, x))
        },
        _ => Ok(share(e)),
    }
}

/// `lift_go` on one child, one frame deeper.
fn lift_one(a: Arc<Expr>, s: u32, oa: u32, d: u32, g: &mut RecGuard) -> (r: Result<
    Arc<Expr>,
    KernelError,
>)
    requires
        oa <= old(g).depth() + 1,
    ensures
        *final(g) == *old(g),
        r matches Ok(x) ==> x@ == lift_spec(a@, (s + oa) as nat, d as nat),
        r matches Err(err) ==> err is DeepRecursion,
        old(g).depth() + 1 + tree_height(a@) <= MAX_REC_DEPTH ==> r is Ok,
    decreases 1 + tree_height(a@), 0nat,
{
    let run = move |g2: RecGuard| -> (r: Result<Arc<Expr>, KernelError>)
        requires
            oa <= g2.depth(),
        ensures
            r matches Ok(x) ==> x@ == lift_spec(a@, (s + oa) as nat, d as nat),
            r matches Err(err) ==> err is DeepRecursion,
            tree_fits(g2, a@) ==> r is Ok,
        {
            let mut g3 = g2;
            lift_go(&a, s, oa, d, &mut g3)
        };
    g.enter(run)
}

/// `lift_go` on two children, one frame deeper.
fn lift_two(a: Arc<Expr>, b: Arc<Expr>, s: u32, oa: u32, ob: u32, d: u32, g: &mut RecGuard) -> (r:
    Result<(Arc<Expr>, Arc<Expr>), KernelError>)
    requires
        oa <= old(g).depth() + 1,
        ob <= old(g).depth() + 1,
    ensures
        *final(g) == *old(g),
        r matches Ok(p) ==> p.0@ == lift_spec(a@, (s + oa) as nat, d as nat) && p.1@ == lift_spec(
            b@,
            (s + ob) as nat,
            d as nat,
        ),
        r matches Err(err) ==> err is DeepRecursion,
        old(g).depth() + 1 + max_nat(tree_height(a@), tree_height(b@)) <= MAX_REC_DEPTH ==> r is Ok,
    decreases 1 + max_nat(tree_height(a@), tree_height(b@)), 0nat,
{
    let run = move |g2: RecGuard| -> (r: Result<(Arc<Expr>, Arc<Expr>), KernelError>)
        requires
            oa <= g2.depth(),
            ob <= g2.depth(),
        ensures
            r matches Ok(p) ==> p.0@ == lift_spec(a@, (s + oa) as nat, d as nat) && p.1@
                == lift_spec(b@, (s + ob) as nat, d as nat),
            r matches Err(err) ==> err is DeepRecursion,
            tree_fits(g2, a@) && tree_fits(g2, b@) ==> r is Ok,
        {
            let mut g3 = g2;
            let x = match lift_go(&a, s, oa, d, &mut g3) {
                Ok(x) => x,
                Err(err) => {
                    return Err(err);
                },
            };
            match lift_go(&b, s, ob, d, &mut g3) {
                Ok(y) => Ok((x, y)),
                Err(err) => Err(err),
            }
        };
    g.enter(run)
}

/// `lift_go` on a `let`'s type and value at `o` and its body at `o + 1`,
/// one frame deeper.
fn lift_three(
    a: Arc<Expr>,
    b: Arc<Expr>,
    c: Arc<Expr>,
    s: u32,
    o: u32,
    d: u32,
    g: &mut RecGuard,
) -> (r: Result<(Arc<Expr>, Arc<Expr>, Arc<Expr>), KernelError>)
    requires
        o <= old(g).depth(),
    ensures
        *final(g) == *old(g),
        r matches Ok(p) ==> p.0@ == lift_spec(a@, (s + o) as nat, d as nat) && p.1@ == lift_spec(
            b@,
            (s + o) as nat,
            d as nat,
        ) && p.2@ == lift_spec(c@, (s + o + 1) as nat, d as nat),
        r matches Err(err) ==> err is DeepRecursion,
        old(g).depth() + 1 + max_nat(max_nat(tree_height(a@), tree_height(b@)), tree_height(c@))
            <= MAX_REC_DEPTH ==> r is Ok,
    decreases 1 + max_nat(max_nat(tree_height(a@), tree_height(b@)), tree_height(c@)), 0nat,
{
    let run = move |g2: RecGuard| -> (r: Result<(Arc<Expr>, Arc<Expr>, Arc<Expr>), KernelError>)
        requires
            o < g2.depth(),
        ensures
            r matches Ok(p) ==> p.0@ == lift_spec(a@, (s + o) as nat, d as nat) && p.1@
                == lift_spec(b@, (s + o) as nat, d as nat) && p.2@ == lift_spec(
                c@,
                (s + o + 1) as nat,
                d as nat,
            ),
            r matches Err(err) ==> err is DeepRecursion,
            tree_fits(g2, a@) && tree_fits(g2, b@) && tree_fits(g2, c@) ==> r is Ok,
        {
            let mut g3 = g2;
            let _ = g3.current_depth();
            let x = match lift_go(&a, s, o, d, &mut g3) {
                Ok(x) => x,
                Err(err) => {
                    return Err(err);
                },
            };
            let y = match lift_go(&b, s, o, d, &mut g3) {
                Ok(y) => y,
                Err(err) => {
                    return Err(err);
                },
            };
            match lift_go(&c, s, o + 1, d, &mut g3) {
                Ok(z) => Ok((x, y, z)),
                Err(err) => Err(err),
            }
        };
    g.enter(run)
}

// ---------------------------------------------------------------------
// instantiate / instantiate_rev
// ---------------------------------------------------------------------

/// Which substitute replaces the `rel`-th variable of the window:
/// `rel` counting from the front, or from the back for the reversed
/// form.
pub open spec fn subst_index(rel: int, n: nat, rev: bool) -> int {
    if rev {
        n - 1 - rel
    } else {
        rel
    }
}

/// `e` with the loose bound variables `#c .. #(c + n - 1)`, where
/// `c = s + off` and `n = sub.len()`, replaced: `#(c + rel)` by the
/// substitute `subst_index(rel, n, rev)` with its own loose bound
/// variables raised by `off`; variables from `#(c + n)` on move down by
/// `n`; variables below `#c` stay. Under a binder `off` grows by one.
pub open spec fn inst_spec(e: SExpr, s: nat, off: nat, sub: Seq<SExpr>, rev: bool) -> SExpr
    decreases e,
{
    if s + off > u32::MAX {
        e
    } else {
        match e {
            SExpr::BVar(i) => {
                if i < s + off {
                    e
                } else if i < s + off + sub.len() {
                    lift_spec(sub[subst_index(i - (s + off), sub.len(), rev)], 0, off)
                } else {
                    SExpr::BVar((i - sub.len()) as nat)
                }
            },
            SExpr::App(f, a) => SExpr::App(
                Box::new(inst_spec(*f, s, off, sub, rev)),
                Box::new(inst_spec(*a, s, off, sub, rev)),
            ),
            SExpr::Lam(n, t, b, bi) => SExpr::Lam(
                n,
                Box::new(inst_spec(*t, s, off, sub, rev)),
                Box::new(inst_spec(*b, s, off + 1, sub, rev)),
                bi,
            ),
            SExpr::ForallE(n, t, b, bi) => SExpr::ForallE(
                n,
                Box::new(inst_spec(*t, s, off, sub, rev)),
                Box::new(inst_spec(*b, s, off + 1, sub, rev)),
                bi,
            ),
            SExpr::LetE(n, t, v, b, nd) => SExpr::LetE(
                n,
                Box::new(inst_spec(*t, s, off, sub, rev)),
                Box::new(inst_spec(*v, s, off, sub, rev)),
                Box::new(inst_spec(*b, s, off + 1, sub, rev)),
                nd,
            ),
            SExpr::MData(m, x) => SExpr::MData(m, Box::new(inst_spec(*x, s, off, sub, rev))),
            SExpr::Proj(n, i, x) => SExpr::Proj(n, i, Box::new(inst_spec(*x, s, off, sub, rev))),
            _ => e,
        }
    }
}

/// The largest walk height among the substitutes.
pub open spec fn subst_height(sub: Seq<SExpr>) -> nat
    decreases sub.len(),
{
    if sub.len() == 0 {
        0
    } else {
        max_nat(subst_height(sub.drop_last()), tree_height(sub.last()))
    }
}

pub proof fn lemma_subst_height(sub: Seq<SExpr>, k: int)
    requires
        0 <= k < sub.len(),
    ensures
        tree_height(sub[k]) <= subst_height(sub),
    decreases sub.len(),
{
    if k < sub.len() - 1 {
        lemma_subst_height(sub.drop_last(), k);
    }
}

/// Nothing to substitute at or above the loose range.
pub proof fn lemma_inst_closed(e: SExpr, s: nat, off: nat, sub: Seq<SExpr>, rev: bool)
    requires
        loose_range(e) <= s + off,
    ensures
        inst_spec(e, s, off, sub, rev) == e,
    decreases e,
{
    if s + off <= u32::MAX {
        match e {
            SExpr::App(f, a) => {
                lemma_inst_closed(*f, s, off, sub, rev);
                lemma_inst_closed(*a, s, off, sub, rev);
            },
            SExpr::Lam(_, t, b, _) => {
                lemma_inst_closed(*t, s, off, sub, rev);
                lemma_inst_closed(*b, s, off + 1, sub, rev);
            },
            SExpr::ForallE(_, t, b, _) => {
                lemma_inst_closed(*t, s, off, sub, rev);
                lemma_inst_closed(*b, s, off + 1, sub, rev);
            },
            SExpr::LetE(_, t, v, b, _) => {
                lemma_inst_closed(*t, s, off, sub, rev);
                lemma_inst_closed(*v, s, off, sub, rev);
                lemma_inst_closed(*b, s, off + 1, sub, rev);
            },
            SExpr::MData(_, x) => {
                lemma_inst_closed(*x, s, off, sub, rev);
            },
            SExpr::Proj(_, _, x) => {
                lemma_inst_closed(*x, s, off, sub, rev);
            },
            _ => {},
        }
    }
}

/// Substituting nothing changes nothing.
pub proof fn lemma_inst_empty(e: SExpr, s: nat, off: nat, rev: bool)
    ensures
        inst_spec(e, s, off, Seq::empty(), rev) == e,
    decreases e,
{
    if s + off <= u32::MAX {
        match e {
            SExpr::App(f, a) => {
                lemma_inst_empty(*f, s, off, rev);
                lemma_inst_empty(*a, s, off, rev);
            },
            SExpr::Lam(_, t, b, _) => {
                lemma_inst_empty(*t, s, off, rev);
                lemma_inst_empty(*b, s, off + 1, rev);
            },
            SExpr::ForallE(_, t, b, _) => {
                lemma_inst_empty(*t, s, off, rev);
                lemma_inst_empty(*b, s, off + 1, rev);
            },
            SExpr::LetE(_, t, v, b, _) => {
                lemma_inst_empty(*t, s, off, rev);
                lemma_inst_empty(*v, s, off, rev);
                lemma_inst_empty(*b, s, off + 1, rev);
            },
            SExpr::MData(_, x) => {
                lemma_inst_empty(*x, s, off, rev);
            },
            SExpr::Proj(_, _, x) => {
                lemma_inst_empty(*x, s, off, rev);
            },
            _ => {},
        }
    }
}

/// Replaces the loose bound variables `#s .. #(s + n - 1)` by `subst`
/// (`subst[0]` replaces the outermost, `#(s + n - 1)`; `subst[n - 1]`
/// replaces `#s`) and moves the variables above them down by `n`. An
/// empty `subst` gives `e` back.
pub fn instantiate_core(e: &Arc<Expr>, s: u32, subst: &[Arc<Expr>], g: &mut RecGuard) -> (r:
    Result<Arc<Expr>, KernelError>)
    ensures
        *final(g) == *old(g),
        r matches Ok(x) ==> x@ == inst_spec(e@, s as nat, 0, exprs_view(subst@), false),
        r matches Err(err) ==> err is DeepRecursion,
        old(g).depth() + tree_height(e@) + subst_height(exprs_view(subst@)) <= MAX_REC_DEPTH
            ==> r is Ok,
{
    if subst.len() == 0 {
        proof {
            assert(exprs_view(subst@) =~= Seq::<SExpr>::empty());
            lemma_inst_empty(e@, s as nat, 0, false);
        }
        return Ok(share(e));
    }
    instantiate_go(e, s, 0, subst, false, g)
}

/// `e` with `#0` replaced by `sub` and the other loose bound variables
/// moved down by one.
pub fn instantiate(e: &Arc<Expr>, sub: &Arc<Expr>, g: &mut RecGuard) -> (r: Result<
    Arc<Expr>,
    KernelError,
>)
    ensures
        *final(g) == *old(g),
        r matches Ok(x) ==> x@ == inst_spec(e@, 0, 0, seq![sub@], false),
        r matches Err(err) ==> err is DeepRecursion,
        old(g).depth() + tree_height(e@) + tree_height(sub@) <= MAX_REC_DEPTH ==> r is Ok,
{
    let one: Vec<Arc<Expr>> = vec![share(sub)];
    proof {
        assert(exprs_view(one@) =~= seq![sub@]);
        reveal_with_fuel(subst_height, 2);
        assert(seq![sub@].drop_last() =~= Seq::<SExpr>::empty());
    }
    instantiate_core(e, 0, one.as_slice(), g)
}

/// Like `instantiate_core` at `s = 0`, with `subst` given innermost
/// last: `subst[n - 1]` replaces `#0`.
pub fn instantiate_rev(e: &Arc<Expr>, subst: &[Arc<Expr>], g: &mut RecGuard) -> (r: Result<
    Arc<Expr>,
    KernelError,
>)
    ensures
        *final(g) == *old(g),
        r matches Ok(x) ==> x@ == inst_spec(e@, 0, 0, exprs_view(subst@), true),
        r matches Err(err) ==> err is DeepRecursion,
        old(g).depth() + tree_height(e@) + subst_height(exprs_view(subst@)) <= MAX_REC_DEPTH
            ==> r is Ok,
{
    if subst.len() == 0 {
        proof {
            assert(exprs_view(subst@) =~= Seq::<SExpr>::empty());
            lemma_inst_empty(e@, 0, 0, true);
        }
        return Ok(share(e));
    }
    instantiate_go(e, 0, 0, subst, true, g)
}

/// The bound-variable case of the walk.
fn instantiate_bvar(
    e: &Arc<Expr>,
    idx: &Nat,
    s1: u32,
    offset: u32,
    subst: &[Arc<Expr>],
    rev: bool,
    g: &mut RecGuard,
) -> (r: Result<Arc<Expr>, KernelError>)
    requires
        e@ == SExpr::BVar(idx@),
        subst@.len() > 0,
    ensures
        *final(g) == *old(g),
        r matches Ok(x) ==> x@ == (if idx@ < s1 {
            e@
        } else if idx@ < s1 + subst@.len() {
            lift_spec(
                exprs_view(subst@)[subst_index(idx@ - s1, subst@.len(), rev)],
                0,
                offset as nat,
            )
        } else {
            SExpr::BVar((idx@ - subst@.len()) as nat)
        }),
        r matches Err(err) ==> err is DeepRecursion,
        old(g).depth() + subst_height(exprs_view(subst@)) <= MAX_REC_DEPTH ==> r is Ok,
{
    let c = Nat::from_u64(s1 as u64);
    if !c.ble(idx) {
        return Ok(share(e));
    }
    let n = subst.len();
    let rel = idx.sub(&c);
    match rel.to_usize() {
        Some(k) => {
            if k < n {
                let j = if rev {
                    n - 1 - k
                } else {
                    k
                };
                proof {
                    lemma_subst_height(exprs_view(subst@), j as int);
                }
                return lift_loose_bvars(&subst[j], 0, offset, g);
            }
        },
        None => {},
    }
    let nn = Nat::from_u64(n as u64);
    Ok(Expr::bvar(idx.sub(&nn)))
}

fn instantiate_go(
    e: &Arc<Expr>,
    s: u32,
    offset: u32,
    subst: &[Arc<Expr>],
    rev: bool,
    g: &mut RecGuard,
) -> (r: Result<Arc<Expr>, KernelError>)
    requires
        offset <= old(g).depth(),
        subst@.len() > 0,
    ensures
        *final(g) == *old(g),
        r matches Ok(x) ==> x@ == inst_spec(e@, s as nat, offset as nat, exprs_view(subst@), rev),
        r matches Err(err) ==> err is DeepRecursion,
        old(g).depth() + tree_height(e@) + subst_height(exprs_view(subst@)) <= MAX_REC_DEPTH
            ==> r is Ok,
    decreases tree_height(e@), 1nat,
{
    let s1 = match s.checked_add(offset) {
        Some(v) => v,
        None => {
            return Ok(share(e));
        },
    };
    if let Some(range) = e.data().loose_bvar_range_exact() {
        if range <= s1 {
            proof {
                lemma_range_exact(e@);
                lemma_inst_closed(e@, s as nat, offset as nat, exprs_view(subst@), rev);
            }
            return Ok(share(e));
        }
    }
    let _ = g.current_depth();
    match &(**e).node {
        ExprNode::BVar { idx } => instantiate_bvar(e, idx, s1, offset, subst, rev, g),
        ExprNode::App { f, arg } => {
            let (x, y) = inst_two(share(f), share(arg), s, offset, offset, subst, rev, g)?;
            Ok(rebuild2(e, x, y))
        },
        ExprNode::Lam { binder_type, body, .. } => {
            let (x, y) = inst_two(
                share(binder_type),
                share(body),
                s,
                offset,
                offset + 1,
                subst,
                rev,
                g,
            )?;
            Ok(rebuild2(e, x, y))
        },
        ExprNode::ForallE { binder_type, body, .. } => {
            let (x, y) = inst_two(
                share(binder_type),
                share(body),
                s,
                offset,
                offset + 1,
                subst,
                rev,
                g,
            )?;
            Ok(rebuild2(e, x, y))
        },
        ExprNode::LetE { ty, value, body, .. } => {
            let (x, y, z) = inst_three(
                share(ty),
                share(value),
                share(body),
                s,
                offset,
                subst,
                rev,
                g,
            )?;
            Ok(rebuild3(e, x, y, z))
        },
        ExprNode::MData { expr, .. } => {
            let x = inst_one(share(expr), s, offset, subst, rev, g)?;
            Ok(rebuild1(e, x))
        },
        ExprNode::Proj { structure, .. } => {
            let x = inst_one(share(structure), s, offset, subst, rev, g)?;
            Ok(rebuild1(e, x))
        },
        _ => Ok(share(e)),
    }
}

/// `instantiate_go` on one child, one frame deeper.
fn inst_one(
    a: Arc<Expr>,
    s: u32,
    oa: u32,
    subst: &[Arc<Expr>],
    rev: bool,
    g: &mut RecGuard,
) -> (r: Result<Arc<Expr>, KernelError>)
    requires
        oa <= old(g).depth() + 1,
        subst@.len() > 0,
    ensures
        *final(g) == *old(g),
        r matches Ok(x) ==> x@ == inst_spec(a@, s as nat, oa as nat, exprs_view(subst@), rev),
        r matches Err(err) ==> err is DeepRecursion,
        old(g).depth() + 1 + tree_height(a@) + subst_height(exprs_view(subst@)) <= MAX_REC_DEPTH
            ==> r is Ok,
    decreases 1 + tree_height(a@), 0nat,
{
    let ghost sv = exprs_view(subst@);
    let run = move |g2: RecGuard| -> (r: Result<Arc<Expr>, KernelError>)
        requires
            oa <= g2.depth(),
        ensures
            r matches Ok(x) ==> x@ == inst_spec(a@, s as nat, oa as nat, sv, rev),
            r matches Err(err) ==> err is DeepRecursion,
            inst_fits(g2, a@, sv) ==> r is Ok,
        {
            let mut g3 = g2;
            instantiate_go(&a, s, oa, subst, rev, &mut g3)
        };
    g.enter(run)
}

/// Whether a walk over `e` that may lift the substitutes `sv` fits.
pub open spec fn inst_fits(g: RecGuard, e: SExpr, sv: Seq<SExpr>) -> bool {
    g.depth() + tree_height(e) + subst_height(sv) <= MAX_REC_DEPTH
}

/// `instantiate_go` on two children, one frame deeper.
fn inst_two(
    a: Arc<Expr>,
    b: Arc<Expr>,
    s: u32,
    oa: u32,
    ob: u32,
    subst: &[Arc<Expr>],
    rev: bool,
    g: &mut RecGuard,
) -> (r: Result<(Arc<Expr>, Arc<Expr>), KernelError>)
    requires
        oa <= old(g).depth() + 1,
        ob <= old(g).depth() + 1,
        subst@.len() > 0,
    ensures
        *final(g) == *old(g),
        r matches Ok(p) ==> p.0@ == inst_spec(a@, s as nat, oa as nat, exprs_view(subst@), rev)
            && p.1@ == inst_spec(b@, s as nat, ob as nat, exprs_view(subst@), rev),
        r matches Err(err) ==> err is DeepRecursion,
        old(g).depth() + 1 + max_nat(tree_height(a@), tree_height(b@)) + subst_height(
            exprs_view(subst@),
        ) <= MAX_REC_DEPTH ==> r is Ok,
    decreases 1 + max_nat(tree_height(a@), tree_height(b@)), 0nat,
{
    let ghost sv = exprs_view(subst@);
    let run = move |g2: RecGuard| -> (r: Result<(Arc<Expr>, Arc<Expr>), KernelError>)
        requires
            oa <= g2.depth(),
            ob <= g2.depth(),
        ensures
            r matches Ok(p) ==> p.0@ == inst_spec(a@, s as nat, oa as nat, sv, rev) && p.1@
                == inst_spec(b@, s as nat, ob as nat, sv, rev),
            r matches Err(err) ==> err is DeepRecursion,
            inst_fits(g2, a@, sv) && inst_fits(g2, b@, sv) ==> r is Ok,
        {
            let mut g3 = g2;
            let x = match instantiate_go(&a, s, oa, subst, rev, &mut g3) {
                Ok(x) => x,
                Err(err) => {
                    return Err(err);
                },
            };
            match instantiate_go(&b, s, ob, subst, rev, &mut g3) {
                Ok(y) => Ok((x, y)),
                Err(err) => Err(err),
            }
        };
    g.enter(run)
}

/// `instantiate_go` on a `let`'s type and value at `o` and its body at `o + 1`,
/// one frame deeper.
fn inst_three(
    a: Arc<Expr>,
    b: Arc<Expr>,
    c: Arc<Expr>,
    s: u32,
    o: u32,
    subst: &[Arc<Expr>],
    rev: bool,
    g: &mut RecGuard,
) -> (r: Result<(Arc<Expr>, Arc<Expr>, Arc<Expr>), KernelError>)
    requires
        o <= old(g).depth(),
        subst@.len() > 0,
    ensures
        *final(g) == *old(g),
        r matches Ok(p) ==> p.0@ == inst_spec(a@, s as nat, o as nat, exprs_view(subst@), rev)
            && p.1@ == inst_spec(b@, s as nat, o as nat, exprs_view(subst@), rev) && p.2@
            == inst_spec(c@, s as nat, (o + 1) as nat, exprs_view(subst@), rev),
        r matches Err(err) ==> err is DeepRecursion,
        old(g).depth() + 1 + max_nat(max_nat(tree_height(a@), tree_height(b@)), tree_height(c@))
            + subst_height(exprs_view(subst@)) <= MAX_REC_DEPTH ==> r is Ok,
    decreases 1 + max_nat(max_nat(tree_height(a@), tree_height(b@)), tree_height(c@)), 0nat,
{
    let ghost sv = exprs_view(subst@);
    let run = move |g2: RecGuard| -> (r: Result<(Arc<Expr>, Arc<Expr>, Arc<Expr>), KernelError>)
        requires
            o < g2.depth(),
        ensures
            r matches Ok(p) ==> p.0@ == inst_spec(a@, s as nat, o as nat, sv, rev) && p.1@
                == inst_spec(b@, s as nat, o as nat, sv, rev) && p.2@ == inst_spec(
                c@,
                s as nat,
                (o + 1) as nat,
                sv,
                rev,
            ),
            r matches Err(err) ==> err is DeepRecursion,
            inst_fits(g2, a@, sv) && inst_fits(g2, b@, sv) && inst_fits(g2, c@, sv) ==> r is Ok,
        {
            let mut g3 = g2;
            let _ = g3.current_depth();
            let x = match instantiate_go(&a, s, o, subst, rev, &mut g3) {
                Ok(x) => x,
                Err(err) => {
                    return Err(err);
                },
            };
            let y = match instantiate_go(&b, s, o, subst, rev, &mut g3) {
                Ok(y) => y,
                Err(err) => {
                    return Err(err);
                },
            };
            match instantiate_go(&c, s, o + 1, subst, rev, &mut g3) {
                Ok(z) => Ok((x, y, z)),
                Err(err) => Err(err),
            }
        };
    g.enter(run)
}

// ---------------------------------------------------------------------
// abstract_fvars
// ---------------------------------------------------------------------

/// The last position of the free variable `id` in `fvars`, or `-1`.
pub open spec fn fvar_pos(fvars: Seq<SExpr>, id: Seq<NameComp>) -> int
    decreases fvars.len(),
{
    if fvars.len() == 0 {
        -1
    } else if fvars.last() == SExpr::FVar(id) {
        fvars.len() - 1
    } else {
        fvar_pos(fvars.drop_last(), id)
    }
}

/// `e` with each free variable that occurs in `fvars` turned into a loose
/// bound variable: the last occurrence at position `i` becomes
/// `#(off + n - i - 1)`, so the last of `fvars` is innermost. Under a
/// binder `off` grows by one.
pub open spec fn abstract_spec(e: SExpr, off: nat, fvars: Seq<SExpr>) -> SExpr
    decreases e,
{
    match e {
        SExpr::FVar(id) => if fvar_pos(fvars, id) >= 0 {
            SExpr::BVar((off + fvars.len() - fvar_pos(fvars, id) - 1) as nat)
        } else {
            e
        },
        SExpr::App(f, a) => SExpr::App(
            Box::new(abstract_spec(*f, off, fvars)),
            Box::new(abstract_spec(*a, off, fvars)),
        ),
        SExpr::Lam(n, t, b, bi) => SExpr::Lam(
            n,
            Box::new(abstract_spec(*t, off, fvars)),
            Box::new(abstract_spec(*b, off + 1, fvars)),
            bi,
        ),
        SExpr::ForallE(n, t, b, bi) => SExpr::ForallE(
            n,
            Box::new(abstract_spec(*t, off, fvars)),
            Box::new(abstract_spec(*b, off + 1, fvars)),
            bi,
        ),
        SExpr::LetE(n, t, v, b, nd) => SExpr::LetE(
            n,
            Box::new(abstract_spec(*t, off, fvars)),
            Box::new(abstract_spec(*v, off, fvars)),
            Box::new(abstract_spec(*b, off + 1, fvars)),
            nd,
        ),
        SExpr::MData(m, x) => SExpr::MData(m, Box::new(abstract_spec(*x, off, fvars))),
        SExpr::Proj(n, i, x) => SExpr::Proj(n, i, Box::new(abstract_spec(*x, off, fvars))),
        _ => e,
    }
}

pub proof fn lemma_fvar_pos(fvars: Seq<SExpr>, id: Seq<NameComp>)
    ensures
        -1 <= fvar_pos(fvars, id) < fvars.len(),
        fvar_pos(fvars, id) >= 0 ==> fvars[fvar_pos(fvars, id)] == SExpr::FVar(id),
        fvar_pos(fvars, id) >= 0 ==> forall|j: int|
            fvar_pos(fvars, id) < j < fvars.len() ==> fvars[j] != SExpr::FVar(id),
        fvar_pos(fvars, id) < 0 ==> forall|j: int| 0 <= j < fvars.len() ==> fvars[j] != SExpr::FVar(id),
    decreases fvars.len(),
{
    if fvars.len() > 0 && fvars.last() != SExpr::FVar(id) {
        lemma_fvar_pos(fvars.drop_last(), id);
        assert forall|j: int| 0 <= j < fvars.len() - 1 implies fvars[j] == fvars.drop_last()[j] by {}
    }
}

/// Without free variables, or with nothing to abstract, nothing changes.
pub proof fn lemma_abstract_nothing(e: SExpr, off: nat, fvars: Seq<SExpr>)
    requires
        fvars.len() == 0 || !expr_has_fvar(e),
    ensures
        abstract_spec(e, off, fvars) == e,
    decreases e,
{
    match e {
        SExpr::App(f, a) => {
            lemma_abstract_nothing(*f, off, fvars);
            lemma_abstract_nothing(*a, off, fvars);
        },
        SExpr::Lam(_, t, b, _) => {
            lemma_abstract_nothing(*t, off, fvars);
            lemma_abstract_nothing(*b, off + 1, fvars);
        },
        SExpr::ForallE(_, t, b, _) => {
            lemma_abstract_nothing(*t, off, fvars);
            lemma_abstract_nothing(*b, off + 1, fvars);
        },
        SExpr::LetE(_, t, v, b, _) => {
            lemma_abstract_nothing(*t, off, fvars);
            lemma_abstract_nothing(*v, off, fvars);
            lemma_abstract_nothing(*b, off + 1, fvars);
        },
        SExpr::MData(_, x) => {
            lemma_abstract_nothing(*x, off, fvars);
        },
        SExpr::Proj(_, _, x) => {
            lemma_abstract_nothing(*x, off, fvars);
        },
        _ => {},
    }
}

/// The one way abstraction can fail: an index past `u64::MAX`, which
/// takes more free variables than any machine holds.
pub open spec fn abstract_err(err: KernelError, n: nat) -> bool {
    err is DeepRecursion || (err is LooseBVar && n > u64::MAX - u32::MAX)
}

/// Turns the free variables of `fvars` in `e` into loose bound
/// variables, the last of `fvars` innermost (`abstract_spec`).
pub fn abstract_fvars(e: &Arc<Expr>, fvars: &[Arc<Expr>], g: &mut RecGuard) -> (r: Result<
    Arc<Expr>,
    KernelError,
>)
    ensures
        *final(g) == *old(g),
        r matches Ok(x) ==> x@ == abstract_spec(e@, 0, exprs_view(fvars@)),
        r matches Err(err) ==> abstract_err(err, fvars@.len()),
        tree_fits(*old(g), e@) && fvars@.len() <= u64::MAX - u32::MAX ==> r is Ok,
{
    let d = e.data();
    if fvars.len() == 0 || !d.has_fvar() {
        proof {
            lemma_flags_exact(e@);
            lemma_abstract_nothing(e@, 0, exprs_view(fvars@));
        }
        return Ok(share(e));
    }
    abstract_go(e, 0, fvars, g)
}

/// The free-variable case of the walk.
fn abs_fvar(e: &Arc<Expr>, id: &Arc<Name>, offset: u32, fvars: &[Arc<Expr>]) -> (r: Result<
    Arc<Expr>,
    KernelError,
>)
    requires
        e@ == SExpr::FVar(id@),
    ensures
        r matches Ok(x) ==> x@ == abstract_spec(e@, offset as nat, exprs_view(fvars@)),
        r matches Err(err) ==> abstract_err(err, fvars@.len()),
        fvars@.len() <= u64::MAX - u32::MAX ==> r is Ok,
{
    let ghost fv = exprs_view(fvars@);
    let n = fvars.len();
    let mut i: usize = n;
    proof {
        lemma_fvar_pos(fv, id@);
    }
    while i > 0
        invariant
            i <= n == fvars@.len(),
            fv == exprs_view(fvars@),
            e@ == SExpr::FVar(id@),
            -1 <= fvar_pos(fv, id@) < n,
            fvar_pos(fv, id@) >= 0 ==> fv[fvar_pos(fv, id@)] == SExpr::FVar(id@),
            fvar_pos(fv, id@) >= 0 ==> forall|j: int|
                fvar_pos(fv, id@) < j < n ==> fv[j] != SExpr::FVar(id@),
            fvar_pos(fv, id@) < 0 ==> forall|j: int| 0 <= j < n ==> fv[j] != SExpr::FVar(id@),
            forall|j: int| i <= j < n ==> fv[j] != SExpr::FVar(id@),
        decreases i,
    {
        let k = i - 1;
        let hit = match &(*fvars[k]).node {
            ExprNode::FVar { id: fid } => fid.equal(id),
            _ => false,
        };
        proof {
            assert(fv[k as int] == fvars@[k as int]@);
        }
        if hit {
            proof {
                assert(fv[k as int] == SExpr::FVar(id@));
                let p = fvar_pos(fv, id@);
                if p < k as int {
                } else if p > k as int {
                }
                assert(p == k);
            }
            let rel: u64 = (n - 1 - k) as u64;
            match (offset as u64).checked_add(rel) {
                Some(v) => {
                    proof {
                        assert(fv.len() == n);
                        assert(v == offset + n - fvar_pos(fv, id@) - 1);
                        assert(abstract_spec(e@, offset as nat, fv) == SExpr::BVar(v as nat));
                    }
                    return Ok(Expr::bvar(Nat::from_u64(v)));
                },
                None => {
                    return Err(KernelError::LooseBVar);
                },
            }
        }
        i = k;
    }
    Ok(share(e))
}

fn abstract_go(e: &Arc<Expr>, offset: u32, fvars: &[Arc<Expr>], g: &mut RecGuard) -> (r: Result<
    Arc<Expr>,
    KernelError,
>)
    requires
        offset <= old(g).depth(),
    ensures
        *final(g) == *old(g),
        r matches Ok(x) ==> x@ == abstract_spec(e@, offset as nat, exprs_view(fvars@)),
        r matches Err(err) ==> abstract_err(err, fvars@.len()),
        tree_fits(*old(g), e@) && fvars@.len() <= u64::MAX - u32::MAX ==> r is Ok,
    decreases tree_height(e@), 1nat,
{
    if !e.data().has_fvar() {
        proof {
            lemma_flags_exact(e@);
            lemma_abstract_nothing(e@, offset as nat, exprs_view(fvars@));
        }
        return Ok(share(e));
    }
    let _ = g.current_depth();
    match &(**e).node {
        ExprNode::FVar { id } => abs_fvar(e, id, offset, fvars),
        ExprNode::App { f, arg } => {
            let (x, y) = abs_two(share(f), share(arg), offset, offset, fvars, g)?;
            Ok(rebuild2(e, x, y))
        },
        ExprNode::Lam { binder_type, body, .. } => {
            let (x, y) = abs_two(share(binder_type), share(body), offset, offset + 1, fvars, g)?;
            Ok(rebuild2(e, x, y))
        },
        ExprNode::ForallE { binder_type, body, .. } => {
            let (x, y) = abs_two(share(binder_type), share(body), offset, offset + 1, fvars, g)?;
            Ok(rebuild2(e, x, y))
        },
        ExprNode::LetE { ty, value, body, .. } => {
            let (x, y, z) = abs_three(share(ty), share(value), share(body), offset, fvars, g)?;
            Ok(rebuild3(e, x, y, z))
        },
        ExprNode::MData { expr, .. } => {
            let x = abs_one(share(expr), offset, fvars, g)?;
            Ok(rebuild1(e, x))
        },
        ExprNode::Proj { structure, .. } => {
            let x = abs_one(share(structure), offset, fvars, g)?;
            Ok(rebuild1(e, x))
        },
        _ => Ok(share(e)),
    }
}

/// `abstract_go` on one child, one frame deeper.
fn abs_one(a: Arc<Expr>, oa: u32, fvars: &[Arc<Expr>], g: &mut RecGuard) -> (r: Result<
    Arc<Expr>,
    KernelError,
>)
    requires
        oa <= old(g).depth() + 1,
    ensures
        *final(g) == *old(g),
        r matches Ok(x) ==> x@ == abstract_spec(a@, oa as nat, exprs_view(fvars@)),
        r matches Err(err) ==> abstract_err(err, fvars@.len()),
        old(g).depth() + 1 + tree_height(a@) <= MAX_REC_DEPTH && fvars@.len() <= u64::MAX
            - u32::MAX ==> r is Ok,
    decreases 1 + tree_height(a@), 0nat,
{
    let ghost fv = exprs_view(fvars@);
    let ghost n = fvars@.len();
    let run = move |g2: RecGuard| -> (r: Result<Arc<Expr>, KernelError>)
        requires
            oa <= g2.depth(),
        ensures
            r matches Ok(x) ==> x@ == abstract_spec(a@, oa as nat, fv),
            r matches Err(err) ==> abstract_err(err, n),
            tree_fits(g2, a@) && few_fvars(n) ==> r is Ok,
        {
            let mut g3 = g2;
            abstract_go(&a, oa, fvars, &mut g3)
        };
    g.enter(run)
}

/// Few enough free variables that no index leaves 64 bits.
pub open spec fn few_fvars(n: nat) -> bool {
    n <= u64::MAX - u32::MAX
}

/// `abstract_go` on two children, one frame deeper.
fn abs_two(a: Arc<Expr>, b: Arc<Expr>, oa: u32, ob: u32, fvars: &[Arc<Expr>], g: &mut RecGuard) -> (r:
    Result<(Arc<Expr>, Arc<Expr>), KernelError>)
    requires
        oa <= old(g).depth() + 1,
        ob <= old(g).depth() + 1,
    ensures
        *final(g) == *old(g),
        r matches Ok(p) ==> p.0@ == abstract_spec(a@, oa as nat, exprs_view(fvars@)) && p.1@
            == abstract_spec(b@, ob as nat, exprs_view(fvars@)),
        r matches Err(err) ==> abstract_err(err, fvars@.len()),
        old(g).depth() + 1 + max_nat(tree_height(a@), tree_height(b@)) <= MAX_REC_DEPTH
            && fvars@.len() <= u64::MAX - u32::MAX ==> r is Ok,
    decreases 1 + max_nat(tree_height(a@), tree_height(b@)), 0nat,
{
    let ghost fv = exprs_view(fvars@);
    let ghost n = fvars@.len();
    let run = move |g2: RecGuard| -> (r: Result<(Arc<Expr>, Arc<Expr>), KernelError>)
        requires
            oa <= g2.depth(),
            ob <= g2.depth(),
        ensures
            r matches Ok(p) ==> p.0@ == abstract_spec(a@, oa as nat, fv) && p.1@ == abstract_spec(
                b@,
                ob as nat,
                fv,
            ),
            r matches Err(err) ==> abstract_err(err, n),
            tree_fits(g2, a@) && tree_fits(g2, b@) && few_fvars(n) ==> r is Ok,
        {
            let mut g3 = g2;
            let x = match abstract_go(&a, oa, fvars, &mut g3) {
                Ok(x) => x,
                Err(err) => {
                    return Err(err);
                },
            };
            match abstract_go(&b, ob, fvars, &mut g3) {
                Ok(y) => Ok((x, y)),
                Err(err) => Err(err),
            }
        };
    g.enter(run)
}

/// `abstract_go` on a `let`'s type and value at `o` and its body at `o + 1`,
/// one frame deeper.
fn abs_three(
    a: Arc<Expr>,
    b: Arc<Expr>,
    c: Arc<Expr>,
    o: u32,
    fvars: &[Arc<Expr>],
    g: &mut RecGuard,
) -> (r: Result<(Arc<Expr>, Arc<Expr>, Arc<Expr>), KernelError>)
    requires
        o <= old(g).depth(),
    ensures
        *final(g) == *old(g),
        r matches Ok(p) ==> p.0@ == abstract_spec(a@, o as nat, exprs_view(fvars@)) && p.1@
            == abstract_spec(b@, o as nat, exprs_view(fvars@)) && p.2@ == abstract_spec(
            c@,
            (o + 1) as nat,
            exprs_view(fvars@),
        ),
        r matches Err(err) ==> abstract_err(err, fvars@.len()),
        old(g).depth() + 1 + max_nat(max_nat(tree_height(a@), tree_height(b@)), tree_height(c@))
            <= MAX_REC_DEPTH && fvars@.len() <= u64::MAX - u32::MAX ==> r is Ok,
    decreases 1 + max_nat(max_nat(tree_height(a@), tree_height(b@)), tree_height(c@)), 0nat,
{
    let ghost fv = exprs_view(fvars@);
    let ghost n = fvars@.len();
    let run = move |g2: RecGuard| -> (r: Result<(Arc<Expr>, Arc<Expr>, Arc<Expr>), KernelError>)
        requires
            o < g2.depth(),
        ensures
            r matches Ok(p) ==> p.0@ == abstract_spec(a@, o as nat, fv) && p.1@ == abstract_spec(
                b@,
                o as nat,
                fv,
            ) && p.2@ == abstract_spec(c@, (o + 1) as nat, fv),
            r matches Err(err) ==> abstract_err(err, n),
            tree_fits(g2, a@) && tree_fits(g2, b@) && tree_fits(g2, c@) && few_fvars(n) ==> r is Ok,
        {
            let mut g3 = g2;
            let _ = g3.current_depth();
            let x = match abstract_go(&a, o, fvars, &mut g3) {
                Ok(x) => x,
                Err(err) => {
                    return Err(err);
                },
            };
            let y = match abstract_go(&b, o, fvars, &mut g3) {
                Ok(y) => y,
                Err(err) => {
                    return Err(err);
                },
            };
            match abstract_go(&c, o + 1, fvars, &mut g3) {
                Ok(z) => Ok((x, y, z)),
                Err(err) => Err(err),
            }
        };
    g.enter(run)
}

// ---------------------------------------------------------------------
// instantiate_level_params
// ---------------------------------------------------------------------

/// Each level of `ls` with the parameters instantiated (`spec_inst`).
pub open spec fn inst_levels(ls: Seq<SLevel>, ps: Seq<Seq<NameComp>>, args: Seq<SLevel>) -> Seq<
    SLevel,
> {
    Seq::new(ls.len(), |i: int| spec_inst(ls[i], ps, args).0)
}

/// `e` with the universe parameters of every `Sort` and `Const`
/// instantiated (`spec_inst`).
pub open spec fn lparams_spec(e: SExpr, ps: Seq<Seq<NameComp>>, args: Seq<SLevel>) -> SExpr
    decreases e,
{
    match e {
        SExpr::Sort(l) => SExpr::Sort(spec_inst(l, ps, args).0),
        SExpr::Const(n, ls) => SExpr::Const(n, inst_levels(ls, ps, args)),
        SExpr::App(f, a) => SExpr::App(
            Box::new(lparams_spec(*f, ps, args)),
            Box::new(lparams_spec(*a, ps, args)),
        ),
        SExpr::Lam(n, t, b, bi) => SExpr::Lam(
            n,
            Box::new(lparams_spec(*t, ps, args)),
            Box::new(lparams_spec(*b, ps, args)),
            bi,
        ),
        SExpr::ForallE(n, t, b, bi) => SExpr::ForallE(
            n,
            Box::new(lparams_spec(*t, ps, args)),
            Box::new(lparams_spec(*b, ps, args)),
            bi,
        ),
        SExpr::LetE(n, t, v, b, nd) => SExpr::LetE(
            n,
            Box::new(lparams_spec(*t, ps, args)),
            Box::new(lparams_spec(*v, ps, args)),
            Box::new(lparams_spec(*b, ps, args)),
            nd,
        ),
        SExpr::MData(m, x) => SExpr::MData(m, Box::new(lparams_spec(*x, ps, args))),
        SExpr::Proj(n, i, x) => SExpr::Proj(n, i, Box::new(lparams_spec(*x, ps, args))),
        _ => e,
    }
}

/// Without universe parameters nothing changes.
pub proof fn lemma_lparams_nothing(e: SExpr, ps: Seq<Seq<NameComp>>, args: Seq<SLevel>)
    requires
        !expr_has_level_param(e),
    ensures
        lparams_spec(e, ps, args) == e,
    decreases e,
{
    match e {
        SExpr::Const(n, ls) => {
            assert(inst_levels(ls, ps, args) =~= ls) by {
                assert forall|i: int| 0 <= i < ls.len() implies spec_inst(ls[i], ps, args).0
                    == ls[i] by {
                    assert(!spec_has_param(ls[i]));
                }
            }
        },
        SExpr::App(f, a) => {
            lemma_lparams_nothing(*f, ps, args);
            lemma_lparams_nothing(*a, ps, args);
        },
        SExpr::Lam(_, t, b, _) => {
            lemma_lparams_nothing(*t, ps, args);
            lemma_lparams_nothing(*b, ps, args);
        },
        SExpr::ForallE(_, t, b, _) => {
            lemma_lparams_nothing(*t, ps, args);
            lemma_lparams_nothing(*b, ps, args);
        },
        SExpr::LetE(_, t, v, b, _) => {
            lemma_lparams_nothing(*t, ps, args);
            lemma_lparams_nothing(*v, ps, args);
            lemma_lparams_nothing(*b, ps, args);
        },
        SExpr::MData(_, x) => {
            lemma_lparams_nothing(*x, ps, args);
        },
        SExpr::Proj(_, _, x) => {
            lemma_lparams_nothing(*x, ps, args);
        },
        _ => {},
    }
}

/// Substitutes `args[i]` for the universe parameter `params[i]` in every
/// level of `e` (`lparams_spec`); an expression without universe
/// parameters comes back as it is.
pub fn instantiate_level_params(
    e: &Arc<Expr>,
    params: &[Arc<Name>],
    args: &[Arc<Level>],
    g: &mut RecGuard,
) -> (r: Result<Arc<Expr>, KernelError>)
    ensures
        *final(g) == *old(g),
        r matches Ok(x) ==> x@ == lparams_spec(e@, names_view(params@), levels_view(args@)),
        r matches Err(err) ==> err is DeepRecursion,
        old(g).depth() + crate::expr::expr_height(e@) + crate::expr::levels_height(levels_view(args@)) <= MAX_REC_DEPTH ==> r is Ok,
{
    lparams_go(e, params, args, g)
}

/// The universe-level case of the walk: a `Sort` or a `Const`.
fn lp_leaf(e: &Arc<Expr>, params: &[Arc<Name>], args: &[Arc<Level>], g: &mut RecGuard) -> (r:
    Result<Arc<Expr>, KernelError>)
    requires
        e@ is Sort || e@ is Const,
    ensures
        *final(g) == *old(g),
        r matches Ok(x) ==> x@ == lparams_spec(e@, names_view(params@), levels_view(args@)),
        r matches Err(err) ==> err is DeepRecursion,
        old(g).depth() + crate::expr::expr_height(e@) + crate::expr::levels_height(levels_view(args@)) <= MAX_REC_DEPTH ==> r is Ok,
{
    let ghost ps = names_view(params@);
    let ghost av = levels_view(args@);
    let ghost fits = old(g).depth() + crate::expr::expr_height(e@) + crate::expr::levels_height(av)
        <= MAX_REC_DEPTH;
    match &(**e).node {
        ExprNode::Sort { level } => {
            let l2 = Level::instantiate_params(level, params, args, g)?;
            proof {
                lemma_inst_height(level@, ps, av);
            }
            if same_node(&l2, level) {
                Ok(share(e))
            } else {
                Expr::sort(l2, g)
            }
        },
        ExprNode::Const { name, levels } => {
            let ghost lv = levels_view(levels@);
            let mut out: Vec<Arc<Level>> = Vec::new();
            let mut changed = false;
            let mut i: usize = 0;
            while i < levels.len()
                invariant
                    i <= levels@.len(),
                    lv == levels_view(levels@),
                    ps == names_view(params@),
                    av == levels_view(args@),
                    *g == *old(g),
                    out@.len() == i,
                    forall|j: int| 0 <= j < i ==> (#[trigger] out@[j])@ == spec_inst(lv[j], ps, av).0,
                    !changed ==> forall|j: int| 0 <= j < i ==> (#[trigger] out@[j])@ == lv[j],
                    fits == (old(g).depth() + crate::expr::levels_height(lv) + crate::expr::levels_height(av)
                        <= MAX_REC_DEPTH),
                    fits == (old(g).depth() + crate::expr::expr_height(e@) + crate::expr::levels_height(av)
                        <= MAX_REC_DEPTH),
                decreases levels@.len() - i,
            {
                proof {
                    crate::expr::lemma_levels_height(lv, i as int);
                    assert(lv[i as int] == levels@[i as int]@);
                    assert(fits ==> g.depth() + level_height(levels@[i as int]@) + crate::expr::levels_height(
                        levels_view(args@),
                    ) <= MAX_REC_DEPTH);
                }
                let l2 = Level::instantiate_params(&levels[i], params, args, g)?;
                if !same_node(&l2, &levels[i]) {
                    changed = true;
                }
                out.push(l2);
                i = i + 1;
            }
            proof {
                assert(levels_view(out@) =~= inst_levels(lv, ps, av));
                if !changed {
                    assert(levels_view(out@) =~= lv);
                }
            }
            proof {
                if fits {
                    assert forall|j: int| 0 <= j < out@.len() implies old(g).depth() + level_height(
                        #[trigger] out@[j]@,
                    ) <= MAX_REC_DEPTH by {
                        crate::expr::lemma_levels_height(lv, j);
                        lemma_inst_height(lv[j], ps, av);
                    }
                }
            }
            if changed {
                Expr::const_(share(name), out, g)
            } else {
                Ok(share(e))
            }
        },
        _ => Ok(share(e)),
    }
}

fn lparams_go(e: &Arc<Expr>, params: &[Arc<Name>], args: &[Arc<Level>], g: &mut RecGuard) -> (r:
    Result<Arc<Expr>, KernelError>)
    ensures
        *final(g) == *old(g),
        r matches Ok(x) ==> x@ == lparams_spec(e@, names_view(params@), levels_view(args@)),
        r matches Err(err) ==> err is DeepRecursion,
        old(g).depth() + crate::expr::expr_height(e@) + crate::expr::levels_height(levels_view(args@)) <= MAX_REC_DEPTH ==> r is Ok,
    decreases tree_height(e@), 1nat,
{
    if !e.data().has_level_param() {
        proof {
            lemma_flags_exact(e@);
            lemma_lparams_nothing(e@, names_view(params@), levels_view(args@));
        }
        return Ok(share(e));
    }
    match &(**e).node {
        ExprNode::Sort { .. } | ExprNode::Const { .. } => lp_leaf(e, params, args, g),
        ExprNode::App { f, arg } => {
            let (x, y) = lp_two(share(f), share(arg), params, args, g)?;
            Ok(rebuild2(e, x, y))
        },
        ExprNode::Lam { binder_type, body, .. } => {
            let (x, y) = lp_two(share(binder_type), share(body), params, args, g)?;
            Ok(rebuild2(e, x, y))
        },
        ExprNode::ForallE { binder_type, body, .. } => {
            let (x, y) = lp_two(share(binder_type), share(body), params, args, g)?;
            Ok(rebuild2(e, x, y))
        },
        ExprNode::LetE { ty, value, body, .. } => {
            let (x, y, z) = lp_three(share(ty), share(value), share(body), params, args, g)?;
            Ok(rebuild3(e, x, y, z))
        },
        ExprNode::MData { expr, .. } => {
            let x = lp_one(share(expr), params, args, g)?;
            Ok(rebuild1(e, x))
        },
        ExprNode::Proj { structure, .. } => {
            let x = lp_one(share(structure), params, args, g)?;
            Ok(rebuild1(e, x))
        },
        _ => Ok(share(e)),
    }
}

/// `lparams_go` on one child, one frame deeper.
fn lp_one(a: Arc<Expr>, params: &[Arc<Name>], args: &[Arc<Level>], g: &mut RecGuard) -> (r:
    Result<Arc<Expr>, KernelError>)
    ensures
        *final(g) == *old(g),
        r matches Ok(x) ==> x@ == lparams_spec(a@, names_view(params@), levels_view(args@)),
        r matches Err(err) ==> err is DeepRecursion,
        old(g).depth() + 1 + crate::expr::expr_height(a@) + crate::expr::levels_height(levels_view(args@)) <= MAX_REC_DEPTH ==> r is Ok,
    decreases 1 + tree_height(a@), 0nat,
{
    let ghost ps = names_view(params@);
    let ghost av = levels_view(args@);
    let ghost ah = crate::expr::levels_height(av);
    let run = move |g2: RecGuard| -> (r: Result<Arc<Expr>, KernelError>)
        ensures
            r matches Ok(x) ==> x@ == lparams_spec(a@, ps, av),
            r matches Err(err) ==> err is DeepRecursion,
            g2.depth() + crate::expr::expr_height(a@) + ah <= MAX_REC_DEPTH ==> r is Ok,
        {
            let mut g3 = g2;
            lparams_go(&a, params, args, &mut g3)
        };
    g.enter(run)
}

/// `lparams_go` on two children, one frame deeper.
fn lp_two(a: Arc<Expr>, b: Arc<Expr>, params: &[Arc<Name>], args: &[Arc<Level>], g: &mut RecGuard) -> (r:
    Result<(Arc<Expr>, Arc<Expr>), KernelError>)
    ensures
        *final(g) == *old(g),
        r matches Ok(p) ==> p.0@ == lparams_spec(a@, names_view(params@), levels_view(args@))
            && p.1@ == lparams_spec(b@, names_view(params@), levels_view(args@)),
        r matches Err(err) ==> err is DeepRecursion,
        old(g).depth() + 1 + crate::expr::max_nat(crate::expr::expr_height(a@), crate::expr::expr_height(b@))
            + crate::expr::levels_height(levels_view(args@)) <= MAX_REC_DEPTH ==> r is Ok,
    decreases 1 + max_nat(tree_height(a@), tree_height(b@)), 0nat,
{
    let ghost ps = names_view(params@);
    let ghost av = levels_view(args@);
    let ghost ah = crate::expr::levels_height(av);
    let run = move |g2: RecGuard| -> (r: Result<(Arc<Expr>, Arc<Expr>), KernelError>)
        ensures
            r matches Ok(p) ==> p.0@ == lparams_spec(a@, ps, av) && p.1@ == lparams_spec(b@, ps, av),
            r matches Err(err) ==> err is DeepRecursion,
            g2.depth() + crate::expr::expr_height(a@) + ah <= MAX_REC_DEPTH && g2.depth()
                + crate::expr::expr_height(b@) + ah <= MAX_REC_DEPTH ==> r is Ok,
        {
            let mut g3 = g2;
            let x = match lparams_go(&a, params, args, &mut g3) {
                Ok(x) => x,
                Err(err) => {
                    return Err(err);
                },
            };
            match lparams_go(&b, params, args, &mut g3) {
                Ok(y) => Ok((x, y)),
                Err(err) => Err(err),
            }
        };
    g.enter(run)
}

/// `lparams_go` on three children, one frame deeper.
fn lp_three(
    a: Arc<Expr>,
    b: Arc<Expr>,
    c: Arc<Expr>,
    params: &[Arc<Name>],
    args: &[Arc<Level>],
    g: &mut RecGuard,
) -> (r: Result<(Arc<Expr>, Arc<Expr>, Arc<Expr>), KernelError>)
    ensures
        *final(g) == *old(g),
        r matches Ok(p) ==> p.0@ == lparams_spec(a@, names_view(params@), levels_view(args@))
            && p.1@ == lparams_spec(b@, names_view(params@), levels_view(args@)) && p.2@
            == lparams_spec(c@, names_view(params@), levels_view(args@)),
        r matches Err(err) ==> err is DeepRecursion,
        old(g).depth() + 1 + crate::expr::max_nat(
            crate::expr::max_nat(crate::expr::expr_height(a@), crate::expr::expr_height(b@)),
            crate::expr::expr_height(c@),
        ) + crate::expr::levels_height(levels_view(args@)) <= MAX_REC_DEPTH ==> r is Ok,
    decreases 1 + max_nat(max_nat(tree_height(a@), tree_height(b@)), tree_height(c@)), 0nat,
{
    let ghost ps = names_view(params@);
    let ghost av = levels_view(args@);
    let ghost ah = crate::expr::levels_height(av);
    let run = move |g2: RecGuard| -> (r: Result<(Arc<Expr>, Arc<Expr>, Arc<Expr>), KernelError>)
        ensures
            r matches Ok(p) ==> p.0@ == lparams_spec(a@, ps, av) && p.1@ == lparams_spec(b@, ps, av)
                && p.2@ == lparams_spec(c@, ps, av),
            r matches Err(err) ==> err is DeepRecursion,
            g2.depth() + crate::expr::expr_height(a@) + ah <= MAX_REC_DEPTH && g2.depth()
                + crate::expr::expr_height(b@) + ah <= MAX_REC_DEPTH && g2.depth()
                + crate::expr::expr_height(c@) + ah <= MAX_REC_DEPTH ==> r is Ok,
        {
            let mut g3 = g2;
            let x = match lparams_go(&a, params, args, &mut g3) {
                Ok(x) => x,
                Err(err) => {
                    return Err(err);
                },
            };
            let y = match lparams_go(&b, params, args, &mut g3) {
                Ok(y) => y,
                Err(err) => {
                    return Err(err);
                },
            };
            match lparams_go(&c, params, args, &mut g3) {
                Ok(z) => Ok((x, y, z)),
                Err(err) => Err(err),
            }
        };
    g.enter(run)
}

// ---------------------------------------------------------------------
// Laws.
// ---------------------------------------------------------------------

proof fn lemma_abstract_inst_rev_at(e: SExpr, off: nat, fv: Seq<SExpr>)
    requires
        loose_range(e) <= off,
        off + tree_height(e) <= u32::MAX,
    ensures
        inst_spec(abstract_spec(e, off, fv), 0, off, fv, true) == e,
    decreases e,
{
    match e {
        SExpr::FVar(id) => {
            lemma_fvar_pos(fv, id);
            let p = fvar_pos(fv, id);
            if p >= 0 {
                let i = (off + fv.len() - p - 1) as nat;
                assert(subst_index(i - off, fv.len(), true) == p);
                lemma_lift_closed(fv[p], 0, off);
            }
        },
        SExpr::App(f, a) => {
            lemma_abstract_inst_rev_at(*f, off, fv);
            lemma_abstract_inst_rev_at(*a, off, fv);
        },
        SExpr::Lam(_, t, b, _) => {
            lemma_abstract_inst_rev_at(*t, off, fv);
            lemma_abstract_inst_rev_at(*b, off + 1, fv);
        },
        SExpr::ForallE(_, t, b, _) => {
            lemma_abstract_inst_rev_at(*t, off, fv);
            lemma_abstract_inst_rev_at(*b, off + 1, fv);
        },
        SExpr::LetE(_, t, v, b, _) => {
            lemma_abstract_inst_rev_at(*t, off, fv);
            lemma_abstract_inst_rev_at(*v, off, fv);
            lemma_abstract_inst_rev_at(*b, off + 1, fv);
        },
        SExpr::MData(_, x) => {
            lemma_abstract_inst_rev_at(*x, off, fv);
        },
        SExpr::Proj(_, _, x) => {
            lemma_abstract_inst_rev_at(*x, off, fv);
        },
        _ => {},
    }
}

/// Abstracting the free variables `fvars` out of an expression without
/// loose bound variables, then instantiating the result with `fvars`
/// (innermost last), gives the expression back.
pub proof fn law_abstract_then_instantiate_rev(e: SExpr, fvars: Seq<SExpr>)
    requires
        loose_range(e) == 0,
        tree_height(e) <= u32::MAX,
    ensures
        inst_spec(abstract_spec(e, 0, fvars), 0, 0, fvars, true) == e,
{
    lemma_abstract_inst_rev_at(e, 0, fvars);
}

/// Instantiating an expression whose loose bound variables all lie below
/// the window changes nothing; in particular instantiating an expression
/// without loose bound variables.
pub proof fn law_instantiate_closed(e: SExpr, s: nat, sub: Seq<SExpr>, rev: bool)
    requires
        loose_range(e) <= s,
    ensures
        inst_spec(e, s, 0, sub, rev) == e,
{
    lemma_inst_closed(e, s, 0, sub, rev);
}

/// Lifting the loose bound variables at or above `s` by one and then
/// instantiating `#s` with any `x` gives the expression back.
pub proof fn law_instantiate_undoes_lift(e: SExpr, s: nat, off: nat, x: SExpr, rev: bool)
    ensures
        inst_spec(lift_spec(e, s + off, 1), s, off, seq![x], rev) == e,
    decreases e,
{
    if s + off <= u32::MAX {
        match e {
            SExpr::App(f, a) => {
                law_instantiate_undoes_lift(*f, s, off, x, rev);
                law_instantiate_undoes_lift(*a, s, off, x, rev);
            },
            SExpr::Lam(_, t, b, _) => {
                law_instantiate_undoes_lift(*t, s, off, x, rev);
                law_instantiate_undoes_lift(*b, s, off + 1, x, rev);
            },
            SExpr::ForallE(_, t, b, _) => {
                law_instantiate_undoes_lift(*t, s, off, x, rev);
                law_instantiate_undoes_lift(*b, s, off + 1, x, rev);
            },
            SExpr::LetE(_, t, v, b, _) => {
                law_instantiate_undoes_lift(*t, s, off, x, rev);
                law_instantiate_undoes_lift(*v, s, off, x, rev);
                law_instantiate_undoes_lift(*b, s, off + 1, x, rev);
            },
            SExpr::MData(_, y) => {
                law_instantiate_undoes_lift(*y, s, off, x, rev);
            },
            SExpr::Proj(_, _, y) => {
                law_instantiate_undoes_lift(*y, s, off, x, rev);
            },
            _ => {},
        }
    }
}

/// Instantiating universe parameters in an expression without universe
/// parameters changes nothing.
pub proof fn law_lparams_without_params(e: SExpr, ps: Seq<Seq<NameComp>>, args: Seq<SLevel>)
    requires
        !expr_has_level_param(e),
    ensures
        lparams_spec(e, ps, args) == e,
{
    lemma_lparams_nothing(e, ps, args);
}

} // verus!
