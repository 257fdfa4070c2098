//! Quotient recursor reduction: `Quot.lift f h q` and `Quot.ind h q`
//! reduce when their quotient argument `q` reduces (by a caller-supplied
//! weak head normalizer) to `Quot.mk _ _ a`: the result is `f a` (or
//! `h a`), applied to whatever arguments follow.
use crate::error::KernelError;
use crate::expr::{app_args, app_fn, exprs_view, mk_spine, Expr, SExpr};
use crate::expr_laws::lemma_spine_of_mk;
use crate::name::{Name, NameComp};
use crate::shared::share;
use std::sync::Arc;
use vstd::prelude::*;

verus! {

pub open spec fn two_part_name(a: Seq<char>, b: Seq<char>) -> Seq<NameComp> {
    seq![NameComp::Str(a), NameComp::Str(b)]
}

/// For `Quot.lift` and `Quot.ind`: the position of the quotient argument
/// and of the function argument in the application spine.
pub open spec fn quot_positions(n: Seq<NameComp>) -> Option<(nat, nat)> {
    if n == two_part_name("Quot"@, "lift"@) {
        Some((5nat, 3nat))
    } else if n == two_part_name("Quot"@, "ind"@) {
        Some((4nat, 3nat))
    } else {
        None
    }
}

/// The positions when `e` is an application of `Quot.lift` or `Quot.ind`
/// with its quotient argument present.
pub open spec fn quot_major(e: SExpr) -> Option<(nat, nat)> {
    match app_fn(e) {
        SExpr::Const(n, _) => match quot_positions(n) {
            Some(p) => if app_args(e).len() > p.0 {
                Some(p)
            } else {
                None
            },
            None => None,
        },
        _ => None,
    }
}

/// The reduct once the quotient argument has reduced to `mk`: when `mk`
/// is `Quot.mk` applied to three arguments, the function argument applied
/// to the last of them and then to the arguments after the quotient one.
pub open spec fn quot_reduct(e: SExpr, mk: SExpr) -> Option<SExpr> {
    match quot_major(e) {
        Some(p) => {
            let args = app_args(e);
            if app_fn(mk) matches SExpr::Const(n, _) && n == two_part_name("Quot"@, "mk"@)
                && app_args(mk).len() == 3 {
                Some(
                    mk_spine(
                        SExpr::App(Box::new(args[p.1 as int]), Box::new(app_args(mk)[2])),
                        args.skip(p.0 + 1 as int),
                    ),
                )
            } else {
                None
            }
        },
        None => None,
    }
}

fn mk_name2(a: &str, b: &str) -> (r: Arc<Name>)
    ensures
        r@ == two_part_name(a@, b@),
{
    let r = Name::mk_str(Name::mk_str(Name::anonymous(), a), b);
    proof {
        assert(r@ =~= two_part_name(a@, b@));
    }
    r
}

/// The quotient and function positions of `e`, or `None` when `e` is no
/// such application (`quot_major`).
pub fn quot_major_positions(e: &Arc<Expr>) -> (r: Option<(usize, usize)>)
    ensures
        match quot_major(e@) {
            Some(p) => r matches Some(q) && q.0 == p.0 && q.1 == p.1,
            None => r is None,
        },
{
    let head = Expr::get_app_fn(e);
    let name = match head.const_name() {
        Some(n) => n,
        None => {
            return None;
        },
    };
    let quot_lift = mk_name2("Quot", "lift");
    let quot_ind = mk_name2("Quot", "ind");
    let (mk_pos, arg_pos): (usize, usize) = if name.equal(&quot_lift) {
        (5, 3)
    } else if name.equal(&quot_ind) {
        (4, 3)
    } else {
        return None;
    };
    let args = Expr::get_app_args(e);
    if args.len() <= mk_pos {
        return None;
    }
    Some((mk_pos, arg_pos))
}

/// The reduct of `e` once its quotient argument has reduced to `mk`
/// (`quot_reduct`).
pub fn quot_reduce_with(e: &Arc<Expr>, mk: &Arc<Expr>) -> (r: Option<Arc<Expr>>)
    ensures
        match quot_reduct(e@, mk@) {
            Some(x) => r matches Some(y) && y@ == x,
            None => r is None,
        },
{
    let (mk_pos, arg_pos) = match quot_major_positions(e) {
        Some(p) => p,
        None => {
            return None;
        },
    };
    let args = Expr::get_app_args(e);
    let mk_fn = Expr::get_app_fn(mk);
    let mk_args = Expr::get_app_args(mk);
    let quot_mk = mk_name2("Quot", "mk");
    let is_mk = match mk_fn.const_name() {
        Some(n) => n.equal(&quot_mk),
        None => false,
    };
    if !is_mk || mk_args.len() != 3 {
        return None;
    }
    let ghost av = exprs_view(args@);
    proof {
        assert(av[arg_pos as int] == args@[arg_pos as int]@);
        assert(exprs_view(mk_args@)[2] == mk_args@[2]@);
    }
    let mut r = Expr::app(share(&args[arg_pos]), share(&mk_args[2]));
    let ghost base = r@;
    let mut i: usize = mk_pos + 1;
    while i < args.len()
        invariant
            mk_pos + 1 <= i <= args@.len(),
            av == exprs_view(args@),
            r@ == mk_spine(base, av.subrange(mk_pos + 1, i as int)),
        decreases args@.len() - i,
    {
        proof {
            assert(av.subrange(mk_pos + 1, i + 1).drop_last() =~= av.subrange(mk_pos + 1, i as int));
            assert(av.subrange(mk_pos + 1, i + 1).last() == args@[i as int]@);
        }
        r = Expr::app(r, share(&args[i]));
        i = i + 1;
    }
    proof {
        assert(av.subrange(mk_pos + 1, i as int) =~= av.skip(mk_pos + 1 as int));
    }
    Some(r)
}

/// Reduces a `Quot.lift` or `Quot.ind` application `e` whose quotient
/// argument `whnf` reduces to `Quot.mk _ _ a`; `Ok(None)` when `e` is no
/// such application or the argument does not reduce to one. `whnf` runs
/// at most once, on the quotient argument, and its error is passed on.
pub fn quot_reduce_rec<F>(e: &Arc<Expr>, whnf: F) -> (r: Result<Option<Arc<Expr>>, KernelError>)
    where
        F: FnOnce(&Arc<Expr>) -> Result<Arc<Expr>, KernelError>,
    requires
        forall|x: &Arc<Expr>| whnf.requires((x,)),
    ensures
        quot_major(e@) is None ==> r matches Ok(None),
        quot_major(e@) matches Some(p) ==> exists|x: &Arc<Expr>, w: Result<Arc<Expr>, KernelError>|
            #![trigger whnf.ensures((x,), w)]
            x@ == app_args(e@)[p.0 as int] && whnf.ensures((x,), w) && match w {
                Err(err) => r == Err::<Option<Arc<Expr>>, KernelError>(err),
                Ok(m) => match quot_reduct(e@, m@) {
                    Some(y) => r matches Ok(Some(z)) && z@ == y,
                    None => r matches Ok(None),
                },
            },
{
    let (mk_pos, _) = match quot_major_positions(e) {
        Some(p) => p,
        None => {
            return Ok(None);
        },
    };
    let args = Expr::get_app_args(e);
    proof {
        assert(exprs_view(args@)[mk_pos as int] == args@[mk_pos as int]@);
    }
    let w = whnf(&args[mk_pos]);
    match w {
        Err(err) => Err(err),
        Ok(mk) => Ok(quot_reduce_with(e, &mk)),
    }
}

} // verus!
