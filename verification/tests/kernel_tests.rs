use leanr_kernel::{
    compare_hints, quot_major_positions, quot_reduce_rec, quot_reduce_with, to_lbool, BinderInfo,
    Expr, KernelError, Lbool, Level, Literal, Name, Nat, RecGuard, ReducibilityHints, UnionFind,
};
use std::sync::Arc;
use ReducibilityHints::{Abbrev, Opaque, Regular};

fn nm(s: &str) -> Arc<Name> {
    Arc::new(Name::Str { parent: Arc::new(Name::Anonymous), part: s.to_string() })
}
fn nm2(a: &str, b: &str) -> Arc<Name> {
    Name::mk_str(Name::mk_str(Name::anonymous(), a), b)
}
fn lit(i: u64) -> Arc<Expr> {
    Expr::lit(Literal::NatVal(Nat::from_u64(i)))
}
fn cst(n: Arc<Name>) -> Arc<Expr> {
    Expr::const_(n, vec![Arc::new(Level::Zero)], &mut RecGuard::new()).unwrap()
}
fn spine(f: Arc<Expr>, args: &[Arc<Expr>]) -> Arc<Expr> {
    Expr::mk_app_spine(f, args)
}

#[test]
fn hints_order_lazy_unfolding() {
    assert_eq!(compare_hints(Regular(3), Regular(3)), 0);
    assert_eq!(compare_hints(Regular(5), Regular(3)), -1);
    assert_eq!(compare_hints(Regular(3), Regular(5)), 1);
    assert_eq!(compare_hints(Opaque, Opaque), 0);
    assert_eq!(compare_hints(Abbrev, Abbrev), 0);
    assert_eq!(compare_hints(Opaque, Regular(1)), 1);
    assert_eq!(compare_hints(Regular(1), Opaque), -1);
    assert_eq!(compare_hints(Abbrev, Regular(1)), -1);
    assert_eq!(compare_hints(Regular(1), Abbrev), 1);
    assert_eq!(compare_hints(Abbrev, Opaque), -1);
    assert!(Regular(0).is_regular_hint());
    assert!(!Abbrev.is_regular_hint());
}

#[test]
fn hints_order_is_antisymmetric_on_samples() {
    let all = [Opaque, Abbrev, Regular(0), Regular(7)];
    for a in all {
        for b in all {
            assert_eq!(compare_hints(a, b), -compare_hints(b, a));
        }
        assert_eq!(compare_hints(a, a), 0);
    }
}

#[test]
fn lbool_from_bool() {
    assert_eq!(to_lbool(true), Lbool::True);
    assert_eq!(to_lbool(false), Lbool::False);
}

#[test]
fn union_find_is_equiv_structurally_and_by_merges() {
    let mut uf = UnionFind::new();
    let mut g = RecGuard::new();
    let a = Expr::app(cst(nm("f")), lit(1));
    let a2 = Expr::app(cst(nm("f")), lit(1));
    let b = Expr::app(cst(nm("f")), lit(2));
    // the same node, and a structural twin
    assert!(uf.is_equiv(&a, &a, true, &mut g).unwrap());
    assert!(uf.is_equiv(&a, &a2, false, &mut g).unwrap());
    assert!(uf.is_equiv(&a, &a2, true, &mut g).unwrap());
    // a real difference
    assert!(!uf.is_equiv(&a, &b, false, &mut g).unwrap());
    // after a recorded equation the two are in one class
    uf.merge(&a, &b);
    assert!(uf.is_equiv(&a, &b, false, &mut g).unwrap());
    assert!(uf.is_equiv(&b, &a2, false, &mut g).unwrap());
    // the guard is back where it started
    assert_eq!(g.current_depth(), 0);
}

#[test]
fn union_find_hash_mode_rejects_unequal_hashes_first() {
    let mut uf = UnionFind::new();
    let mut g = RecGuard::new();
    let a = lit(1);
    let b = lit(2);
    uf.merge(&a, &b);
    // classes say equal; with the hash filter on, unequal hashes say no
    assert!(uf.is_equiv(&a, &b, false, &mut g).unwrap());
    assert!(!uf.is_equiv(&a, &b, true, &mut g).unwrap());
}

#[test]
fn union_find_binder_names_do_not_matter() {
    let mut uf = UnionFind::new();
    let mut g = RecGuard::new();
    let t = cst(nm("Nat"));
    let a = Expr::lam(nm("x"), Arc::clone(&t), Expr::bvar(Nat::from_u64(0)), BinderInfo::Default);
    let b = Expr::lam(nm("y"), Arc::clone(&t), Expr::bvar(Nat::from_u64(0)), BinderInfo::Implicit);
    assert!(uf.is_equiv(&a, &b, false, &mut g).unwrap());
}

#[test]
fn quot_lift_positions_and_reduction() {
    // Quot.lift α r β f h q x  reduces when q is Quot.mk α r a to  f a x
    let q_lift = cst(nm2("Quot", "lift"));
    let q_mk = cst(nm2("Quot", "mk"));
    let f = Expr::fvar(nm("f"));
    let a = lit(42);
    let x = lit(7);
    let q = spine(q_mk, &[lit(0), lit(1), Arc::clone(&a)]);
    let e = spine(q_lift, &[lit(10), lit(11), lit(12), Arc::clone(&f), lit(13), Arc::clone(&q), Arc::clone(&x)]);
    assert_eq!(quot_major_positions(&e), Some((5, 3)));
    let r = quot_reduce_with(&e, &q).unwrap();
    let expected = Expr::app(Expr::app(f, a), x);
    assert!(Expr::structural_eq(&r, &expected, &mut RecGuard::new()).unwrap());
}

#[test]
fn quot_ind_positions() {
    let q_ind = cst(nm2("Quot", "ind"));
    let e = spine(Arc::clone(&q_ind), &[lit(0), lit(1), lit(2), lit(3), lit(4)]);
    assert_eq!(quot_major_positions(&e), Some((4, 3)));
    // too few arguments: the quotient argument is missing
    let short = spine(q_ind, &[lit(0), lit(1), lit(2), lit(3)]);
    assert_eq!(quot_major_positions(&short), None);
    // another head
    let other = spine(cst(nm2("Quot", "mk")), &[lit(0), lit(1), lit(2), lit(3), lit(4), lit(5)]);
    assert_eq!(quot_major_positions(&other), None);
}

#[test]
fn quot_reduce_rec_runs_whnf_on_the_quotient_argument() {
    let q_ind = cst(nm2("Quot", "ind"));
    let h = Expr::fvar(nm("h"));
    let mk = spine(cst(nm2("Quot", "mk")), &[lit(0), lit(1), lit(99)]);
    let e = spine(q_ind, &[lit(0), lit(1), lit(2), Arc::clone(&h), Expr::fvar(nm("q"))]);
    let r = quot_reduce_rec(&e, |arg: &Arc<Expr>| {
        assert!(arg.is_fvar());
        Ok(Arc::clone(&mk))
    })
    .unwrap()
    .unwrap();
    let expected = Expr::app(h, lit(99));
    assert!(Expr::structural_eq(&r, &expected, &mut RecGuard::new()).unwrap());
    // a quotient argument that does not reduce to Quot.mk gives nothing
    let none = quot_reduce_rec(&e, |arg: &Arc<Expr>| Ok(Arc::clone(arg))).unwrap();
    assert!(none.is_none());
    // the normalizer's error is passed on
    let err = quot_reduce_rec(&e, |_: &Arc<Expr>| Err(KernelError::DeepRecursion));
    assert_eq!(err.unwrap_err(), KernelError::DeepRecursion);
    // not a quotient application: the normalizer never runs
    let plain = lit(3);
    let r2 = quot_reduce_rec(&plain, |_: &Arc<Expr>| -> Result<Arc<Expr>, KernelError> { panic!("must not run") });
    assert!(r2.unwrap().is_none());
}

#[test]
fn quot_reduce_needs_three_mk_arguments() {
    let q_ind = cst(nm2("Quot", "ind"));
    let e = spine(q_ind, &[lit(0), lit(1), lit(2), lit(3), lit(4)]);
    let bad_mk = spine(cst(nm2("Quot", "mk")), &[lit(0), lit(1)]);
    assert!(quot_reduce_with(&e, &bad_mk).is_none());
}
