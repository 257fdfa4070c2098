use leanr_kernel::{BinderInfo, Expr, ExprNode, Level, Literal, Name, Nat, RecGuard};
use std::sync::Arc;

fn nm(s: &str) -> Arc<Name> {
    Arc::new(Name::Str { parent: Arc::new(Name::Anonymous), part: s.to_string() })
}

#[test]
fn loose_bvar_range_tracks_binders() {
    let b0 = Expr::bvar(Nat::from_u64(0));
    let b3 = Expr::bvar(Nat::from_u64(3));
    assert_eq!(b0.data().loose_bvar_range(), 1);
    assert_eq!(b3.data().loose_bvar_range(), 4);
    let lam = Expr::lam(nm("x"), Expr::fvar(nm("T")), Arc::clone(&b0), BinderInfo::Default);
    // λ (x : T), #0 is closed: the body's #0 is x itself.
    assert_eq!(lam.data().loose_bvar_range(), 0);
    let lam_open = Expr::lam(nm("x"), Arc::clone(&b0), Arc::clone(&b3), BinderInfo::Default);
    // body #3 under one binder gives 3; the binder type #0 gives 1
    assert_eq!(lam_open.data().loose_bvar_range(), 3);
    let app = Expr::app(b0, b3);
    assert_eq!(app.data().loose_bvar_range(), 4);
}

#[test]
fn flags_propagate() {
    let mut g = RecGuard::new();
    let fv = Expr::fvar(nm("h"));
    let mv = Expr::mvar(nm("m"));
    let app = Expr::app(fv, mv);
    assert!(app.data().has_fvar());
    assert!(app.data().has_expr_mvar());
    let sp = Expr::sort(Arc::new(Level::Param(nm("u"))), &mut g).unwrap();
    assert!(sp.data().has_level_param());
    assert!(!sp.data().has_fvar());
}

#[test]
fn structural_eq_implies_hash_eq_and_ptr_neq_ok() {
    let mut g = RecGuard::new();
    let mk = |g: &mut RecGuard| {
        let n = Expr::const_(nm("Nat"), vec![], g).unwrap();
        Expr::forall_e(nm("x"), Arc::clone(&n), Expr::bvar(Nat::from_u64(0)), BinderInfo::Default)
    };
    let a = mk(&mut g);
    let b = mk(&mut g);
    assert!(!Arc::ptr_eq(&a, &b));
    assert!(Expr::structural_eq(&a, &b, &mut g).unwrap());
    assert_eq!(a.data().hash(), b.data().hash());
}

#[test]
fn alpha_eq_true_for_name_and_info_differing_binders() {
    let mut g = RecGuard::new();
    let n = Expr::const_(nm("Nat"), vec![], &mut g).unwrap();
    let a = Expr::forall_e(nm("x"), Arc::clone(&n), Expr::bvar(Nat::from_u64(0)), BinderInfo::Default);
    let b = Expr::forall_e(nm("y"), Arc::clone(&n), Expr::bvar(Nat::from_u64(0)), BinderInfo::Implicit);
    assert!(!Expr::structural_eq(&a, &b, &mut g).unwrap());
    assert!(Expr::alpha_eq(&a, &b, &mut g).unwrap());
}

#[test]
fn alpha_eq_false_for_genuine_structural_difference() {
    let mut g = RecGuard::new();
    let n = Expr::const_(nm("Nat"), vec![], &mut g).unwrap();
    let a = Expr::forall_e(nm("x"), Arc::clone(&n), Expr::bvar(Nat::from_u64(0)), BinderInfo::Default);
    let b = Expr::forall_e(
        nm("x"),
        Arc::clone(&n),
        Expr::lit(Literal::NatVal(Nat::from_u64(0))),
        BinderInfo::Default,
    );
    assert!(!Expr::alpha_eq(&a, &b, &mut g).unwrap());
}

#[test]
fn hash_reject_makes_deep_unequal_cheap() {
    let mut g = RecGuard::new();
    let mut a = Expr::bvar(Nat::from_u64(0));
    let mut b = Expr::bvar(Nat::from_u64(1));
    for _ in 0..100_000 {
        a = Expr::app(a, Expr::lit(Literal::StrVal("x".into())));
        b = Expr::app(b, Expr::lit(Literal::StrVal("x".into())));
    }
    assert!(!Expr::structural_eq(&a, &b, &mut g).unwrap());
    // Dropping spines this deep would recurse once per node.
    std::mem::forget(a);
    std::mem::forget(b);
}

#[test]
fn app_spine_helpers() {
    let mut g = RecGuard::new();
    let f = Expr::const_(nm("f"), vec![], &mut g).unwrap();
    let x = Expr::lit(Literal::NatVal(Nat::from_u64(1)));
    let y = Expr::lit(Literal::NatVal(Nat::from_u64(2)));
    let e = Expr::mk_app_spine(Arc::clone(&f), &[x, y]);
    assert!(Arc::ptr_eq(Expr::get_app_fn(&e), &f));
    assert_eq!(Expr::get_app_num_args(&e), 2);
    assert_eq!(Expr::get_app_args(&e).len(), 2);
}

#[test]
fn app_args_come_back_in_application_order() {
    let mut g = RecGuard::new();
    let f = Expr::fvar(nm("f"));
    let x = Expr::lit(Literal::NatVal(Nat::from_u64(1)));
    let y = Expr::lit(Literal::NatVal(Nat::from_u64(2)));
    let e = Expr::app(Expr::app(Arc::clone(&f), Arc::clone(&x)), Arc::clone(&y));
    let args = Expr::get_app_args(&e);
    assert!(Arc::ptr_eq(&args[0], &x));
    assert!(Arc::ptr_eq(&args[1], &y));
    let rebuilt = Expr::mk_app_spine(f, &args);
    assert!(Expr::structural_eq(&rebuilt, &e, &mut g).unwrap());
}

#[test]
fn mdata_and_proj_keep_the_inner_flags() {
    let fv = Expr::fvar(nm("h"));
    let p = Expr::proj(nm("Prod"), Nat::from_u64(0), Arc::clone(&fv));
    assert!(p.data().has_fvar());
    assert_eq!(p.data().loose_bvar_range(), 0);
    let b = Expr::bvar(Nat::from_u64(2));
    let md = Expr::mdata(leanr_kernel::KVMap(vec![]), b);
    assert_eq!(md.data().loose_bvar_range(), 3);
    assert!(md.is_mdata());
    assert!(p.is_proj());
}

#[test]
fn let_closes_only_its_body() {
    let b0 = Expr::bvar(Nat::from_u64(0));
    let e = Expr::let_e(nm("x"), Expr::fvar(nm("T")), Arc::clone(&b0), Arc::clone(&b0), false);
    // the value's #0 is loose, the body's #0 is the let-bound variable
    assert_eq!(e.data().loose_bvar_range(), 1);
    assert!(e.is_let());
}

#[test]
fn literal_differences_are_seen() {
    let mut g = RecGuard::new();
    let a = Expr::lit(Literal::StrVal("a".into()));
    let b = Expr::lit(Literal::StrVal("b".into()));
    let a2 = Expr::lit(Literal::StrVal("a".into()));
    assert!(!Expr::structural_eq(&a, &b, &mut g).unwrap());
    assert!(Expr::structural_eq(&a, &a2, &mut g).unwrap());
    let n = Expr::lit(Literal::NatVal(Nat::from_u64(5)));
    assert!(!Expr::structural_eq(&a, &n, &mut g).unwrap());
}

#[test]
fn const_name_and_predicates() {
    let mut g = RecGuard::new();
    let c = Expr::const_(nm("Nat"), vec![Arc::new(Level::Zero)], &mut g).unwrap();
    assert!(c.is_const());
    assert!(c.const_name().unwrap().equal(&nm("Nat")));
    assert!(Expr::bvar(Nat::from_u64(0)).const_name().is_none());
    let ExprNode::Const { levels, .. } = c.node() else { panic!() };
    assert_eq!(levels.len(), 1);
}
