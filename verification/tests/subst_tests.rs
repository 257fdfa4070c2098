use leanr_kernel::{
    abstract_fvars, instantiate, instantiate_core, instantiate_level_params, instantiate_rev,
    lift_loose_bvars, BinderInfo, Expr, ExprNode, Level, Literal, Name, Nat, RecGuard,
};
use std::sync::Arc;

fn nm(s: &str) -> Arc<Name> {
    Arc::new(Name::Str { parent: Arc::new(Name::Anonymous), part: s.to_string() })
}
fn bv(i: u64) -> Arc<Expr> {
    Expr::bvar(Nat::from_u64(i))
}
fn lit(i: u64) -> Arc<Expr> {
    Expr::lit(Literal::NatVal(Nat::from_u64(i)))
}

#[test]
fn instantiate_hits_only_index_zero_at_top() {
    let mut g = RecGuard::new();
    // (#0 #1)[x] = (x #0): #1 shifts down to #0
    let e = Expr::app(bv(0), bv(1));
    let r = instantiate(&e, &lit(7), &mut g).unwrap();
    let ExprNode::App { f, arg } = r.node() else { panic!() };
    assert!(Expr::structural_eq(f, &lit(7), &mut g).unwrap());
    assert!(Expr::structural_eq(arg, &bv(0), &mut g).unwrap());
}

#[test]
fn instantiate_shifts_under_binders() {
    let mut g = RecGuard::new();
    // (λ x, #1)[y] = λ x, y
    let e = Expr::lam(nm("x"), lit(0), bv(1), BinderInfo::Default);
    let r = instantiate(&e, &lit(7), &mut g).unwrap();
    let ExprNode::Lam { body, .. } = r.node() else { panic!() };
    assert!(Expr::structural_eq(body, &lit(7), &mut g).unwrap());
    // the substituted term's own loose bvars are lifted: (λ x, #1)[#0] = λ x, #1
    let r2 = instantiate(&e, &bv(0), &mut g).unwrap();
    let ExprNode::Lam { body, .. } = r2.node() else { panic!() };
    assert!(Expr::structural_eq(body, &bv(1), &mut g).unwrap());
}

#[test]
fn closed_subtrees_are_shared_not_copied() {
    let mut g = RecGuard::new();
    let closed = Expr::app(lit(1), lit(2));
    let e = Expr::app(Arc::clone(&closed), bv(0));
    let r = instantiate(&e, &lit(9), &mut g).unwrap();
    let ExprNode::App { f, .. } = r.node() else { panic!() };
    assert!(Arc::ptr_eq(f, &closed));
}

#[test]
fn abstract_then_instantiate_roundtrips() {
    let mut g = RecGuard::new();
    let fv = Expr::fvar(nm("h"));
    let e = Expr::app(Arc::clone(&fv), lit(3));
    let abs = abstract_fvars(&e, &[Arc::clone(&fv)], &mut g).unwrap();
    assert_eq!(abs.data().loose_bvar_range(), 1);
    assert!(!abs.data().has_fvar());
    let back = instantiate(&abs, &fv, &mut g).unwrap();
    assert!(Expr::structural_eq(&back, &e, &mut g).unwrap());
}

#[test]
fn instantiate_rev_order_matches_oracle() {
    let mut g = RecGuard::new();
    // instantiate_rev: subst[len-1] replaces #0
    let e = Expr::app(bv(0), bv(1));
    let r = instantiate_rev(&e, &[lit(10), lit(20)], &mut g).unwrap();
    let ExprNode::App { f, arg } = r.node() else { panic!() };
    assert!(Expr::structural_eq(f, &lit(20), &mut g).unwrap());
    assert!(Expr::structural_eq(arg, &lit(10), &mut g).unwrap());
}

#[test]
fn level_params_substitute_in_const_and_sort() {
    let mut g = RecGuard::new();
    let u = nm("u");
    let c = Expr::const_(nm("f"), vec![Arc::new(Level::Param(Arc::clone(&u)))], &mut g).unwrap();
    let r = instantiate_level_params(&c, &[u], &[Arc::new(Level::Zero)], &mut g).unwrap();
    let ExprNode::Const { levels, .. } = r.node() else { panic!() };
    assert!(levels[0].is_zero());
    assert!(!r.data().has_level_param());
}

#[test]
fn lift_shifts_only_at_or_above_the_cutoff() {
    let mut g = RecGuard::new();
    let e = Expr::app(bv(0), bv(2));
    let r = lift_loose_bvars(&e, 1, 3, &mut g).unwrap();
    let ExprNode::App { f, arg } = r.node() else { panic!() };
    assert!(Expr::structural_eq(f, &bv(0), &mut g).unwrap());
    assert!(Expr::structural_eq(arg, &bv(5), &mut g).unwrap());
    // lifting by zero hands back the same node
    let same = lift_loose_bvars(&e, 0, 0, &mut g).unwrap();
    assert!(Arc::ptr_eq(&same, &e));
    // a closed term is untouched
    let closed = lit(4);
    let c2 = lift_loose_bvars(&closed, 0, 7, &mut g).unwrap();
    assert!(Arc::ptr_eq(&c2, &closed));
}

#[test]
fn instantiate_of_a_closed_term_is_the_term() {
    let mut g = RecGuard::new();
    let e = Expr::app(lit(1), Expr::fvar(nm("x")));
    let r = instantiate(&e, &lit(9), &mut g).unwrap();
    assert!(Arc::ptr_eq(&r, &e));
}

#[test]
fn instantiate_core_with_offset_skips_lower_indices() {
    let mut g = RecGuard::new();
    // with offset 1, #0 stays and #1 becomes the first substitute
    let e = Expr::app(bv(0), bv(1));
    let r = instantiate_core(&e, 1, &[lit(8)], &mut g).unwrap();
    let ExprNode::App { f, arg } = r.node() else { panic!() };
    assert!(Expr::structural_eq(f, &bv(0), &mut g).unwrap());
    assert!(Expr::structural_eq(arg, &lit(8), &mut g).unwrap());
}

#[test]
fn indices_past_the_substitution_drop_by_its_length() {
    let mut g = RecGuard::new();
    let e = bv(5);
    let r = instantiate(&e, &lit(1), &mut g).unwrap();
    assert!(Expr::structural_eq(&r, &bv(4), &mut g).unwrap());
    let r2 = instantiate_rev(&e, &[lit(1), lit(2)], &mut g).unwrap();
    assert!(Expr::structural_eq(&r2, &bv(3), &mut g).unwrap());
}

#[test]
fn instantiate_undoes_lift() {
    let mut g = RecGuard::new();
    let e = Expr::lam(nm("x"), bv(0), Expr::app(bv(0), bv(2)), BinderInfo::Default);
    let lifted = lift_loose_bvars(&e, 0, 1, &mut g).unwrap();
    let back = instantiate(&lifted, &lit(3), &mut g).unwrap();
    assert!(Expr::structural_eq(&back, &e, &mut g).unwrap());
}

#[test]
fn abstract_under_binder_counts_the_binder() {
    let mut g = RecGuard::new();
    let h = Expr::fvar(nm("h"));
    let e = Expr::lam(nm("x"), lit(0), Expr::app(bv(0), Arc::clone(&h)), BinderInfo::Default);
    let abs = abstract_fvars(&e, &[h], &mut g).unwrap();
    let ExprNode::Lam { body, .. } = abs.node() else { panic!() };
    let ExprNode::App { arg, .. } = body.node() else { panic!() };
    assert!(Expr::structural_eq(arg, &bv(1), &mut g).unwrap());
}

#[test]
fn abstract_of_several_fvars_numbers_from_the_last() {
    let mut g = RecGuard::new();
    let a = Expr::fvar(nm("a"));
    let b = Expr::fvar(nm("b"));
    let e = Expr::app(Arc::clone(&a), Arc::clone(&b));
    let abs = abstract_fvars(&e, &[a, b], &mut g).unwrap();
    let ExprNode::App { f, arg } = abs.node() else { panic!() };
    assert!(Expr::structural_eq(f, &bv(1), &mut g).unwrap());
    assert!(Expr::structural_eq(arg, &bv(0), &mut g).unwrap());
}

#[test]
fn abstract_skips_entries_that_are_not_fvars() {
    let mut g = RecGuard::new();
    let a = Expr::fvar(nm("a"));
    let e = Expr::app(Arc::clone(&a), lit(1));
    // the literal takes index 0's place but binds nothing; `a` is #1
    let abs = abstract_fvars(&e, &[a, lit(1)], &mut g).unwrap();
    let ExprNode::App { f, arg } = abs.node() else { panic!() };
    assert!(Expr::structural_eq(f, &bv(1), &mut g).unwrap());
    assert!(Expr::structural_eq(arg, &lit(1), &mut g).unwrap());
}

#[test]
fn level_params_without_params_leave_the_term() {
    let mut g = RecGuard::new();
    let e = Expr::app(lit(1), Expr::sort(Arc::new(Level::Zero), &mut g).unwrap());
    let r = instantiate_level_params(&e, &[nm("u")], &[Arc::new(Level::Zero)], &mut g).unwrap();
    assert!(Arc::ptr_eq(&r, &e));
}
