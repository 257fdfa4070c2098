use leanr_kernel::{
    append_after_str, append_index_after, consume_type_annotations, erase_macro_scopes_aux,
    expr_contains_new_type, expr_has_ind_occ, has_loose_bvar, has_loose_bvars_in_domain,
    has_macro_scopes, head_const, infer_implicit, is_explicit_bi, is_geq, lparams_to_levels,
    mk_rec_name, mk_simple_name, name_append, nested_prefix, peel_forall, replace_prefix,
    BinderInfo, Expr, ExprNode, KernelError, Level, Literal, Name, Nat, RecGuard,
};
use std::sync::Arc;

fn name(parts: &[&str]) -> Arc<Name> {
    let mut n = Name::anonymous();
    for p in parts {
        n = match p.parse::<u64>() {
            Ok(v) => Name::mk_num(n, Nat::from_u64(v)),
            Err(_) => Name::mk_str(n, p),
        };
    }
    n
}
fn bv(i: u64) -> Arc<Expr> {
    Expr::bvar(Nat::from_u64(i))
}
fn lit(i: u64) -> Arc<Expr> {
    Expr::lit(Literal::NatVal(Nat::from_u64(i)))
}
fn cst(s: &str) -> Arc<Expr> {
    Expr::const_(name(&[s]), vec![], &mut RecGuard::new()).unwrap()
}
fn sort0() -> Arc<Expr> {
    Expr::sort(Arc::new(Level::Zero), &mut RecGuard::new()).unwrap()
}
fn pi(n: &str, t: Arc<Expr>, b: Arc<Expr>, bi: BinderInfo) -> Arc<Expr> {
    Expr::forall_e(name(&[n]), t, b, bi)
}

#[test]
fn simple_and_recursor_names() {
    assert_eq!(mk_simple_name("Nat").to_string(), "Nat");
    assert_eq!(mk_rec_name(&name(&["List"])).to_string(), "List.rec");
    assert_eq!(nested_prefix().to_string(), "_nested");
    let ls = lparams_to_levels(&[name(&["u"]), name(&["v"])]);
    assert_eq!(ls.len(), 2);
    assert!(matches!(&*ls[1], Level::Param(n) if n.to_string() == "v"));
}

#[test]
fn macro_scopes_are_found_past_numeric_components() {
    let hyg = name(&["a", "_@", "Mod", "_hyg", "12"]);
    assert!(has_macro_scopes(&hyg));
    assert!(!has_macro_scopes(&name(&["a", "b"])));
    assert!(!has_macro_scopes(&name(&["_hyg", "x"])));
    assert!(!has_macro_scopes(&Name::anonymous()));
    assert_eq!(erase_macro_scopes_aux(&hyg).to_string(), "a");
    assert_eq!(erase_macro_scopes_aux(&name(&["a", "b"])).to_string(), "[anonymous]");
}

#[test]
fn prefixes_are_replaced_only_when_present() {
    let n = name(&["A", "B", "c", "1"]);
    assert_eq!(replace_prefix(&n, &name(&["A", "B"]), &name(&["X"])).to_string(), "X.c.1");
    assert_eq!(replace_prefix(&n, &name(&["B"]), &name(&["X"])).to_string(), "A.B.c.1");
    assert_eq!(replace_prefix(&n, &Name::anonymous(), &name(&["P"])).to_string(), "P.A.B.c.1");
    assert_eq!(replace_prefix(&n, &n, &name(&["Z"])).to_string(), "Z");
    assert_eq!(replace_prefix(&name(&["A"]), &name(&["A", "B"]), &name(&["X"])).to_string(), "A");
}

#[test]
fn names_append_component_wise() {
    assert_eq!(name_append(&name(&["A", "b"]), &name(&["c", "3"])).to_string(), "A.b.c.3");
    assert_eq!(name_append(&name(&["A"]), &Name::anonymous()).to_string(), "A");
    assert_eq!(name_append(&Name::anonymous(), &name(&["x"])).to_string(), "x");
}

#[test]
fn suffixes_go_after_the_base_and_before_the_scopes() {
    assert_eq!(append_after_str(&name(&["a"]), "_ih").to_string(), "a_ih");
    assert_eq!(append_after_str(&name(&["T", "1"]), "_ih").to_string(), "T.1._ih");
    let hyg = name(&["a", "_@", "Mod", "_hyg", "0"]);
    assert_eq!(append_after_str(&hyg, "_ih").to_string(), "a_ih._@.Mod._hyg.0");
    assert_eq!(append_index_after(&name(&["motive"]), 12).to_string(), "motive_12");
    assert_eq!(append_index_after(&hyg, 3).to_string(), "a_3._@.Mod._hyg.0");
}

#[test]
fn type_annotations_are_stripped() {
    let ty = cst("Nat");
    let opt = Expr::mk_app_spine(cst("optParam"), &[ty.clone(), lit(0)]);
    let out = Expr::app(cst("outParam"), opt.clone());
    let r = consume_type_annotations(&out);
    assert!(Expr::structural_eq(&r, &ty, &mut RecGuard::new()).unwrap());
    // wrong arity: left alone
    let bad = Expr::app(cst("optParam"), ty.clone());
    assert!(Arc::ptr_eq(&consume_type_annotations(&bad), &bad));
    assert!(Arc::ptr_eq(&consume_type_annotations(&ty), &ty));
}

#[test]
fn binder_shapes() {
    assert!(is_explicit_bi(BinderInfo::Default));
    assert!(!is_explicit_bi(BinderInfo::InstImplicit));
    let p = pi("x", sort0(), bv(0), BinderInfo::Implicit);
    let (n, _, body, bi) = peel_forall(&p).unwrap();
    assert_eq!(n.to_string(), "x");
    assert_eq!(bi, BinderInfo::Implicit);
    assert!(matches!(body.node(), ExprNode::BVar { .. }));
    assert!(peel_forall(&sort0()).is_none());
    let app = Expr::app(Expr::const_(name(&["F"]), vec![Arc::new(Level::Zero)], &mut RecGuard::new()).unwrap(), lit(1));
    let (hn, hl) = head_const(&app).unwrap();
    assert_eq!(hn.to_string(), "F");
    assert_eq!(hl.len(), 1);
    assert!(head_const(&lit(1)).is_none());
}

#[test]
fn loose_bound_variables_by_index() {
    let mut g = RecGuard::new();
    // λ x, #1 #0 : #0 of the outside occurs, #1 does not
    let e = Expr::lam(name(&["x"]), sort0(), Expr::app(bv(1), bv(0)), BinderInfo::Default);
    assert!(has_loose_bvar(&e, 0, &mut g).unwrap());
    assert!(!has_loose_bvar(&e, 1, &mut g).unwrap());
    assert!(!has_loose_bvar(&lit(3), 0, &mut g).unwrap());
    let l = Expr::let_e(name(&["y"]), bv(2), lit(1), bv(3), false);
    assert!(has_loose_bvar(&l, 2, &mut g).unwrap());
    assert!(!has_loose_bvar(&l, 0, &mut g).unwrap());
    assert_eq!(g.current_depth(), 0);
}

#[test]
fn deep_binder_nest_is_refused_not_crashed() {
    let mut e = bv(0);
    for _ in 0..1_100_000 {
        e = Expr::lam(name(&["x"]), sort0(), e, BinderInfo::Default);
    }
    // the cached range says nothing loose above 0, so a search for #5 ends at once
    assert!(!has_loose_bvar(&e, 5, &mut RecGuard::new()).unwrap());
    std::mem::forget(e);
    let mut f = bv(1_100_000);
    for _ in 0..1_100_000 {
        f = Expr::lam(name(&["x"]), sort0(), f, BinderInfo::Default);
    }
    assert_eq!(has_loose_bvar(&f, 0, &mut RecGuard::new()).unwrap_err(), KernelError::DeepRecursion);
    std::mem::forget(f);
}

#[test]
fn implicit_inference_marks_binders_used_in_later_domains() {
    let mut g = RecGuard::new();
    // Π (α : Sort 0) (a : α), α  ~>  Π {α : Sort 0} (a : α), α
    let t = pi("α", sort0(), pi("a", bv(0), bv(1), BinderInfo::Default), BinderInfo::Default);
    let r = infer_implicit(&t, &mut g).unwrap();
    let (_, _, body, bi) = peel_forall(&r).unwrap();
    assert_eq!(bi, BinderInfo::Implicit);
    let (_, _, _, bi2) = peel_forall(&body).unwrap();
    assert_eq!(bi2, BinderInfo::Default);
    // a binder used only in the result stays explicit (strict search)
    let t2 = pi("α", sort0(), bv(0), BinderInfo::Default);
    let (_, _, _, bi3) = peel_forall(&infer_implicit(&t2, &mut g).unwrap()).unwrap();
    assert_eq!(bi3, BinderInfo::Default);
    // non-strict search counts the result too
    assert!(has_loose_bvars_in_domain(&bv(0), 0, false, &mut g).unwrap());
    assert!(!has_loose_bvars_in_domain(&bv(0), 0, true, &mut g).unwrap());
}

#[test]
fn transitive_occurrence_through_an_implicit_binder() {
    let mut g = RecGuard::new();
    // body of Π (α : _): Π {β : #0} (b : #0), Sort 0 — α occurs in β's domain;
    // β is implicit, but β itself occurs in b's domain, so α counts.
    let body = pi("β", bv(0), pi("b", bv(0), sort0(), BinderInfo::Default), BinderInfo::Implicit);
    assert!(has_loose_bvars_in_domain(&body, 0, true, &mut g).unwrap());
    let body2 = pi("β", bv(0), pi("b", sort0(), sort0(), BinderInfo::Default), BinderInfo::Implicit);
    assert!(!has_loose_bvars_in_domain(&body2, 0, true, &mut g).unwrap());
}

#[test]
fn occurrences_of_the_declared_types() {
    let mut g = RecGuard::new();
    let e = pi("x", Expr::app(cst("List"), cst("T")), sort0(), BinderInfo::Default);
    assert!(expr_has_ind_occ(&e, &[name(&["T"])], &mut g).unwrap());
    assert!(!expr_has_ind_occ(&e, &[name(&["U"])], &mut g).unwrap());
    assert!(expr_contains_new_type(&e, &[name(&["U"]), name(&["List"])], &mut g).unwrap());
    assert!(!expr_has_ind_occ(&e, &[], &mut g).unwrap());
}

#[test]
fn universe_comparison() {
    let mut g = RecGuard::new();
    let p = |s: &str| Arc::new(Level::Param(name(&[s])));
    let z = Arc::new(Level::Zero);
    let s1 = |l: Arc<Level>| Level::mk_succ(l);
    let max = |a: Arc<Level>, b: Arc<Level>| Arc::new(Level::Max(a, b));
    let imax = |a: Arc<Level>, b: Arc<Level>| Arc::new(Level::IMax(a, b));
    assert!(is_geq(&p("u"), &z, &mut g).unwrap());
    assert!(is_geq(&s1(p("u")), &p("u"), &mut g).unwrap());
    assert!(!is_geq(&p("u"), &s1(p("u")), &mut g).unwrap());
    assert!(is_geq(&max(p("u"), p("v")), &p("v"), &mut g).unwrap());
    assert!(!is_geq(&p("u"), &p("v"), &mut g).unwrap());
    assert!(is_geq(&max(p("u"), p("v")), &imax(p("u"), p("v")), &mut g).unwrap());
    assert!(is_geq(&s1(s1(z.clone())), &s1(z.clone()), &mut g).unwrap());
    assert!(!is_geq(&s1(z.clone()), &s1(s1(z)), &mut g).unwrap());
    assert_eq!(g.current_depth(), 0);
}
