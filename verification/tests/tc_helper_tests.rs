use leanr_kernel::{
    binder_dom_body, binder_full, cheap_beta_reduce, const_levels_of_head, get_major_induct,
    get_rec_rule_for, get_undef_param, info_has_value, info_hints, info_is_unsafe, info_value,
    is_const_named, is_constructor_app, nat_binop, nat_lit_to_constructor,
    string_lit_to_constructor, AxiomVal, BinderInfo, ConstantInfo, ConstantVal, ConstructorVal,
    DefinitionSafety, DefinitionVal, Environment, Expr, ExprNode, KernelError, Level, Literal,
    Name, Nat, RecGuard, RecursorRule, ReducibilityHints, TheoremVal,
};
use std::sync::Arc;

fn nm(s: &str) -> Arc<Name> {
    Arc::new(Name::Str { parent: Arc::new(Name::Anonymous), part: s.to_string() })
}
fn nm2(a: &str, b: &str) -> Arc<Name> {
    Name::mk_str(Name::mk_str(Name::anonymous(), a), b)
}
fn lit(i: u64) -> Arc<Expr> {
    Expr::lit(Literal::NatVal(Nat::from_u64(i)))
}
fn bv(i: u64) -> Arc<Expr> {
    Expr::bvar(Nat::from_u64(i))
}
fn cst(n: Arc<Name>) -> Arc<Expr> {
    Expr::const_(n, vec![], &mut RecGuard::new()).unwrap()
}
fn cst0(n: Arc<Name>) -> Arc<Expr> {
    Expr::const_(n, vec![Arc::new(Level::Zero)], &mut RecGuard::new()).unwrap()
}
fn sort0() -> Arc<Expr> {
    Expr::sort(Arc::new(Level::Zero), &mut RecGuard::new()).unwrap()
}
fn seq_eq(a: &Arc<Expr>, b: &Arc<Expr>) -> bool {
    Expr::structural_eq(a, b, &mut RecGuard::new()).unwrap()
}
fn cval(s: &str) -> ConstantVal {
    ConstantVal { name: nm(s), level_params: vec![], ty: sort0() }
}

#[test]
fn nat_literals_in_constructor_form() {
    let mut g = RecGuard::new();
    let (z, s) = (nm2("Nat", "zero"), nm2("Nat", "succ"));
    let r0 = nat_lit_to_constructor(&lit(0), &z, &s, &mut g).unwrap();
    assert!(seq_eq(&r0, &cst(nm2("Nat", "zero"))));
    let r5 = nat_lit_to_constructor(&lit(5), &z, &s, &mut g).unwrap();
    assert!(seq_eq(&r5, &Expr::app(cst(nm2("Nat", "succ")), lit(4))));
    // anything else is left as it is
    let other = Expr::fvar(nm("x"));
    assert!(Arc::ptr_eq(&nat_lit_to_constructor(&other, &z, &s, &mut g).unwrap(), &other));
}

#[test]
fn string_literals_in_constructor_form() {
    let mut g = RecGuard::new();
    let r = string_lit_to_constructor("hé", &mut g).unwrap();
    let char_ty = cst(nm("Char"));
    let nil = Expr::app(cst0(nm2("List", "nil")), char_ty.clone());
    let cons = Expr::app(cst0(nm2("List", "cons")), char_ty);
    let ch = |c: u64| Expr::app(cst(nm2("Char", "ofNat")), lit(c));
    let list = Expr::app(Expr::app(cons.clone(), ch(104)), Expr::app(Expr::app(cons, ch(233)), nil.clone()));
    let expected = Expr::app(cst(nm2("String", "ofList")), list);
    assert!(seq_eq(&r, &expected));
    let empty = string_lit_to_constructor("", &mut g).unwrap();
    assert!(seq_eq(&empty, &Expr::app(cst(nm2("String", "ofList")), nil)));
}

#[test]
fn rec_rule_is_found_by_the_major_head() {
    let rules = vec![
        RecursorRule { ctor: nm2("Nat", "zero"), nfields: Nat::from_u64(0), rhs: lit(0) },
        RecursorRule { ctor: nm2("Nat", "succ"), nfields: Nat::from_u64(1), rhs: lit(1) },
        RecursorRule { ctor: nm2("Nat", "succ"), nfields: Nat::from_u64(2), rhs: lit(2) },
    ];
    let major = Expr::app(cst(nm2("Nat", "succ")), lit(3));
    let r = get_rec_rule_for(&rules, &major).unwrap();
    assert!(r.nfields.beq(&Nat::from_u64(1)));
    assert!(get_rec_rule_for(&rules, &cst(nm2("Nat", "other"))).is_none());
    assert!(get_rec_rule_for(&rules, &lit(3)).is_none());
}

#[test]
fn major_induct_reads_the_domain_after_the_skipped_binders() {
    // Π (m : Sort 0) (t : List Nat), Sort 0
    let list_nat = Expr::app(cst(nm("List")), cst(nm("Nat")));
    let ty = Expr::forall_e(
        nm("m"),
        sort0(),
        Expr::forall_e(nm("t"), list_nat, sort0(), BinderInfo::Default),
        BinderInfo::Default,
    );
    assert_eq!(get_major_induct(&ty, 1).unwrap().to_string(), "List");
    // the first domain is a sort, not a constant application
    assert!(get_major_induct(&ty, 0).is_none());
    // too few binders
    assert!(get_major_induct(&ty, 2).is_none());
    assert!(get_major_induct(&ty, 7).is_none());
}

#[test]
fn undefined_universe_parameter_is_the_first_one_missing() {
    let mut g = RecGuard::new();
    let p = |s: &str| Arc::new(Level::Param(nm(s)));
    let l = Arc::new(Level::Max(Level::mk_succ(p("u")), Arc::new(Level::IMax(p("v"), p("w")))));
    assert!(get_undef_param(&l, &[nm("u"), nm("v"), nm("w")], &mut g).unwrap().is_none());
    assert_eq!(get_undef_param(&l, &[nm("u")], &mut g).unwrap().unwrap().to_string(), "v");
    assert_eq!(get_undef_param(&l, &[], &mut g).unwrap().unwrap().to_string(), "u");
    assert!(get_undef_param(&Arc::new(Level::Zero), &[], &mut g).unwrap().is_none());
    assert!(get_undef_param(&Arc::new(Level::MVar(nm("m"))), &[], &mut g).unwrap().is_none());
    assert_eq!(g.current_depth(), 0);
}

#[test]
fn undefined_universe_parameter_search_is_guarded() {
    let mut l = Arc::new(Level::Param(nm("u")));
    for _ in 0..1_100_000 {
        l = Level::mk_succ(l);
    }
    let r = get_undef_param(&l, &[], &mut RecGuard::new());
    assert_eq!(r.unwrap_err(), KernelError::DeepRecursion);
    std::mem::forget(l);
}

#[test]
fn cheap_beta_selects_or_applies() {
    let lam = |b: Arc<Expr>| Expr::lam(nm("x"), sort0(), b, BinderInfo::Default);
    // (λ x, c) a b  ~>  c b   (closed body)
    let e = Expr::mk_app_spine(lam(cst(nm("c"))), &[lit(1), lit(2)]);
    assert!(seq_eq(&cheap_beta_reduce(&e), &Expr::app(cst(nm("c")), lit(2))));
    // (λ x y, x) a b  ~>  a
    let e2 = Expr::mk_app_spine(lam(lam(bv(1))), &[lit(1), lit(2)]);
    assert!(seq_eq(&cheap_beta_reduce(&e2), &lit(1)));
    // (λ x y, y) a  ~>  unchanged (body λ y, y has loose #0 after one peel? no: it's closed)
    let e3 = Expr::app(lam(lam(bv(0))), lit(1));
    assert!(seq_eq(&cheap_beta_reduce(&e3), &lam(bv(0))));
    // (λ x, f x) a  ~>  unchanged: the body is neither closed nor a bound variable
    let e4 = Expr::app(lam(Expr::app(cst(nm("f")), bv(0))), lit(1));
    assert!(Arc::ptr_eq(&cheap_beta_reduce(&e4), &e4));
    // not an application of a lambda
    let e5 = Expr::app(cst(nm("f")), lit(1));
    assert!(Arc::ptr_eq(&cheap_beta_reduce(&e5), &e5));
    let e6 = lit(1);
    assert!(Arc::ptr_eq(&cheap_beta_reduce(&e6), &e6));
}

#[test]
fn constant_info_reduction_facts() {
    let defn = ConstantInfo::Defn(DefinitionVal {
        val: cval("d"),
        value: lit(1),
        hints: ReducibilityHints::Regular(4),
        safety: DefinitionSafety::Unsafe,
        all: vec![nm("d")],
    });
    let thm = ConstantInfo::Thm(TheoremVal { val: cval("t"), value: lit(2), all: vec![nm("t")] });
    let ax = ConstantInfo::Axiom(AxiomVal { val: cval("a"), is_unsafe: true });
    assert!(info_has_value(&defn) && info_has_value(&thm) && !info_has_value(&ax));
    assert!(seq_eq(info_value(&thm).unwrap(), &lit(2)));
    assert!(info_value(&ax).is_none());
    assert_eq!(info_hints(&defn), ReducibilityHints::Regular(4));
    assert_eq!(info_hints(&thm), ReducibilityHints::Opaque);
    assert!(info_is_unsafe(&defn) && info_is_unsafe(&ax) && !info_is_unsafe(&thm));
}

#[test]
fn shape_tests_on_heads_and_binders() {
    let c = Expr::const_(nm("Nat"), vec![Arc::new(Level::Zero)], &mut RecGuard::new()).unwrap();
    assert!(is_const_named(&c, &nm("Nat")));
    assert!(!is_const_named(&c, &nm("Int")));
    assert!(!is_const_named(&lit(1), &nm("Nat")));
    let app = Expr::app(c.clone(), lit(1));
    assert_eq!(const_levels_of_head(&app).len(), 1);
    assert!(const_levels_of_head(&lit(1)).is_empty());
    let mut env = Environment::new();
    env.admit_unchecked(ConstantInfo::Ctor(ConstructorVal {
        val: cval("Nat"),
        induct: nm("N"),
        cidx: Nat::from_u64(0),
        num_params: Nat::from_u64(0),
        num_fields: Nat::from_u64(0),
        is_unsafe: false,
    }))
    .unwrap();
    assert!(is_constructor_app(&env, &app));
    assert!(!is_constructor_app(&env, &Expr::app(cst(nm("Int")), lit(1))));
    let pi = Expr::forall_e(nm("x"), sort0(), bv(0), BinderInfo::Implicit);
    let (d, b) = binder_dom_body(&pi);
    assert!(seq_eq(&d, &sort0()) && seq_eq(&b, &bv(0)));
    let (_, _, n, bi) = binder_full(&pi);
    assert_eq!(n.to_string(), "x");
    assert_eq!(bi, BinderInfo::Implicit);
}

#[test]
fn nat_builtin_operations_are_recognised_by_name() {
    assert_eq!(nat_binop(&nm2("Nat", "add")), Some("add"));
    assert_eq!(nat_binop(&nm2("Int", "add")), None);
    assert_eq!(nat_binop(&nm("add")), None);
    let three = Name::mk_str(nm2("Nat", "add"), "x");
    assert_eq!(nat_binop(&three), None);
    let num = Name::mk_num(nm("Nat"), Nat::from_u64(1));
    assert_eq!(nat_binop(&num), None);
    if let ExprNode::Const { name, .. } = cst(nm2("Nat", "mul")).node() {
        assert_eq!(nat_binop(name), Some("mul"));
    }
}
