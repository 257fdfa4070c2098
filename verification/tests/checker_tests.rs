use leanr_kernel::{
    AxiomVal, BinderInfo, ConstantInfo, ConstantVal, ConstructorVal, DefinitionSafety, DefinitionVal,
    Environment, Expr, InductiveVal, KernelError, Level, Literal, Name, Nat, RecGuard,
    ReducibilityHints, TypeChecker,
};
use std::sync::Arc;

fn nm(s: &str) -> Arc<Name> {
    Arc::new(Name::Str { parent: Arc::new(Name::Anonymous), part: s.to_string() })
}
fn nm2(a: &str, b: &str) -> Arc<Name> {
    Arc::new(Name::Str { parent: nm(a), part: b.to_string() })
}
fn zero() -> Arc<Level> {
    Arc::new(Level::Zero)
}
fn one() -> Arc<Level> {
    Arc::new(Level::Succ(zero()))
}
fn param(s: &str) -> Arc<Level> {
    Arc::new(Level::Param(nm(s)))
}
fn sort(l: Arc<Level>) -> Arc<Expr> {
    Expr::sort(l, &mut RecGuard::new()).unwrap()
}
fn cst(n: Arc<Name>) -> Arc<Expr> {
    Expr::const_(n, vec![], &mut RecGuard::new()).unwrap()
}
fn cst_at(n: Arc<Name>, l: Arc<Level>) -> Arc<Expr> {
    Expr::const_(n, vec![l], &mut RecGuard::new()).unwrap()
}
fn bvar(i: u64) -> Arc<Expr> {
    Expr::bvar(Nat::from_u64(i))
}
fn lit(n: u64) -> Arc<Expr> {
    Expr::lit(Literal::NatVal(Nat::from_u64(n)))
}
fn app(f: Arc<Expr>, a: Arc<Expr>) -> Arc<Expr> {
    Expr::app(f, a)
}
fn pi(n: &str, dom: Arc<Expr>, body: Arc<Expr>) -> Arc<Expr> {
    Expr::forall_e(nm(n), dom, body, BinderInfo::Default)
}
fn lam(n: &str, dom: Arc<Expr>, body: Arc<Expr>) -> Arc<Expr> {
    Expr::lam(nm(n), dom, body, BinderInfo::Default)
}
fn nat_ty() -> Arc<Expr> {
    cst(nm("Nat"))
}
fn same(a: &Arc<Expr>, b: &Arc<Expr>) -> bool {
    Expr::structural_eq(a, b, &mut RecGuard::new()).unwrap()
}
fn cval(name: Arc<Name>, level_params: Vec<Arc<Name>>, ty: Arc<Expr>) -> ConstantVal {
    ConstantVal { name, level_params, ty }
}

/// `Nat` with its two constructors, and `id.{u} : Π {α : Sort u}, α → α`.
fn nat_env() -> Environment {
    let nat_ind = ConstantInfo::Induct(InductiveVal {
        val: cval(nm("Nat"), vec![], sort(one())),
        num_params: Nat::from_u64(0),
        num_indices: Nat::from_u64(0),
        all: vec![nm("Nat")],
        ctors: vec![nm2("Nat", "zero"), nm2("Nat", "succ")],
        num_nested: Nat::from_u64(0),
        is_rec: true,
        is_unsafe: false,
        is_reflexive: false,
    });
    let zero_ctor = ConstantInfo::Ctor(ConstructorVal {
        val: cval(nm2("Nat", "zero"), vec![], nat_ty()),
        induct: nm("Nat"),
        cidx: Nat::from_u64(0),
        num_params: Nat::from_u64(0),
        num_fields: Nat::from_u64(0),
        is_unsafe: false,
    });
    let succ_ctor = ConstantInfo::Ctor(ConstructorVal {
        val: cval(nm2("Nat", "succ"), vec![], pi("n", nat_ty(), nat_ty())),
        induct: nm("Nat"),
        cidx: Nat::from_u64(1),
        num_params: Nat::from_u64(0),
        num_fields: Nat::from_u64(1),
        is_unsafe: false,
    });
    let id_ty = Expr::forall_e(
        nm("α"),
        sort(param("u")),
        pi("a", bvar(0), bvar(1)),
        BinderInfo::Implicit,
    );
    let id_val = Expr::lam(nm("α"), sort(param("u")), lam("a", bvar(0), bvar(0)), BinderInfo::Implicit);
    let id_def = ConstantInfo::Defn(DefinitionVal {
        val: cval(nm("id"), vec![nm("u")], id_ty),
        value: id_val,
        hints: ReducibilityHints::Abbrev,
        safety: DefinitionSafety::Safe,
        all: vec![nm("id")],
    });
    Environment::from_modules(vec![vec![nat_ind, zero_ctor, succ_ctor, id_def]]).unwrap()
}

/// `@id.{1} Nat x`.
fn id_nat(x: Arc<Expr>) -> Arc<Expr> {
    app(app(cst_at(nm("id"), one()), nat_ty()), x)
}

#[test]
fn infer_sort_is_the_next_sort() {
    let env = nat_env();
    let mut tc = TypeChecker::new(&env);
    let t = tc.infer_type(&sort(zero())).unwrap();
    assert!(same(&t, &sort(one())));
}

#[test]
fn infer_nat_literal_is_nat() {
    let env = nat_env();
    let mut tc = TypeChecker::new(&env);
    let t = tc.infer_type(&lit(7)).unwrap();
    assert!(same(&t, &nat_ty()));
}

#[test]
fn infer_constant_gives_its_declared_type() {
    let env = nat_env();
    let mut tc = TypeChecker::new(&env);
    let t = tc.infer_type(&cst(nm2("Nat", "succ"))).unwrap();
    assert!(same(&t, &pi("n", nat_ty(), nat_ty())));
}

#[test]
fn infer_unknown_constant_fails() {
    let env = nat_env();
    let mut tc = TypeChecker::new(&env);
    let r = tc.infer_type(&cst(nm("Int")));
    assert!(matches!(r, Err(KernelError::UnknownConstant(_))));
}

#[test]
fn infer_loose_bvar_fails() {
    let env = nat_env();
    let mut tc = TypeChecker::new(&env);
    assert!(matches!(tc.infer_type(&bvar(0)), Err(KernelError::LooseBVar)));
}

#[test]
fn infer_metavariable_fails() {
    let env = nat_env();
    let mut tc = TypeChecker::new(&env);
    let m = Expr::mvar(nm("m"));
    assert!(matches!(tc.infer_type(&m), Err(KernelError::MetavarEncountered)));
}

#[test]
fn check_lambda_gives_an_arrow() {
    let env = nat_env();
    let mut tc = TypeChecker::new(&env);
    let f = lam("x", nat_ty(), app(cst(nm2("Nat", "succ")), bvar(0)));
    let t = tc.check(&f, &[]).unwrap();
    assert!(same(&t, &pi("x", nat_ty(), nat_ty())));
}

#[test]
fn check_arrow_is_a_type() {
    let env = nat_env();
    let mut tc = TypeChecker::new(&env);
    let t = tc.check(&pi("x", nat_ty(), nat_ty()), &[]).unwrap();
    assert!(same(&t, &sort(one())));
}

#[test]
fn check_let_keeps_the_binding_in_the_type() {
    let env = nat_env();
    let mut tc = TypeChecker::new(&env);
    let e = Expr::let_e(nm("x"), nat_ty(), lit(0), bvar(0), false);
    let t = tc.check(&e, &[]).unwrap();
    let expected = Expr::let_e(nm("x"), nat_ty(), lit(0), nat_ty(), false);
    assert!(same(&t, &expected));
}

#[test]
fn check_polymorphic_application() {
    let env = nat_env();
    let mut tc = TypeChecker::new(&env);
    let t = tc.check(&id_nat(lit(3)), &[]).unwrap();
    assert!(same(&t, &nat_ty()));
}

#[test]
fn check_rejects_an_ill_typed_argument() {
    let env = nat_env();
    let mut tc = TypeChecker::new(&env);
    let bad = app(cst(nm2("Nat", "succ")), sort(zero()));
    assert!(matches!(tc.check(&bad, &[]), Err(KernelError::AppTypeMismatch)));
}

#[test]
fn check_rejects_a_let_value_of_the_wrong_type() {
    let env = nat_env();
    let mut tc = TypeChecker::new(&env);
    let e = Expr::let_e(nm("x"), nat_ty(), sort(zero()), bvar(0), false);
    assert!(matches!(tc.check(&e, &[]), Err(KernelError::LetTypeMismatch)));
}

#[test]
fn check_rejects_an_undefined_universe_parameter() {
    let env = nat_env();
    let mut tc = TypeChecker::new(&env);
    let r = tc.check(&sort(param("v")), &[nm("u")]);
    assert!(matches!(r, Err(KernelError::UnivParamArityMismatch { .. })));
    let ok = tc.check(&sort(param("u")), &[nm("u")]).unwrap();
    assert!(same(&ok, &sort(Arc::new(Level::Succ(param("u"))))));
}

#[test]
fn check_rejects_wrong_universe_arity() {
    let env = nat_env();
    let mut tc = TypeChecker::new(&env);
    let r = tc.check(&cst(nm("id")), &[]);
    assert!(matches!(r, Err(KernelError::UnivParamArityMismatch { .. })));
}

#[test]
fn whnf_unfolds_and_beta_reduces() {
    let env = nat_env();
    let mut tc = TypeChecker::new(&env);
    let z = cst(nm2("Nat", "zero"));
    let w = tc.whnf(&id_nat(z.clone())).unwrap();
    assert!(same(&w, &z));
}

#[test]
fn whnf_zeta_reduces_a_let() {
    let env = nat_env();
    let mut tc = TypeChecker::new(&env);
    let e = Expr::let_e(nm("x"), nat_ty(), lit(4), bvar(0), false);
    let w = tc.whnf(&e).unwrap();
    assert!(same(&w, &lit(4)));
}

#[test]
fn whnf_folds_nat_arithmetic() {
    let env = nat_env();
    let mut tc = TypeChecker::new(&env);
    let add = app(app(cst(nm2("Nat", "add")), lit(2)), lit(3));
    assert!(same(&tc.whnf(&add).unwrap(), &lit(5)));
    let pow = app(app(cst(nm2("Nat", "pow")), lit(2)), lit(10));
    assert!(same(&tc.whnf(&pow).unwrap(), &lit(1024)));
    let sub = app(app(cst(nm2("Nat", "sub")), lit(2)), lit(3));
    assert!(same(&tc.whnf(&sub).unwrap(), &lit(0)));
    let succ = app(cst(nm2("Nat", "succ")), lit(41));
    assert!(same(&tc.whnf(&succ).unwrap(), &lit(42)));
    let beq = app(app(cst(nm2("Nat", "beq")), lit(2)), lit(2));
    assert!(same(&tc.whnf(&beq).unwrap(), &cst(nm2("Bool", "true"))));
}

#[test]
fn whnf_leaves_a_sort_alone() {
    let env = nat_env();
    let mut tc = TypeChecker::new(&env);
    let s = sort(one());
    assert!(same(&tc.whnf(&s).unwrap(), &s));
}

#[test]
fn def_eq_through_unfolding() {
    let env = nat_env();
    let mut tc = TypeChecker::new(&env);
    assert!(tc.is_def_eq(&id_nat(lit(5)), &lit(5)).unwrap());
    assert!(!tc.is_def_eq(&lit(2), &lit(3)).unwrap());
}

#[test]
fn def_eq_literal_and_successor() {
    let env = nat_env();
    let mut tc = TypeChecker::new(&env);
    let one_ctor = app(cst(nm2("Nat", "succ")), cst(nm2("Nat", "zero")));
    assert!(tc.is_def_eq(&lit(1), &one_ctor).unwrap());
    assert!(!tc.is_def_eq(&lit(2), &one_ctor).unwrap());
}

#[test]
fn def_eq_is_reflexive_on_these_terms() {
    let env = nat_env();
    let mut tc = TypeChecker::new(&env);
    let f = lam("x", nat_ty(), app(cst(nm2("Nat", "succ")), bvar(0)));
    assert!(tc.is_def_eq(&f, &f).unwrap());
    let s = sort(param("u"));
    assert!(tc.is_def_eq(&s, &s).unwrap());
}

#[test]
fn def_eq_eta_for_functions() {
    let env = nat_env();
    let mut tc = TypeChecker::new(&env);
    let succ = cst(nm2("Nat", "succ"));
    let eta = lam("x", nat_ty(), app(succ.clone(), bvar(0)));
    assert!(tc.is_def_eq(&eta, &succ).unwrap());
}

#[test]
fn ensure_sort_and_pi() {
    let env = nat_env();
    let mut tc = TypeChecker::new(&env);
    assert!(matches!(tc.ensure_sort(&nat_ty()), Err(KernelError::TypeExpected)));
    assert!(matches!(tc.ensure_pi(&nat_ty()), Err(KernelError::FunctionExpected)));
    let arrow = pi("x", nat_ty(), nat_ty());
    assert!(same(&tc.ensure_pi(&arrow).unwrap(), &arrow));
    let s = sort(zero());
    assert!(same(&tc.ensure_sort(&s).unwrap(), &s));
}

#[test]
fn is_prop_of_a_proposition_type() {
    let env = nat_env();
    let mut tc = TypeChecker::new(&env);
    // `Nat → Prop` is a type, not a proposition; `Prop → Prop`'s members
    // are propositions' functions; `∀ p : Prop, p` is a proposition.
    let all = pi("p", sort(zero()), bvar(0));
    assert!(tc.is_prop(&all).unwrap());
    assert!(!tc.is_prop(&nat_ty()).unwrap());
}

#[test]
fn def_eq_rejects_two_distinct_type_axioms() {
    let ax = |n: &str| ConstantInfo::Axiom(AxiomVal { val: cval(nm(n), vec![], sort(one())), is_unsafe: false });
    let env = Environment::from_modules(vec![vec![ax("A"), ax("B")]]).unwrap();
    let mut tc = TypeChecker::new(&env);
    assert!(!tc.is_def_eq(&cst(nm("A")), &cst(nm("B"))).unwrap());
    assert!(!tc.is_def_eq(&cst(nm("B")), &cst(nm("A"))).unwrap());
    assert!(tc.is_def_eq(&cst(nm("A")), &cst(nm("A"))).unwrap());
}
