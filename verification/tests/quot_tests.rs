use leanr_kernel::{
    add_quot, check_declaration, BinderInfo, ConstantInfo, ConstantVal, ConstructorVal, Declaration, Environment, Expr,
    InductiveVal, KernelError, Level, Name, Nat, QuotKind, QuotVal, RecGuard, TypeChecker,
};
use std::sync::Arc;

fn nm(s: &str) -> Arc<Name> {
    Arc::new(Name::Str { parent: Arc::new(Name::Anonymous), part: s.to_string() })
}
fn nm2(a: &str, b: &str) -> Arc<Name> {
    Arc::new(Name::Str { parent: nm(a), part: b.to_string() })
}
fn bvar(i: u64) -> Arc<Expr> {
    Expr::bvar(Nat::from_u64(i))
}
fn arrow(dom: Arc<Expr>, body: Arc<Expr>) -> Arc<Expr> {
    Expr::forall_e(nm("a"), dom, body, BinderInfo::Default)
}
fn pi(n: &str, dom: Arc<Expr>, body: Arc<Expr>, bi: BinderInfo) -> Arc<Expr> {
    Expr::forall_e(nm(n), dom, body, bi)
}
fn app(f: Arc<Expr>, a: Arc<Expr>) -> Arc<Expr> {
    Expr::app(f, a)
}
fn param(s: &str) -> Arc<Level> {
    Arc::new(Level::Param(nm(s)))
}
fn sort(l: Arc<Level>) -> Arc<Expr> {
    Expr::sort(l, &mut RecGuard::new()).unwrap()
}
fn cst(n: Arc<Name>, l: Arc<Level>) -> Arc<Expr> {
    Expr::const_(n, vec![l], &mut RecGuard::new()).unwrap()
}
fn cval(name: Arc<Name>, level_params: Vec<Arc<Name>>, ty: Arc<Expr>) -> ConstantVal {
    ConstantVal { name, level_params, ty }
}

/// `Π {<alpha_name> : Sort u_1}, <alpha_name> → <alpha_name> → Prop`.
fn eq_ty(u1: &str, alpha_name: &str) -> Arc<Expr> {
    pi(
        alpha_name,
        sort(param(u1)),
        arrow(bvar(0), arrow(bvar(1), sort(Arc::new(Level::Zero)))),
        BinderInfo::Implicit,
    )
}

/// `Π {<alpha_name> : Sort u_1} (<a_name> : <alpha_name>), @Eq.{u_1} <alpha_name> <a_name> <a_name>`.
fn eq_refl_ty(u1: &str, alpha_name: &str, a_name: &str, a_info: BinderInfo) -> Arc<Expr> {
    let eq_const = cst(nm("Eq"), param(u1));
    pi(
        alpha_name,
        sort(param(u1)),
        pi(a_name, bvar(0), Expr::mk_app_spine(eq_const, &[bvar(1), bvar(0), bvar(0)]), a_info),
        BinderInfo::Implicit,
    )
}

fn eq_consts(alpha_name: &str, a_name: &str, a_info: BinderInfo, extra_ctor: bool) -> Vec<ConstantInfo> {
    let mut ctors = vec![nm2("Eq", "refl")];
    if extra_ctor {
        ctors.push(nm2("Eq", "other"));
    }
    let eq_ind = ConstantInfo::Induct(InductiveVal {
        val: cval(nm("Eq"), vec![nm("u_1")], eq_ty("u_1", alpha_name)),
        num_params: Nat::from_u64(2),
        num_indices: Nat::from_u64(1),
        all: vec![nm("Eq")],
        ctors,
        num_nested: Nat::from_u64(0),
        is_rec: false,
        is_unsafe: false,
        is_reflexive: false,
    });
    let refl = ConstantInfo::Ctor(ConstructorVal {
        val: cval(nm2("Eq", "refl"), vec![nm("u_1")], eq_refl_ty("u_1", alpha_name, a_name, a_info)),
        induct: nm("Eq"),
        cidx: Nat::from_u64(0),
        num_params: Nat::from_u64(2),
        num_fields: Nat::from_u64(0),
        is_unsafe: false,
    });
    vec![eq_ind, refl]
}

fn well_shaped_eq() -> Vec<ConstantInfo> {
    eq_consts("α", "a", BinderInfo::Default, false)
}

fn quot_of(a: Arc<Expr>, b: Arc<Expr>) -> Arc<Expr> {
    app(app(cst(nm("Quot"), param("u")), a), b)
}

fn rel() -> Arc<Expr> {
    arrow(bvar(0), arrow(bvar(1), sort(Arc::new(Level::Zero))))
}

#[test]
fn add_quot_accepts_alpha_equivalent_eq_shape() {
    let mut env = Environment::from_modules(vec![eq_consts("x", "z", BinderInfo::StrictImplicit, false)]).unwrap();
    add_quot(&mut env).unwrap();
    assert!(env.quot_initialized());
}

#[test]
fn add_quot_without_eq_fails() {
    let mut env = Environment::default();
    let err = add_quot(&mut env).unwrap_err();
    assert_eq!(err, KernelError::InvalidQuot { what: "Eq" });
    assert!(!env.quot_initialized());
}

#[test]
fn add_quot_wrong_eq_shape_fails() {
    let mut env = Environment::from_modules(vec![eq_consts("α", "a", BinderInfo::Default, true)]).unwrap();
    let err = add_quot(&mut env).unwrap_err();
    assert!(matches!(err, KernelError::InvalidQuot { .. }));
    assert!(!env.quot_initialized());
    assert_eq!(env.len(), 2);
}

#[test]
fn add_quot_rejects_a_mistyped_refl() {
    let mut consts = well_shaped_eq();
    // Eq.refl : Π {α : Sort u_1} (a : α), @Eq α a α — wrong last argument
    let eq_const = cst(nm("Eq"), param("u_1"));
    let bad = pi(
        "α",
        sort(param("u_1")),
        pi("a", bvar(0), Expr::mk_app_spine(eq_const, &[bvar(1), bvar(0), bvar(1)]), BinderInfo::Default),
        BinderInfo::Implicit,
    );
    if let ConstantInfo::Ctor(c) = &mut consts[1] {
        c.val.ty = bad;
    }
    let mut env = Environment::from_modules(vec![consts]).unwrap();
    assert_eq!(add_quot(&mut env).unwrap_err(), KernelError::InvalidQuot { what: "Eq" });
    assert!(!env.quot_initialized());
}

fn expect_quot(env: &Environment, n: &Arc<Name>, kind: QuotKind, lps: &[&str], ty: &Arc<Expr>) {
    match env.get(n) {
        Some(ConstantInfo::Quot(v)) => {
            assert_eq!(v.kind, kind);
            let got: Vec<String> = v.val.level_params.iter().map(|p| p.to_string()).collect();
            assert_eq!(got, lps.to_vec());
            assert!(Expr::structural_eq(&v.val.ty, ty, &mut RecGuard::new()).unwrap());
        }
        other => panic!("expected a quotient constant, got {other:?}"),
    }
}

#[test]
fn add_quot_after_eq_succeeds() {
    let mut env = Environment::from_modules(vec![well_shaped_eq()]).unwrap();
    add_quot(&mut env).unwrap();
    assert!(env.quot_initialized());
    // Idempotent: a second call is a no-op success.
    add_quot(&mut env).unwrap();
    assert_eq!(env.len(), 6);

    let sort_u = sort(param("u"));
    let quot_ty = pi("α", sort_u.clone(), pi("r", rel(), sort_u.clone(), BinderInfo::Default), BinderInfo::Implicit);
    let mk_ty = pi(
        "α",
        sort_u.clone(),
        pi("r", rel(), pi("a", bvar(1), quot_of(bvar(2), bvar(1)), BinderInfo::Default), BinderInfo::Default),
        BinderInfo::Implicit,
    );
    let eq_v = cst(nm("Eq"), param("v"));
    let sanity = pi(
        "a",
        bvar(3),
        pi(
            "b",
            bvar(4),
            arrow(
                Expr::mk_app_spine(bvar(4), &[bvar(1), bvar(0)]),
                Expr::mk_app_spine(eq_v, &[bvar(4), app(bvar(3), bvar(2)), app(bvar(3), bvar(1))]),
            ),
            BinderInfo::Default,
        ),
        BinderInfo::Default,
    );
    let lift_ty = pi(
        "α",
        sort_u.clone(),
        pi(
            "r",
            rel(),
            pi(
                "β",
                sort(param("v")),
                pi(
                    "f",
                    arrow(bvar(2), bvar(1)),
                    arrow(sanity, arrow(quot_of(bvar(4), bvar(3)), bvar(3))),
                    BinderInfo::Default,
                ),
                BinderInfo::Implicit,
            ),
            BinderInfo::Implicit,
        ),
        BinderInfo::Implicit,
    );
    let quot_mk = cst(nm2("Quot", "mk"), param("u"));
    let all_quot = pi(
        "a",
        bvar(2),
        app(bvar(1), Expr::mk_app_spine(quot_mk, &[bvar(3), bvar(2), bvar(0)])),
        BinderInfo::Default,
    );
    let q_pi = pi("q", quot_of(bvar(3), bvar(2)), app(bvar(2), bvar(0)), BinderInfo::Default);
    let ind_ty = pi(
        "α",
        sort_u,
        pi(
            "r",
            rel(),
            pi(
                "β",
                arrow(quot_of(bvar(1), bvar(0)), sort(Arc::new(Level::Zero))),
                pi("mk", all_quot, q_pi, BinderInfo::Default),
                BinderInfo::Implicit,
            ),
            BinderInfo::Implicit,
        ),
        BinderInfo::Implicit,
    );

    expect_quot(&env, &nm("Quot"), QuotKind::Type, &["u"], &quot_ty);
    expect_quot(&env, &nm2("Quot", "mk"), QuotKind::Ctor, &["u"], &mk_ty);
    expect_quot(&env, &nm2("Quot", "lift"), QuotKind::Lift, &["u", "v"], &lift_ty);
    expect_quot(&env, &nm2("Quot", "ind"), QuotKind::Ind, &["u"], &ind_ty);
    // the quotient types are closed
    for n in [nm("Quot"), nm2("Quot", "mk"), nm2("Quot", "lift"), nm2("Quot", "ind")] {
        assert_eq!(env.get(&n).unwrap().constant_val().ty.data().loose_bvar_range(), 0);
    }
}

#[test]
fn add_quot_replaces_placeholders_of_the_same_names() {
    let mut consts = well_shaped_eq();
    let placeholder = sort(Arc::new(Level::Zero));
    consts.push(ConstantInfo::Quot(leanr_kernel::QuotVal {
        val: cval(nm("Quot"), vec![nm("w")], placeholder),
        kind: QuotKind::Ind,
    }));
    let mut env = Environment::from_modules(vec![consts]).unwrap();
    add_quot(&mut env).unwrap();
    assert_eq!(env.len(), 6);
    match env.get(&nm("Quot")) {
        Some(ConstantInfo::Quot(v)) => assert_eq!(v.kind, QuotKind::Type),
        _ => panic!(),
    }
    assert!(env.get(&nm("Eq")).is_some());
}

#[test]
fn quot_iota_gated_on_initialized() {
    let mut consts = well_shaped_eq();
    let placeholder_ty = sort(Arc::new(Level::Zero));
    let mk_quot_const = |name: Arc<Name>, kind: QuotKind, lparams: Vec<Arc<Name>>| {
        ConstantInfo::Quot(QuotVal { val: cval(name, lparams, placeholder_ty.clone()), kind })
    };
    consts.push(mk_quot_const(nm("Quot"), QuotKind::Type, vec![nm("u")]));
    consts.push(mk_quot_const(nm2("Quot", "mk"), QuotKind::Ctor, vec![nm("u")]));
    consts.push(mk_quot_const(nm2("Quot", "lift"), QuotKind::Lift, vec![nm("u"), nm("v")]));
    consts.push(mk_quot_const(nm2("Quot", "ind"), QuotKind::Ind, vec![nm("u")]));
    let mut env = Environment::from_modules(vec![consts]).unwrap();
    assert!(!env.quot_initialized());

    let zero = Arc::new(Level::Zero);
    let c0 = |s: &str| Expr::const_(nm(s), vec![], &mut RecGuard::new()).unwrap();
    let (alpha, r, beta, f, h, a) = (c0("α"), c0("r"), c0("β"), c0("f"), c0("h"), c0("a"));
    let mk = Expr::mk_app_spine(
        Expr::const_(nm2("Quot", "mk"), vec![zero.clone()], &mut RecGuard::new()).unwrap(),
        &[alpha.clone(), r.clone(), a.clone()],
    );
    let e = Expr::mk_app_spine(
        Expr::const_(nm2("Quot", "lift"), vec![zero.clone(), zero.clone()], &mut RecGuard::new())
            .unwrap(),
        &[alpha, r, beta, f.clone(), h, mk],
    );

    let before = TypeChecker::new(&env).whnf(&e).unwrap();
    assert!(Expr::structural_eq(&before, &e, &mut RecGuard::new()).unwrap());

    env.add_decl(Declaration::Quot).unwrap();
    assert!(env.quot_initialized());
    let after = TypeChecker::new(&env).whnf(&e).unwrap();
    let expected = Expr::app(f, a);
    assert!(Expr::structural_eq(&after, &expected, &mut RecGuard::new()).unwrap());
}

#[test]
fn check_declaration_gives_the_quotient_constants() {
    let env = Environment::from_modules(vec![well_shaped_eq()]).unwrap();
    let admitted = check_declaration(&env, Declaration::Quot).unwrap();
    assert!(admitted.quot_init);
    let names: Vec<String> = admitted.survivors.iter().map(|c| c.name().to_string()).collect();
    assert_eq!(names, vec!["Quot", "Quot.mk", "Quot.lift", "Quot.ind"]);
    // Checking does not change the environment.
    assert_eq!(env.len(), 2);
    assert!(!env.quot_initialized());
}

#[test]
fn check_declaration_quotient_without_eq_fails() {
    let env = Environment::default();
    let err = check_declaration(&env, Declaration::Quot).unwrap_err();
    assert_eq!(err, KernelError::InvalidQuot { what: "Eq" });
}

#[test]
fn check_declaration_quotient_after_initialization_gives_nothing() {
    let mut env = Environment::from_modules(vec![well_shaped_eq()]).unwrap();
    add_quot(&mut env).unwrap();
    let admitted = check_declaration(&env, Declaration::Quot).unwrap();
    assert!(admitted.quot_init);
    assert!(admitted.survivors.is_empty());
}
