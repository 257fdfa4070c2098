use leanr_kernel::{
    replay, AxiomVal, ConstantInfo, ConstantVal, Declaration, DefinitionSafety, DefinitionVal,
    Environment, Expr, InductiveType, InductiveVal, KernelError, Level, Name, Nat, OpaqueVal,
    RecGuard, ReducibilityHints, TheoremVal, BinderInfo,
};
use std::sync::Arc;

fn nm(s: &str) -> Arc<Name> {
    Arc::new(Name::Str { parent: Arc::new(Name::Anonymous), part: s.to_string() })
}
fn nm2(a: &str, b: &str) -> Arc<Name> {
    Arc::new(Name::Str { parent: nm(a), part: b.to_string() })
}
fn sort0() -> Arc<Expr> {
    Expr::sort(Arc::new(Level::Zero), &mut RecGuard::new()).unwrap()
}
fn type1() -> Arc<Expr> {
    Expr::sort(Arc::new(Level::Succ(Arc::new(Level::Zero))), &mut RecGuard::new()).unwrap()
}
fn cst(s: &str) -> Arc<Expr> {
    Expr::const_(nm(s), vec![], &mut RecGuard::new()).unwrap()
}
fn nat_ty() -> Arc<Expr> {
    cst("Nat")
}
fn pi(n: &str, dom: Arc<Expr>, body: Arc<Expr>) -> Arc<Expr> {
    Expr::forall_e(nm(n), dom, body, BinderInfo::Default)
}

fn cval(name: Arc<Name>, ty: Arc<Expr>) -> ConstantVal {
    ConstantVal { name, level_params: vec![], ty }
}

fn mk_axiom(name: &str, ty: Arc<Expr>, is_unsafe: bool) -> ConstantInfo {
    ConstantInfo::Axiom(AxiomVal { val: cval(nm(name), ty), is_unsafe })
}

/// `inductive Nat where | zero | succ (n : Nat)`.
fn nat_decl() -> Declaration {
    Declaration::Inductive {
        lparams: vec![],
        nparams: Nat::from_u64(0),
        types: vec![InductiveType {
            name: nm("Nat"),
            ty: type1(),
            ctors: vec![(nm2("Nat", "zero"), nat_ty()), (nm2("Nat", "succ"), pi("n", nat_ty(), nat_ty()))],
        }],
        is_unsafe: false,
    }
}

/// The four constants the kernel produces when it admits `Nat`, taken
/// from a scratch environment so that the constructor and recursor
/// checks compare like with like.
fn nat_world() -> Vec<ConstantInfo> {
    let mut env = Environment::default();
    env.add_decl(nat_decl()).expect("Nat admits");
    let names = [nm("Nat"), nm2("Nat", "zero"), nm2("Nat", "succ"), nm2("Nat", "rec")];
    names.iter().map(|n| env.get(n).expect("regenerated").clone()).collect()
}

fn tampered_nat_ctor_zero() -> Vec<ConstantInfo> {
    let mut infos = nat_world();
    for ci in infos.iter_mut() {
        if let ConstantInfo::Ctor(v) = ci {
            if *v.val.name == *nm2("Nat", "zero") {
                v.num_fields = Nat::from_u64(99);
            }
        }
    }
    infos
}

fn tampered_nat_rec() -> Vec<ConstantInfo> {
    let mut infos = nat_world();
    for ci in infos.iter_mut() {
        if let ConstantInfo::Rec(v) = ci {
            v.rules[0].rhs = cst("bogus");
        }
    }
    infos
}

#[test]
fn replays_nat_world_from_empty_env() {
    let mut env = Environment::default();
    let stats = replay(&mut env, nat_world()).expect("Nat world replays");
    assert_eq!(stats.checked, 1);
    assert_eq!(stats.skipped_unsafe, 0);
    assert!(env.get(&nm("Nat")).is_some());
    assert!(env.get(&nm2("Nat", "zero")).is_some());
    assert!(env.get(&nm2("Nat", "rec")).is_some());
}

#[test]
fn replays_out_of_order_deps() {
    let a_ty = mk_axiom("A", sort0(), false);
    let a_val = mk_axiom("a", cst("A"), false);
    let d = ConstantInfo::Defn(DefinitionVal {
        val: cval(nm("d"), cst("A")),
        value: cst("a"),
        hints: ReducibilityHints::Regular(0),
        safety: DefinitionSafety::Safe,
        all: vec![nm("d")],
    });
    let module = vec![d, a_val, a_ty];
    let mut env = Environment::default();
    let stats = replay(&mut env, module).expect("chain replays");
    assert_eq!(stats.checked, 3);
    for n in [nm("A"), nm("a"), nm("d")] {
        assert!(env.get(&n).is_some(), "{:?} missing from env", n);
    }
}

#[test]
fn skips_unsafe_and_partial() {
    let safe = mk_axiom("s", sort0(), false);
    let unsafe_ax = mk_axiom("u", sort0(), true);
    let partial = ConstantInfo::Defn(DefinitionVal {
        val: cval(nm("p"), type1()),
        value: sort0(),
        hints: ReducibilityHints::Regular(0),
        safety: DefinitionSafety::Partial,
        all: vec![nm("p")],
    });
    let module = vec![safe, unsafe_ax, partial];
    let mut env = Environment::default();
    let stats = replay(&mut env, module).expect("safe part replays");
    assert_eq!(stats.checked, 1);
    assert_eq!(stats.skipped_unsafe, 2);
    assert!(env.get(&nm("s")).is_some());
    assert!(env.get(&nm("u")).is_none(), "unsafe never admitted");
    assert!(env.get(&nm("p")).is_none(), "partial never admitted");
}

fn thm_ci(all: Vec<Arc<Name>>) -> ConstantInfo {
    ConstantInfo::Thm(TheoremVal { val: cval(nm("T"), cst("A")), value: cst("a"), all })
}

#[test]
fn thm_duplicate_tolerated() {
    let seed = vec![mk_axiom("A", sort0(), false), mk_axiom("a", cst("A"), false), thm_ci(vec![nm("T")])];
    let mut env = Environment::default();
    replay(&mut env, seed).expect("seed replays");

    let stats = replay(&mut env, vec![thm_ci(vec![nm("T")])]).expect("duplicate theorem tolerated");
    assert_eq!(stats.checked, 0, "duplicate not re-sent to the kernel");

    let err = replay(&mut env, vec![thm_ci(vec![nm("T"), nm("Other")])])
        .expect_err("non-identical duplicate rejected");
    assert_eq!(err.error, KernelError::AlreadyDeclared(nm("T")));
    assert_eq!(err.decl, nm("T"));
}

#[test]
fn missing_dep_is_error() {
    let module = vec![ConstantInfo::Induct(InductiveVal {
        val: cval(nm("Foo"), type1()),
        num_params: Nat::from_u64(0),
        num_indices: Nat::from_u64(0),
        all: vec![nm("Foo")],
        ctors: vec![nm2("Foo", "mk")],
        num_nested: Nat::from_u64(0),
        is_rec: false,
        is_unsafe: false,
        is_reflexive: false,
    })];
    let mut env = Environment::default();
    let err = replay(&mut env, module).expect_err("missing ctor is an error");
    assert_eq!(err.error, KernelError::MissingConstant(nm2("Foo", "mk")));
    assert!(env.get(&nm("Foo")).is_none());
}

#[test]
fn postponed_ctor_mismatch_detected() {
    let mut env = Environment::default();
    let err = replay(&mut env, tampered_nat_ctor_zero()).expect_err("tampered ctor rejected");
    assert_eq!(err.error, KernelError::ConstructorMismatch(nm2("Nat", "zero")));
}

#[test]
fn postponed_rec_mismatch_detected() {
    let mut env = Environment::default();
    let err = replay(&mut env, tampered_nat_rec()).expect_err("tampered recursor rejected");
    assert_eq!(err.error, KernelError::RecursorMismatch(nm2("Nat", "rec")));
}

#[test]
fn opaque_replays() {
    let a_ty = mk_axiom("A", sort0(), false);
    let a_val = mk_axiom("a", cst("A"), false);
    let w = ConstantInfo::Opaque(OpaqueVal {
        val: cval(nm("w"), cst("A")),
        value: cst("a"),
        is_unsafe: false,
        all: vec![nm("w")],
    });
    let mut env = Environment::default();
    let stats = replay(&mut env, vec![a_ty, a_val, w]).expect("opaque replays");
    assert_eq!(stats.checked, 3);
    assert!(env.get(&nm("w")).is_some());
}

#[test]
fn replay_of_nothing_is_empty() {
    let mut env = Environment::default();
    let stats = replay(&mut env, vec![]).expect("empty input replays");
    assert_eq!(stats.checked, 0);
    assert_eq!(stats.skipped_unsafe, 0);
}

#[test]
fn quotient_waits_for_eq() {
    // `Quot` is given without `Eq`: its declaration needs `Eq` first.
    let q = ConstantInfo::Quot(leanr_kernel::QuotVal {
        val: cval(nm("Quot"), sort0()),
        kind: leanr_kernel::QuotKind::Type,
    });
    let mut env = Environment::default();
    let err = replay(&mut env, vec![q]).expect_err("Eq is missing");
    assert!(!env.quot_initialized());
    assert_eq!(err.decl, nm("Quot"));
}
