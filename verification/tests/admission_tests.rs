use leanr_kernel::{
    check_declaration, constant_info_eq, AxiomVal, ConstantInfo, ConstantVal, ConstructorVal,
    Declaration, DefinitionSafety, DefinitionVal, Environment, Expr, InductiveVal, KernelError,
    Level, Name, Nat, OpaqueVal, RecGuard, ReducibilityHints, TheoremVal,
};
use std::sync::Arc;

fn nm(s: &str) -> Arc<Name> {
    Arc::new(Name::Str { parent: Arc::new(Name::Anonymous), part: s.to_string() })
}
fn nm2(a: &str, b: &str) -> Arc<Name> {
    Arc::new(Name::Str { parent: nm(a), part: b.to_string() })
}
fn sort0() -> Arc<Expr> {
    Expr::sort(Arc::new(Level::Zero), &mut RecGuard::new()).unwrap()
}
fn type1() -> Arc<Expr> {
    Expr::sort(Arc::new(Level::Succ(Arc::new(Level::Zero))), &mut RecGuard::new()).unwrap()
}
fn sort_param(p: &str) -> Arc<Expr> {
    Expr::sort(Arc::new(Level::Param(nm(p))), &mut RecGuard::new()).unwrap()
}
fn cst(s: &str) -> Arc<Expr> {
    cstn(nm(s))
}
fn cstn(n: Arc<Name>) -> Arc<Expr> {
    Expr::const_(n, vec![], &mut RecGuard::new()).unwrap()
}
fn cv(name: &str, level_params: Vec<&str>, ty: Arc<Expr>) -> ConstantVal {
    ConstantVal { name: nm(name), level_params: level_params.into_iter().map(nm).collect(), ty }
}
fn ax_const(name: &str, ty: Arc<Expr>) -> ConstantInfo {
    ConstantInfo::Axiom(AxiomVal { val: cv(name, vec![], ty), is_unsafe: false })
}
fn defn(name: &str, ty: Arc<Expr>, value: Arc<Expr>, safety: DefinitionSafety) -> Declaration {
    Declaration::Defn(DefinitionVal {
        val: cv(name, vec![], ty),
        value,
        hints: ReducibilityHints::Regular(0),
        safety,
        all: vec![nm(name)],
    })
}

/// `A : Prop` with `a : A`, `B : Type` with `bt : B`, and `Nat` with its
/// constructors.
fn mini_env() -> Environment {
    let nat_ind = ConstantInfo::Induct(InductiveVal {
        val: cv("Nat", vec![], type1()),
        num_params: Nat::from_u64(0),
        num_indices: Nat::from_u64(0),
        all: vec![nm("Nat")],
        ctors: vec![nm2("Nat", "zero"), nm2("Nat", "succ")],
        num_nested: Nat::from_u64(0),
        is_rec: true,
        is_unsafe: false,
        is_reflexive: false,
    });
    let zero = ConstantInfo::Ctor(ConstructorVal {
        val: ConstantVal { name: nm2("Nat", "zero"), level_params: vec![], ty: cst("Nat") },
        induct: nm("Nat"),
        cidx: Nat::from_u64(0),
        num_params: Nat::from_u64(0),
        num_fields: Nat::from_u64(0),
        is_unsafe: false,
    });
    let succ_ty = Expr::forall_e(nm("n"), cst("Nat"), cst("Nat"), leanr_kernel::BinderInfo::Default);
    let succ = ConstantInfo::Ctor(ConstructorVal {
        val: ConstantVal { name: nm2("Nat", "succ"), level_params: vec![], ty: succ_ty },
        induct: nm("Nat"),
        cidx: Nat::from_u64(1),
        num_params: Nat::from_u64(0),
        num_fields: Nat::from_u64(1),
        is_unsafe: false,
    });
    Environment::from_modules(vec![vec![
        ax_const("A", sort0()),
        ax_const("a", cst("A")),
        ax_const("B", type1()),
        ax_const("bt", cst("B")),
        nat_ind,
        zero,
        succ,
    ]])
    .unwrap()
}

#[test]
fn admits_wellformed_axiom_def_thm_opaque() {
    let mut env = mini_env();
    let len_before = env.len();
    env.add_decl(Declaration::Axiom(AxiomVal { val: cv("myAxiom", vec![], sort0()), is_unsafe: false }))
        .unwrap();
    env.add_decl(defn("myDef", cst("A"), cst("a"), DefinitionSafety::Safe)).unwrap();
    env.add_decl(Declaration::Thm(TheoremVal {
        val: cv("myThm", vec![], cst("A")),
        value: cst("a"),
        all: vec![nm("myThm")],
    }))
    .unwrap();
    env.add_decl(Declaration::Opaque(OpaqueVal {
        val: cv("myOpaque", vec![], cst("A")),
        value: cst("a"),
        is_unsafe: false,
        all: vec![nm("myOpaque")],
    }))
    .unwrap();
    assert_eq!(env.len(), len_before + 4);
    assert!(matches!(env.get(&nm("myAxiom")), Some(ConstantInfo::Axiom(_))));
    assert!(matches!(env.get(&nm("myDef")), Some(ConstantInfo::Defn(_))));
    assert!(matches!(env.get(&nm("myThm")), Some(ConstantInfo::Thm(_))));
    assert!(matches!(env.get(&nm("myOpaque")), Some(ConstantInfo::Opaque(_))));
}

#[test]
fn rejects_duplicate_name() {
    let mut env = mini_env();
    let err = env
        .add_decl(Declaration::Axiom(AxiomVal { val: cv("A", vec![], sort0()), is_unsafe: false }))
        .unwrap_err();
    assert!(matches!(err, KernelError::AlreadyDeclared(n) if n.to_string() == "A"));
}

#[test]
fn rejects_duplicate_univ_param() {
    let mut env = mini_env();
    let err = env
        .add_decl(Declaration::Axiom(AxiomVal {
            val: cv("dupAx", vec!["p", "p"], sort_param("p")),
            is_unsafe: false,
        }))
        .unwrap_err();
    assert!(matches!(err, KernelError::DuplicateUnivParam(n) if n.to_string() == "p"));
}

#[test]
fn rejects_mvar_in_type_or_value() {
    let mut env = mini_env();
    let err = env
        .add_decl(Declaration::Axiom(AxiomVal {
            val: cv("mvarAx", vec![], Expr::mvar(nm("m"))),
            is_unsafe: false,
        }))
        .unwrap_err();
    assert!(matches!(err, KernelError::HasMetavars(n) if n.to_string() == "mvarAx"));

    let mut env2 = mini_env();
    let err2 = env2
        .add_decl(defn("mvarDef", cst("A"), Expr::mvar(nm("m")), DefinitionSafety::Safe))
        .unwrap_err();
    assert!(matches!(err2, KernelError::HasMetavars(n) if n.to_string() == "mvarDef"));
}

#[test]
fn rejects_fvar_in_type_or_value() {
    let mut env = mini_env();
    let err = env
        .add_decl(Declaration::Axiom(AxiomVal {
            val: cv("fvarAx", vec![], Expr::fvar(nm("x"))),
            is_unsafe: false,
        }))
        .unwrap_err();
    assert!(matches!(err, KernelError::HasFVars(n) if n.to_string() == "fvarAx"));

    let mut env2 = mini_env();
    let err2 = env2
        .add_decl(defn("fvarDef", cst("A"), Expr::fvar(nm("x")), DefinitionSafety::Safe))
        .unwrap_err();
    assert!(matches!(err2, KernelError::HasFVars(n) if n.to_string() == "fvarDef"));
}

#[test]
fn rejects_type_that_is_not_a_sort() {
    let mut env = mini_env();
    let err = env
        .add_decl(Declaration::Axiom(AxiomVal {
            val: cv("badTy", vec![], cstn(nm2("Nat", "zero"))),
            is_unsafe: false,
        }))
        .unwrap_err();
    assert!(matches!(err, KernelError::TypeExpected));
}

#[test]
fn rejects_ill_typed_value() {
    let mut env = mini_env();
    let err = env.add_decl(defn("x", cst("A"), cst("bt"), DefinitionSafety::Safe)).unwrap_err();
    assert!(matches!(err, KernelError::DefTypeMismatch(n) if n.to_string() == "x"));
}

#[test]
fn rejects_theorem_not_prop() {
    let mut env = mini_env();
    let err = env
        .add_decl(Declaration::Thm(TheoremVal {
            val: cv("myThmBad", vec![], cst("B")),
            value: cst("bt"),
            all: vec![nm("myThmBad")],
        }))
        .unwrap_err();
    assert!(matches!(err, KernelError::TheoremTypeNotProp(n) if n.to_string() == "myThmBad"));
}

#[test]
fn rejects_unknown_constant_in_value() {
    let mut env = mini_env();
    let err = env
        .add_decl(defn("y", cst("A"), cst("does_not_exist"), DefinitionSafety::Safe))
        .unwrap_err();
    assert!(matches!(err, KernelError::UnknownConstant(n) if n.to_string() == "does_not_exist"));
}

#[test]
fn rejects_unsafe_defn_at_add_decl() {
    let mut env = mini_env();
    let err = env
        .add_decl(defn("unsafeDef", cst("A"), cst("a"), DefinitionSafety::Unsafe))
        .unwrap_err();
    assert!(matches!(err, KernelError::UnsafeConstInSafeDecl(n) if n.to_string() == "unsafeDef"));
}

#[test]
fn env_unchanged_after_rejection() {
    let mut env = mini_env();
    let len_before = env.len();
    let a_before = env.get(&nm("A")).unwrap().clone();
    let err = env
        .add_decl(Declaration::Axiom(AxiomVal { val: cv("A", vec![], sort0()), is_unsafe: false }))
        .unwrap_err();
    assert!(matches!(err, KernelError::AlreadyDeclared(n) if n.to_string() == "A"));
    assert_eq!(env.len(), len_before);
    let a_after = env.get(&nm("A")).unwrap();
    assert!(constant_info_eq(&a_before, a_after, &mut RecGuard::new()).unwrap());

    let err2 = env.add_decl(defn("z", cst("A"), cst("bt"), DefinitionSafety::Safe)).unwrap_err();
    assert!(matches!(err2, KernelError::DefTypeMismatch(n) if n.to_string() == "z"));
    assert_eq!(env.len(), len_before);
    assert!(env.get(&nm("z")).is_none());
}

#[test]
fn check_declaration_returns_survivor_without_mutating_env() {
    let env = mini_env();
    let before = env.len();
    let d = Declaration::Axiom(AxiomVal { val: cv("myAxiom", vec![], sort0()), is_unsafe: false });
    let admitted = check_declaration(&env, d).unwrap();
    assert_eq!(admitted.survivors.len(), 1);
    assert!(!admitted.quot_init);
    assert_eq!(env.len(), before);
}

#[test]
fn admits_a_definition_that_needs_unfolding() {
    let mut env = mini_env();
    env.add_decl(defn("myA", sort0(), cst("A"), DefinitionSafety::Safe)).unwrap();
    // `a : A`, and `myA` unfolds to `A`.
    env.add_decl(defn("myVal", cst("myA"), cst("a"), DefinitionSafety::Safe)).unwrap();
    assert!(matches!(env.get(&nm("myVal")), Some(ConstantInfo::Defn(_))));
}

#[test]
fn partial_definition_is_rejected_as_unsafe() {
    let mut env = mini_env();
    let err = env
        .add_decl(defn("partialDef", cst("A"), cst("a"), DefinitionSafety::Partial))
        .unwrap_err();
    assert!(matches!(err, KernelError::UnsafeConstInSafeDecl(n) if n.to_string() == "partialDef"));
}
