use leanr_kernel::{
    check_constant_val_pre, check_duplicated_univ_params, check_name, check_no_metavar_no_fvar,
    AxiomVal, ConstantInfo, ConstantVal, Environment, EnvironmentError, Expr, InductiveVal,
    KernelError, Level, Name, Nat, RecGuard,
};
use std::sync::Arc;

fn nm(s: &str) -> Arc<Name> {
    Arc::new(Name::Str { parent: Arc::new(Name::Anonymous), part: s.to_string() })
}
fn sort0() -> Arc<Expr> {
    Expr::sort(Arc::new(Level::Zero), &mut RecGuard::new()).unwrap()
}
fn axiom_named(s: &str) -> ConstantInfo {
    ConstantInfo::Axiom(AxiomVal {
        val: ConstantVal { name: nm(s), level_params: Vec::new(), ty: sort0() },
        is_unsafe: false,
    })
}
fn has_name(env: &Environment, s: &str) -> bool {
    env.get(&nm(s)).is_some()
}
fn cv(name: &str, level_params: Vec<&str>, ty: Arc<Expr>) -> ConstantVal {
    ConstantVal { name: nm(name), level_params: level_params.into_iter().map(nm).collect(), ty }
}

#[test]
fn admit_unchecked_inserts_and_rejects_duplicates() {
    let mut env = Environment::default();
    let ci = axiom_named("u");
    let name = Arc::clone(ci.name());
    env.admit_unchecked(ci.clone()).unwrap();
    assert!(env.get(&name).is_some());
    assert!(matches!(env.admit_unchecked(ci), Err(EnvironmentError::DuplicateName(_))));
    assert_eq!(env.len(), 1);
}

#[test]
fn kind_strings_match_the_oracle_dump_script() {
    assert_eq!(axiom_named("a").kind(), "axiom");
}

#[test]
fn from_modules_merges_and_indexes_by_name() {
    let env = Environment::from_modules(vec![
        vec![axiom_named("a"), axiom_named("b")],
        vec![axiom_named("c")],
    ])
    .unwrap();
    assert_eq!(env.len(), 3);
    assert!(has_name(&env, "b"));
    assert!(!has_name(&env, "zzz"));
}

#[test]
fn from_modules_rejects_duplicate_names() {
    let err = match Environment::from_modules(vec![vec![axiom_named("a")], vec![axiom_named("a")]]) {
        Ok(_) => panic!("expected a duplicate-name error"),
        Err(e) => e,
    };
    let msg = format!("{err:?}");
    let EnvironmentError::DuplicateName(n) = err else {
        panic!("expected DuplicateName, got {msg}");
    };
    assert_eq!(n.to_string(), "a");
}

#[test]
fn from_modules_names_the_first_repeat() {
    let r = Environment::from_modules(vec![
        vec![axiom_named("a"), axiom_named("b")],
        vec![axiom_named("b"), axiom_named("a")],
    ]);
    let Err(EnvironmentError::DuplicateName(n)) = r else { panic!("expected a duplicate") };
    assert_eq!(n.to_string(), "b");
}

#[test]
fn empty_environment_knows_nothing() {
    let env = Environment::new();
    assert!(env.is_empty());
    assert!(!env.quot_initialized());
    assert_eq!(env.get_with(&nm("x")).unwrap_err(), KernelError::UnknownConstant(nm("x")));
}

#[test]
fn get_with_finds_an_admitted_constant() {
    let mut env = Environment::new();
    env.admit_unchecked(axiom_named("ax")).unwrap();
    let c = env.get_with(&nm("ax")).unwrap();
    assert_eq!(c.kind(), "axiom");
}

#[test]
fn structure_like_needs_one_ctor_no_indices_no_recursion() {
    let mk = |name: &str, ctors: Vec<&str>, num_indices: u64, is_rec: bool| {
        ConstantInfo::Induct(InductiveVal {
            val: cv(name, vec![], sort0()),
            num_params: Nat::from_u64(0),
            num_indices: Nat::from_u64(num_indices),
            all: vec![nm(name)],
            ctors: ctors.into_iter().map(nm).collect(),
            num_nested: Nat::from_u64(0),
            is_rec,
            is_unsafe: false,
            is_reflexive: false,
        })
    };
    let env = Environment::from_modules(vec![vec![
        mk("Prod", vec!["Prod.mk"], 0, false),
        mk("Or", vec!["Or.inl", "Or.inr"], 0, false),
        mk("Eq", vec!["Eq.refl"], 1, false),
        mk("List", vec!["List.cons"], 0, true),
        axiom_named("ax"),
    ]])
    .unwrap();
    assert!(env.is_structure_like(&nm("Prod")));
    assert!(!env.is_structure_like(&nm("Or")));
    assert!(!env.is_structure_like(&nm("Eq")));
    assert!(!env.is_structure_like(&nm("List")));
    assert!(!env.is_structure_like(&nm("ax")));
    assert!(!env.is_structure_like(&nm("missing")));
}

#[test]
fn check_name_rejects_a_taken_name() {
    let mut env = Environment::new();
    env.admit_unchecked(axiom_named("A")).unwrap();
    assert_eq!(check_name(&env, &nm("A")), Err(KernelError::AlreadyDeclared(nm("A"))));
    assert_eq!(check_name(&env, &nm("B")), Ok(()));
}

#[test]
fn duplicated_univ_params_name_the_first_repeat() {
    assert_eq!(check_duplicated_univ_params(&[nm("u"), nm("v")]), Ok(()));
    assert_eq!(
        check_duplicated_univ_params(&[nm("u"), nm("v"), nm("v"), nm("u")]),
        Err(KernelError::DuplicateUnivParam(nm("u")))
    );
    assert_eq!(
        check_duplicated_univ_params(&[nm("w"), nm("p"), nm("p")]),
        Err(KernelError::DuplicateUnivParam(nm("p")))
    );
}

#[test]
fn metavariables_are_reported_before_free_variables() {
    let n = nm("c");
    let both = Expr::app(Expr::mvar(nm("m")), Expr::fvar(nm("x")));
    assert_eq!(check_no_metavar_no_fvar(&n, &both), Err(KernelError::HasMetavars(nm("c"))));
    let fv = Expr::fvar(nm("x"));
    assert_eq!(check_no_metavar_no_fvar(&n, &fv), Err(KernelError::HasFVars(nm("c"))));
    let lvl_mvar = Expr::sort(Arc::new(Level::MVar(nm("l"))), &mut RecGuard::new()).unwrap();
    assert_eq!(check_no_metavar_no_fvar(&n, &lvl_mvar), Err(KernelError::HasMetavars(nm("c"))));
    assert_eq!(check_no_metavar_no_fvar(&n, &sort0()), Ok(()));
}

#[test]
fn constant_val_checks_run_in_order() {
    let mut env = Environment::new();
    env.admit_unchecked(axiom_named("A")).unwrap();
    // a taken name comes first
    let v = cv("A", vec!["p", "p"], Expr::mvar(nm("m")));
    assert_eq!(check_constant_val_pre(&env, &v), Err(KernelError::AlreadyDeclared(nm("A"))));
    // then the universe parameters
    let v = cv("dupAx", vec!["p", "p"], Expr::mvar(nm("m")));
    assert_eq!(check_constant_val_pre(&env, &v), Err(KernelError::DuplicateUnivParam(nm("p"))));
    // then metavariables and free variables in the type
    let v = cv("mvarAx", vec![], Expr::mvar(nm("m")));
    assert_eq!(check_constant_val_pre(&env, &v), Err(KernelError::HasMetavars(nm("mvarAx"))));
    let v = cv("fvarAx", vec![], Expr::fvar(nm("x")));
    assert_eq!(check_constant_val_pre(&env, &v), Err(KernelError::HasFVars(nm("fvarAx"))));
    let v = cv("ok", vec!["u"], sort0());
    assert_eq!(check_constant_val_pre(&env, &v), Ok(()));
}
