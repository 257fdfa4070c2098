use leanr_kernel::{
    eq_name, exprs_eq, is_partial, BinderInfo, AxiomVal, ConstantInfo, ConstantVal, DefinitionSafety, DefinitionVal, Expr,
    KernelError, Level, Name, RecGuard, ReducibilityHints, ReplayError,
};
use std::sync::Arc;

fn dotted(parts: &[&str]) -> Arc<Name> {
    let mut n = Name::anonymous();
    for p in parts {
        n = Name::mk_str(n, p);
    }
    n
}

#[test]
fn error_messages_name_the_constant() {
    assert_eq!(KernelError::DeepRecursion.to_string(), "maximum recursion depth exceeded");
    assert_eq!(KernelError::UnknownConstant(dotted(&["Nat", "succ"])).to_string(), "unknown constant 'Nat.succ'");
    assert_eq!(KernelError::AlreadyDeclared(dotted(&["A"])).to_string(), "'A' has already been declared");
    assert_eq!(
        KernelError::UnsafeConstInSafeDecl(dotted(&["f"])).to_string(),
        "invalid declaration, unsafe constant 'f' used in safe declaration"
    );
    assert_eq!(
        KernelError::InvalidInductive { name: dotted(&["T"]), what: "positivity" }.to_string(),
        "invalid inductive 'T': positivity"
    );
    assert_eq!(KernelError::InvalidQuot { what: "Eq" }.to_string(), "invalid quotient init: Eq");
    assert_eq!(KernelError::TypeExpected.to_string(), "type expected");
    assert_eq!(
        KernelError::MissingConstant(Name::anonymous()).to_string(),
        "constant '[anonymous]' missing from module set"
    );
    assert!(KernelError::DeepRecursion.is_deep_recursion());
    assert!(!KernelError::LooseBVar.is_deep_recursion());
}

#[test]
fn replay_error_message_wraps_the_kernel_message() {
    let e = ReplayError { decl: dotted(&["Foo", "bar"]), error: KernelError::AppTypeMismatch };
    assert_eq!(e.to_string(), "while replaying declaration 'Foo.bar': application type mismatch");
}

#[test]
fn partial_definitions_are_recognised() {
    let ty = Expr::sort(Arc::new(Level::Zero), &mut RecGuard::new()).unwrap();
    let val = || ConstantVal { name: dotted(&["d"]), level_params: vec![], ty: ty.clone() };
    let def = |safety| {
        ConstantInfo::Defn(DefinitionVal {
            val: val(),
            value: ty.clone(),
            hints: ReducibilityHints::Abbrev,
            safety,
            all: vec![dotted(&["d"])],
        })
    };
    assert!(is_partial(&def(DefinitionSafety::Partial)));
    assert!(!is_partial(&def(DefinitionSafety::Safe)));
    assert!(!is_partial(&def(DefinitionSafety::Unsafe)));
    assert!(!is_partial(&ConstantInfo::Axiom(AxiomVal { val: val(), is_unsafe: false })));
}

#[test]
fn replay_helpers_name_eq_and_compare_structurally() {
    assert_eq!(eq_name().to_string(), "Eq");
    let mut g = RecGuard::new();
    let s0 = Expr::sort(Arc::new(Level::Zero), &mut g).unwrap();
    let a = Expr::forall_e(dotted(&["x"]), s0.clone(), s0.clone(), BinderInfo::Default);
    let b = Expr::forall_e(dotted(&["x"]), s0.clone(), s0.clone(), BinderInfo::Default);
    let c = Expr::forall_e(dotted(&["y"]), s0.clone(), s0, BinderInfo::Default);
    assert!(exprs_eq(&a, &b, &mut g).unwrap());
    assert!(!exprs_eq(&a, &c, &mut g).unwrap());
}
