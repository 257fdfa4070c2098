use leanr_kernel::{
    AxiomVal, BinderInfo, ConstantInfo, ConstantVal, ConstructorVal, Declaration, Environment,
    Expr, ExprNode, InductiveType, InductiveVal, KernelError, Level, Name, Nat, RecGuard,
    RecursorVal, TypeChecker,
};
use std::sync::Arc;

fn nm(s: &str) -> Arc<Name> {
    Arc::new(Name::Str { parent: Arc::new(Name::Anonymous), part: s.to_string() })
}
fn nm2(a: &str, b: &str) -> Arc<Name> {
    Arc::new(Name::Str { parent: nm(a), part: b.to_string() })
}
fn zero() -> Arc<Level> {
    Arc::new(Level::Zero)
}
fn one() -> Arc<Level> {
    Arc::new(Level::Succ(zero()))
}
fn param(s: &str) -> Arc<Level> {
    Arc::new(Level::Param(nm(s)))
}
fn sort(l: Arc<Level>) -> Arc<Expr> {
    Expr::sort(l, &mut RecGuard::new()).unwrap()
}
fn sort_n(n: u64) -> Arc<Expr> {
    let mut l = zero();
    for _ in 0..n {
        l = Arc::new(Level::Succ(l));
    }
    sort(l)
}
fn sort0() -> Arc<Expr> {
    sort(zero())
}
fn type1() -> Arc<Expr> {
    sort(one())
}
/// `Type u` = `Sort (u+1)`.
fn type_u() -> Arc<Expr> {
    sort(Arc::new(Level::Succ(param("u"))))
}
fn cstn(n: Arc<Name>, levels: Vec<Arc<Level>>) -> Arc<Expr> {
    Expr::const_(n, levels, &mut RecGuard::new()).unwrap()
}
fn cst(s: &str) -> Arc<Expr> {
    cstn(nm(s), vec![])
}
fn nat_ty() -> Arc<Expr> {
    cst("Nat")
}
fn bvar(i: u64) -> Arc<Expr> {
    Expr::bvar(Nat::from_u64(i))
}
fn app(f: Arc<Expr>, a: Arc<Expr>) -> Arc<Expr> {
    Expr::app(f, a)
}
fn appn(f: Arc<Expr>, args: Vec<Arc<Expr>>) -> Arc<Expr> {
    let mut r = f;
    for a in args {
        r = app(r, a);
    }
    r
}
fn pi(n: &str, dom: Arc<Expr>, body: Arc<Expr>) -> Arc<Expr> {
    Expr::forall_e(nm(n), dom, body, BinderInfo::Default)
}
fn lam(n: &str, dom: Arc<Expr>, body: Arc<Expr>) -> Arc<Expr> {
    Expr::lam(nm(n), dom, body, BinderInfo::Default)
}
fn alpha(a: &Arc<Expr>, b: &Arc<Expr>) -> bool {
    Expr::alpha_eq(a, b, &mut RecGuard::new()).unwrap()
}
fn n(v: u64) -> Nat {
    Nat::from_u64(v)
}

fn ind(name: &str, ty: Arc<Expr>, ctors: Vec<(Arc<Name>, Arc<Expr>)>) -> InductiveType {
    InductiveType { name: nm(name), ty, ctors }
}
fn decl(lparams: Vec<Arc<Name>>, nparams: u64, types: Vec<InductiveType>) -> Declaration {
    Declaration::Inductive { lparams, nparams: n(nparams), types, is_unsafe: false }
}
fn axiom_decl(name: &str, ty: Arc<Expr>) -> Declaration {
    Declaration::Axiom(AxiomVal {
        val: ConstantVal { name: nm(name), level_params: vec![], ty },
        is_unsafe: false,
    })
}
fn axiom_info(name: &str, ty: Arc<Expr>) -> ConstantInfo {
    ConstantInfo::Axiom(AxiomVal {
        val: ConstantVal { name: nm(name), level_params: vec![], ty },
        is_unsafe: false,
    })
}

fn nat_decl() -> Declaration {
    decl(
        vec![],
        0,
        vec![ind(
            "Nat",
            type1(),
            vec![(nm2("Nat", "zero"), nat_ty()), (nm2("Nat", "succ"), pi("n", nat_ty(), nat_ty()))],
        )],
    )
}

/// `inductive List.{u} (α : Type u) | nil | cons (head : α) (tail : List α)`.
fn list_decl() -> Declaration {
    let listu = || cstn(nm("List"), vec![param("u")]);
    let nil_ty = pi("α", type_u(), app(listu(), bvar(0)));
    let cons_ty = pi(
        "α",
        type_u(),
        pi("head", bvar(0), pi("tail", app(listu(), bvar(1)), app(listu(), bvar(2)))),
    );
    decl(
        vec![nm("u")],
        1,
        vec![ind(
            "List",
            pi("α", type_u(), type_u()),
            vec![(nm2("List", "nil"), nil_ty), (nm2("List", "cons"), cons_ty)],
        )],
    )
}

fn list0(arg: Arc<Expr>) -> Arc<Expr> {
    app(cstn(nm("List"), vec![zero()]), arg)
}

/// `inductive Tree | node : List Tree → Tree`.
fn tree_decl() -> Declaration {
    let node_ty = pi("a", list0(cst("Tree")), cst("Tree"));
    decl(vec![], 0, vec![ind("Tree", type1(), vec![(nm2("Tree", "node"), node_ty)])])
}

/// `structure Array.{u} (α : Type u) where mk :: (toList : List.{u} α)`.
fn array_decl() -> Declaration {
    let listu = cstn(nm("List"), vec![param("u")]);
    let arrayu = cstn(nm("Array"), vec![param("u")]);
    let mk_ty = pi("α", type_u(), pi("toList", app(listu, bvar(0)), app(arrayu, bvar(1))));
    decl(
        vec![nm("u")],
        1,
        vec![ind("Array", pi("α", type_u(), type_u()), vec![(nm2("Array", "mk"), mk_ty)])],
    )
}

/// `inductive Eq {α : Sort u_1} (a : α) : α → Prop | refl : Eq a a`.
fn eq_decl() -> Declaration {
    let eq_ty = pi("α", sort(param("u_1")), pi("a", bvar(0), pi("b", bvar(1), sort0())));
    let eq = cstn(nm("Eq"), vec![param("u_1")]);
    let refl_ty = pi(
        "α",
        sort(param("u_1")),
        pi("a", bvar(0), appn(eq, vec![bvar(1), bvar(0), bvar(0)])),
    );
    decl(vec![nm("u_1")], 2, vec![ind("Eq", eq_ty, vec![(nm2("Eq", "refl"), refl_ty)])])
}

fn as_induct(env: &Environment, name: &Arc<Name>) -> InductiveVal {
    match env.get(name) {
        Some(ConstantInfo::Induct(v)) => v.clone(),
        other => panic!("expected inductive {}, got {:?}", name.to_string(), other),
    }
}
fn as_ctor(env: &Environment, name: &Arc<Name>) -> ConstructorVal {
    match env.get(name) {
        Some(ConstantInfo::Ctor(v)) => v.clone(),
        other => panic!("expected constructor {}, got {:?}", name.to_string(), other),
    }
}
fn as_rec(env: &Environment, name: &Arc<Name>) -> RecursorVal {
    match env.get(name) {
        Some(ConstantInfo::Rec(v)) => v.clone(),
        other => panic!("expected recursor {}, got {:?}", name.to_string(), other),
    }
}
fn names(v: &[Arc<Name>]) -> Vec<String> {
    v.iter().map(|x| x.to_string()).collect()
}
fn binder_names(e: &Arc<Expr>, out: &mut Vec<String>) {
    match e.node() {
        ExprNode::Lam { binder_name, binder_type, body, .. }
        | ExprNode::ForallE { binder_name, binder_type, body, .. } => {
            out.push(binder_name.to_string());
            binder_names(binder_type, out);
            binder_names(body, out);
        }
        ExprNode::App { f, arg } => {
            binder_names(f, out);
            binder_names(arg, out);
        }
        _ => {}
    }
}
fn head_const_name(e: &Arc<Expr>) -> Option<String> {
    match Expr::get_app_fn(e).node() {
        ExprNode::Const { name, .. } => Some(name.to_string()),
        _ => None,
    }
}
fn inductive_error(err: KernelError) -> &'static str {
    match err {
        KernelError::InvalidInductive { what, .. } => what,
        other => panic!("expected an invalid-inductive error, got {:?}", other),
    }
}
fn with_list() -> Environment {
    let mut env = Environment::new();
    env.add_decl(list_decl()).expect("List admits");
    env
}

/// The recursor `Nat.rec.{u}` as Lean declares it.
fn expected_nat_rec_type() -> Arc<Expr> {
    let u = param("u");
    let motive_ty = pi("t", nat_ty(), sort(u));
    let zero_ty = app(bvar(0), cst_nat("zero"));
    let succ_ty = pi("n", nat_ty(), pi("n_ih", app(bvar(2), bvar(0)), app(bvar(3), app(cst_nat("succ"), bvar(1)))));
    pi("motive", motive_ty, pi("zero", zero_ty, pi("succ", succ_ty, pi("t", nat_ty(), app(bvar(3), bvar(0))))))
}
fn cst_nat(c: &str) -> Arc<Expr> {
    cstn(nm2("Nat", c), vec![])
}
fn nat_rec_binders(body: Arc<Expr>) -> Arc<Expr> {
    let u = param("u");
    let motive_ty = pi("t", nat_ty(), sort(u));
    let zero_ty = app(bvar(0), cst_nat("zero"));
    let succ_ty = pi("n", nat_ty(), pi("n_ih", app(bvar(2), bvar(0)), app(bvar(3), app(cst_nat("succ"), bvar(1)))));
    lam("motive", motive_ty, lam("zero", zero_ty, lam("succ", succ_ty, body)))
}

#[test]
fn admits_nat_and_regenerates_m1a_shapes() {
    let mut env = Environment::new();
    env.add_decl(nat_decl()).expect("Nat admits");
    assert_eq!(env.len(), 4);

    let nat_ind = as_induct(&env, &nm("Nat"));
    assert!(nat_ind.is_rec, "Nat is recursive");
    assert!(!nat_ind.is_reflexive);
    assert!(nat_ind.num_params == n(0));
    assert!(nat_ind.num_indices == n(0));
    assert!(nat_ind.num_nested == n(0));
    assert_eq!(names(&nat_ind.all), vec!["Nat"]);
    assert_eq!(names(&nat_ind.ctors), vec!["Nat.zero", "Nat.succ"]);

    let z = as_ctor(&env, &nm2("Nat", "zero"));
    assert!(z.cidx == n(0));
    assert!(z.num_fields == n(0));
    let s = as_ctor(&env, &nm2("Nat", "succ"));
    assert!(s.cidx == n(1));
    assert!(s.num_fields == n(1));

    let got = as_rec(&env, &nm2("Nat", "rec"));
    assert!(!got.k, "Nat.rec is not K-like");
    assert!(got.num_params == n(0));
    assert!(got.num_indices == n(0));
    assert!(got.num_motives == n(1));
    assert!(got.num_minors == n(2));
    assert_eq!(names(&got.val.level_params), vec!["u"]);
    assert_eq!(names(&got.all), vec!["Nat"]);
    assert_eq!(got.rules.len(), 2);

    let zero_rhs = nat_rec_binders(bvar(1));
    let rec_call = appn(
        cstn(nm2("Nat", "rec"), vec![param("u")]),
        vec![bvar(3), bvar(2), bvar(1), bvar(0)],
    );
    let succ_rhs = nat_rec_binders(lam("n", nat_ty(), appn(bvar(1), vec![bvar(0), rec_call])));
    assert_eq!(got.rules[0].ctor.to_string(), "Nat.zero");
    assert!(got.rules[0].nfields == n(0));
    assert!(alpha(&got.rules[0].rhs, &zero_rhs), "rule rhs for Nat.zero matches");
    assert_eq!(got.rules[1].ctor.to_string(), "Nat.succ");
    assert!(got.rules[1].nfields == n(1));
    assert!(alpha(&got.rules[1].rhs, &succ_rhs), "rule rhs for Nat.succ matches");
    assert!(alpha(&got.val.ty, &expected_nat_rec_type()), "Nat.rec type matches structurally");

    match got.val.ty.node() {
        ExprNode::ForallE { binder_info, .. } => assert!(matches!(binder_info, BinderInfo::Implicit)),
        _ => panic!("recursor type is a Pi"),
    }
    let mut succ_rhs_binders = Vec::new();
    binder_names(&got.rules[1].rhs, &mut succ_rhs_binders);
    assert!(
        succ_rhs_binders.iter().any(|b| b == "n_ih"),
        "IH binder is `n_ih`, got {:?}",
        succ_rhs_binders
    );
}

#[test]
fn admits_prod_structure_like() {
    let prod_ty = pi("α", type1(), pi("β", type1(), type1()));
    let mk_ty = pi(
        "α",
        type1(),
        pi(
            "β",
            type1(),
            pi("fst", bvar(1), pi("snd", bvar(1), appn(cst("Prod"), vec![bvar(3), bvar(2)]))),
        ),
    );
    let mut env = Environment::new();
    env.add_decl(decl(vec![], 2, vec![ind("Prod", prod_ty, vec![(nm2("Prod", "mk"), mk_ty)])]))
        .expect("Prod admits");

    let prod = as_induct(&env, &nm("Prod"));
    assert!(prod.num_params == n(2));
    assert!(prod.num_indices == n(0));
    assert_eq!(prod.ctors.len(), 1);
    assert!(!prod.is_rec);
    let mk = as_ctor(&env, &nm2("Prod", "mk"));
    assert!(mk.num_params == n(2));
    assert!(mk.num_fields == n(2));
    let rec = as_rec(&env, &nm2("Prod", "rec"));
    assert!(rec.num_minors == n(1));
    assert!(rec.num_motives == n(1));
    assert!(rec.num_params == n(2));
    assert!(rec.num_indices == n(0));
    assert!(!rec.k);
    assert!(env.is_structure_like(&nm("Prod")));
}

#[test]
fn admits_eq_with_k() {
    let mut env = Environment::new();
    env.add_decl(eq_decl()).expect("Eq admits");
    let eq = as_induct(&env, &nm("Eq"));
    assert!(eq.num_params == n(2));
    assert!(eq.num_indices == n(1));
    let rec = as_rec(&env, &nm2("Eq", "rec"));
    assert!(rec.k, "Eq.rec is K-like");
    assert!(rec.num_minors == n(1));
    assert!(rec.num_motives == n(1));
    assert!(rec.num_params == n(2));
    assert!(rec.num_indices == n(1));
}

#[test]
fn large_elim_singleton() {
    let mut env = Environment::new();
    env.add_decl(eq_decl()).expect("Eq admits");
    let rec = as_rec(&env, &nm2("Eq", "rec"));
    assert_eq!(names(&rec.val.level_params), vec!["u", "u_1"]);
}

#[test]
fn prop_only_elim_small() {
    let or_ty = pi("a", sort0(), pi("b", sort0(), sort0()));
    let inl_ty =
        pi("a", sort0(), pi("b", sort0(), pi("h", bvar(1), appn(cst("Or"), vec![bvar(2), bvar(1)]))));
    let inr_ty =
        pi("a", sort0(), pi("b", sort0(), pi("h", bvar(0), appn(cst("Or"), vec![bvar(2), bvar(1)]))));
    let mut env = Environment::new();
    env.add_decl(decl(
        vec![],
        2,
        vec![ind("Or", or_ty, vec![(nm2("Or", "inl"), inl_ty), (nm2("Or", "inr"), inr_ty)])],
    ))
    .expect("Or admits");
    let or_ind = as_induct(&env, &nm("Or"));
    assert!(!or_ind.is_rec);
    let rec = as_rec(&env, &nm2("Or", "rec"));
    assert!(rec.val.level_params.is_empty(), "Or.rec small-eliminates");
    assert!(rec.num_minors == n(2));
    assert!(rec.num_motives == n(1));
    assert!(!rec.k);
}

#[test]
fn admits_mutual_pair() {
    let a_mk = pi("b", cst("B"), cst("A"));
    let b_mk = pi("a", cst("A"), cst("B"));
    let mut env = Environment::new();
    env.add_decl(decl(
        vec![],
        0,
        vec![
            ind("A", type1(), vec![(nm2("A", "mk"), a_mk)]),
            ind("B", type1(), vec![(nm2("B", "mk"), b_mk)]),
        ],
    ))
    .expect("mutual A/B admits");
    let a = as_induct(&env, &nm("A"));
    let b = as_induct(&env, &nm("B"));
    assert_eq!(names(&a.all), vec!["A", "B"]);
    assert_eq!(names(&b.all), vec!["A", "B"]);
    assert!(a.is_rec && b.is_rec, "mutual block is recursive");
    let a_rec = as_rec(&env, &nm2("A", "rec"));
    let b_rec = as_rec(&env, &nm2("B", "rec"));
    assert!(a_rec.num_motives == n(2));
    assert!(b_rec.num_motives == n(2));
    assert!(a_rec.num_minors == n(2));
    assert!(b_rec.num_minors == n(2));
    assert_eq!(names(&a_rec.all), vec!["A", "B"]);
}

#[test]
fn rejects_positivity_violation() {
    let t_to_t = pi("x", cst("T"), cst("T"));
    let field = pi("h", t_to_t, cst("T"));
    let mk_ty = pi("f", field, cst("T"));
    let mut env = Environment::new();
    let err = env
        .add_decl(decl(vec![], 0, vec![ind("T", type1(), vec![(nm2("T", "mk"), mk_ty)])]))
        .unwrap_err();
    assert_eq!(inductive_error(err), "positivity");
    assert_eq!(env.len(), 0);
}

#[test]
fn rejects_wrong_codomain() {
    let mut env = Environment::new();
    let err = env
        .add_decl(decl(vec![], 0, vec![ind("T", type1(), vec![(nm2("T", "mk"), sort_n(1))])]))
        .unwrap_err();
    assert_eq!(inductive_error(err), "invalid return type");
}

#[test]
fn rejects_universe_too_small() {
    let mk_ty = pi("α", sort_n(2), cst("T"));
    let mut env = Environment::new();
    let err = env
        .add_decl(decl(vec![], 0, vec![ind("T", type1(), vec![(nm2("T", "mk"), mk_ty)])]))
        .unwrap_err();
    assert_eq!(inductive_error(err), "universe too small");
}

#[test]
fn rejects_param_mismatch_across_block() {
    let a_ty = pi("α", type1(), type1());
    let b_ty = pi("α", sort0(), type1());
    let a_mk = pi("α", type1(), app(cst("A"), bvar(0)));
    let b_mk = pi("α", sort0(), app(cst("B"), bvar(0)));
    let mut env = Environment::new();
    let err = env
        .add_decl(decl(
            vec![],
            1,
            vec![
                ind("A", a_ty, vec![(nm2("A", "mk"), a_mk)]),
                ind("B", b_ty, vec![(nm2("B", "mk"), b_mk)]),
            ],
        ))
        .unwrap_err();
    assert_eq!(inductive_error(err), "parameters must match");
    assert_eq!(env.len(), 0, "rollback: nothing admitted");
}

#[test]
fn rejects_empty_inductive_block() {
    let mut env = Environment::from_modules(vec![vec![axiom_info("marker", sort_n(1))]]).unwrap();
    let before = env.len();
    let err = env.add_decl(decl(vec![], 0, vec![])).unwrap_err();
    match err {
        KernelError::InvalidInductive { name, what } => {
            assert_eq!(what, "empty inductive block");
            assert!(matches!(name.as_ref(), Name::Anonymous));
        }
        other => panic!("expected empty-inductive-block error, got {:?}", other),
    }
    assert_eq!(env.len(), before, "environment unchanged on rejection");
    assert!(env.get(&nm("marker")).is_some());
}

#[test]
fn iota_now_reduces_declared_recursor() {
    let mut env = Environment::new();
    env.add_decl(nat_decl()).expect("Nat admits");
    env.add_decl(axiom_decl("z", nat_ty())).unwrap();
    env.add_decl(axiom_decl("s", pi("n", nat_ty(), pi("ih", nat_ty(), nat_ty())))).unwrap();
    env.add_decl(axiom_decl("k", nat_ty())).unwrap();

    let motive = lam("x", nat_ty(), nat_ty());
    let natrec = cstn(nm2("Nat", "rec"), vec![one()]);
    let succ_k = app(cst_nat("succ"), cst("k"));
    let major = appn(natrec, vec![motive, cst("z"), cst("s"), succ_k]);

    let mut tc = TypeChecker::new(&env);
    let reduced = tc.whnf(&major).expect("iota reduces");
    assert_eq!(head_const_name(&reduced).as_deref(), Some("s"), "reduced head is the succ minor `s`");
    assert_eq!(Expr::get_app_num_args(&reduced), 2);
}

#[test]
fn admits_nested_via_list() {
    let mut env = with_list();
    let before = env.len();
    env.add_decl(tree_decl()).expect("Tree admits via nesting");
    // Tree, Tree.node, Tree.rec and Tree.rec_1: no auxiliary constant stays.
    assert_eq!(env.len(), before + 4);

    let tree = as_induct(&env, &nm("Tree"));
    assert!(tree.num_nested == n(1), "one aux nested type (List)");
    assert_eq!(names(&tree.all), vec!["Tree"], "all restored to the real block");
    assert_eq!(names(&tree.ctors), vec!["Tree.node"]);
    assert!(tree.is_rec, "Tree is recursive");

    let node = as_ctor(&env, &nm2("Tree", "node"));
    assert!(node.num_params == n(0));
    assert!(node.num_fields == n(1));
    let expected_node_ty = pi("a", list0(cst("Tree")), cst("Tree"));
    assert!(alpha(&node.val.ty, &expected_node_ty), "Tree.node type restored to `List.{{0}} Tree → Tree`");

    let rec = as_rec(&env, &nm2("Tree", "rec"));
    assert!(rec.num_motives == n(2), "motive for Tree + aux List");
    assert!(rec.num_minors == n(3), "node + nil + cons minors");
    assert!(rec.num_params == n(0));
    assert!(rec.num_indices == n(0));
    assert_eq!(names(&rec.all), vec!["Tree"], "recursor all = real block");
    assert_eq!(names(&rec.val.level_params), vec!["u"]);
    assert_eq!(rec.rules.len(), 1);
    assert_eq!(rec.rules[0].ctor.to_string(), "Tree.node");
    assert!(rec.rules[0].nfields == n(1));

    let rec1 = as_rec(&env, &nm2("Tree", "rec_1"));
    assert!(rec1.num_motives == n(2));
    assert_eq!(names(&rec1.all), vec!["Tree"]);
    assert_eq!(rec1.rules.len(), 2);
    assert_eq!(rec1.rules[0].ctor.to_string(), "List.nil");
    assert!(rec1.rules[0].nfields == n(0));
    assert_eq!(rec1.rules[1].ctor.to_string(), "List.cons");
    assert!(rec1.rules[1].nfields == n(2));
}

#[test]
fn nested_iota_reduces() {
    let mut env = with_list();
    env.add_decl(tree_decl()).expect("Tree admits");
    for (name, ty) in [
        ("m1", type1()),
        ("m2", type1()),
        ("node_min", type1()),
        ("nil_min", type1()),
        ("cons_min", type1()),
    ] {
        env.add_decl(axiom_decl(name, ty)).unwrap();
    }
    env.add_decl(axiom_decl("lst", list0(cst("Tree")))).unwrap();

    let tree_rec = cstn(nm2("Tree", "rec"), vec![one()]);
    let node_app = app(cstn(nm2("Tree", "node"), vec![]), cst("lst"));
    let major = appn(
        tree_rec,
        vec![cst("m1"), cst("m2"), cst("node_min"), cst("nil_min"), cst("cons_min"), node_app],
    );
    let mut tc = TypeChecker::new(&env);
    let reduced = tc.whnf(&major).expect("nested iota reduces");
    assert_eq!(head_const_name(&reduced).as_deref(), Some("node_min"), "reduced head is the node minor");
    assert_eq!(Expr::get_app_num_args(&reduced), 2);
}

#[test]
fn rejects_nested_positivity_violation() {
    let mut env = with_list();
    let before = env.len();
    let t_to_t = pi("x", cst("T"), cst("T"));
    let mk_ty = pi("a", list0(t_to_t), cst("T"));
    let err = env
        .add_decl(decl(vec![], 0, vec![ind("T", type1(), vec![(nm2("T", "mk"), mk_ty)])]))
        .unwrap_err();
    assert_eq!(inductive_error(err), "positivity");
    assert_eq!(env.len(), before, "rollback: nothing admitted, no aux leak possible");
}

#[test]
fn stdlib_shape_smoke() {
    let mut env = with_list();
    env.add_decl(array_decl()).expect("Array admits");
    let before = env.len();

    let array0_stx = app(cstn(nm("Array"), vec![zero()]), cst("Stx"));
    let node_ty = pi("a", array0_stx, cst("Stx"));
    env.add_decl(decl(
        vec![],
        0,
        vec![ind("Stx", type1(), vec![(nm2("Stx", "node"), node_ty), (nm2("Stx", "leaf"), cst("Stx"))])],
    ))
    .expect("Stx admits via double nesting (Array + List)");
    // Stx, two constructors, and three recursors.
    assert_eq!(env.len(), before + 6);

    let stx = as_induct(&env, &nm("Stx"));
    assert!(stx.num_nested == n(2));
    assert_eq!(names(&stx.all), vec!["Stx"]);
    assert_eq!(names(&stx.ctors), vec!["Stx.node", "Stx.leaf"]);
    let rec = as_rec(&env, &nm2("Stx", "rec"));
    assert!(rec.num_motives == n(3), "Stx + Array-aux + List-aux");
    assert!(rec.num_minors == n(5), "node+leaf + mk + nil+cons");
    assert_eq!(names(&rec.all), vec!["Stx"]);
    as_rec(&env, &nm2("Stx", "rec_1"));
    as_rec(&env, &nm2("Stx", "rec_2"));
}

#[test]
fn admitted_inductive_has_no_scratch_ids() {
    let foo_mk = cstn(nm("Foo"), vec![]);
    let mut env = Environment::new();
    env.add_decl(decl(vec![], 0, vec![ind("Foo", type1(), vec![(nm2("Foo", "mk"), foo_mk)])]))
        .expect("Foo admits");
    let foo = as_induct(&env, &nm("Foo"));
    assert_eq!(names(&foo.ctors), vec!["Foo.mk"]);
    let mk = as_ctor(&env, &nm2("Foo", "mk"));
    assert!(alpha(&mk.val.ty, &cst("Foo")));
    assert_eq!(mk.induct.to_string(), "Foo");
    as_rec(&env, &nm2("Foo", "rec"));
}

#[test]
fn failed_admission_of_a_block_leaves_quot_flag_and_constants() {
    let mut env = with_list();
    let before = env.len();
    let err = env.add_decl(decl(vec![], 0, vec![ind("T", type1(), vec![(nm2("T", "mk"), sort_n(1))])]));
    assert!(err.is_err());
    assert_eq!(env.len(), before);
    assert!(!env.quot_initialized());
    assert!(env.get(&nm("T")).is_none());
    assert!(env.get(&nm2("List", "nil")).is_some());
}
