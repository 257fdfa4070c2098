use leanr_kernel::{BinderInfo, Expr, ExprNode, FVarIdGen, Literal, LocalContext, LocalDecl, Name, Nat};
use std::sync::Arc;

fn nm(s: &str) -> Arc<Name> {
    Arc::new(Name::Str { parent: Arc::new(Name::Anonymous), part: s.to_string() })
}
fn lit(i: u64) -> Arc<Expr> {
    Expr::lit(Literal::NatVal(Nat::from_u64(i)))
}
fn fvar_id(e: &Arc<Expr>) -> Arc<Name> {
    let ExprNode::FVar { id } = e.node() else { panic!("expected an FVar node") };
    Arc::clone(id)
}

#[test]
fn fresh_ids_produce_expected_names() {
    let mut gen = FVarIdGen::default();
    let mut lctx = LocalContext::default();
    let fvar0 = lctx.mk_local_decl(&mut gen, Name::anonymous(), lit(0), BinderInfo::Default);
    let fvar1 = lctx.mk_local_decl(&mut gen, Name::anonymous(), lit(0), BinderInfo::Default);
    assert_eq!(fvar_id(&fvar0).to_string(), "_kernel_fresh.0");
    assert_eq!(fvar_id(&fvar1).to_string(), "_kernel_fresh.1");
}

#[test]
fn fresh_ids_never_collide() {
    let mut gen = FVarIdGen::default();
    let mut lctx = LocalContext::default();
    let a = lctx.mk_local_decl(&mut gen, Name::anonymous(), lit(0), BinderInfo::Default);
    let b = lctx.mk_local_decl(&mut gen, Name::anonymous(), lit(0), BinderInfo::Default);
    let (ia, ib) = (fvar_id(&a), fvar_id(&b));
    assert!(!ia.equal(&ib));
    assert!(lctx.get(&ia).is_some() && lctx.get(&ib).is_some());
}

#[test]
fn get_finds_a_pushed_decl_by_id() {
    let mut gen = FVarIdGen::default();
    let mut lctx = LocalContext::default();
    let ty = lit(7);
    let fvar = lctx.mk_local_decl(&mut gen, nm("x"), Arc::clone(&ty), BinderInfo::Implicit);
    let id = fvar_id(&fvar);
    let decl = lctx.get(&id).expect("decl should be found");
    assert!(decl.id.equal(&id));
    assert!(decl.binder_name.equal(&nm("x")));
    assert!(Arc::ptr_eq(&decl.ty, &ty));
    assert_eq!(decl.binder_info, BinderInfo::Implicit);
    assert!(decl.value.is_none());
    // A never-pushed id is absent.
    assert!(lctx.get(&nm("y")).is_none());
}

#[test]
fn mk_local_decl_returns_an_fvar_node_wrapping_the_minted_id() {
    let mut gen = FVarIdGen::default();
    let mut lctx = LocalContext::default();
    let fvar = lctx.mk_local_decl(&mut gen, Name::anonymous(), lit(0), BinderInfo::Default);
    match fvar.node() {
        ExprNode::FVar { id } => {
            let decl = lctx.get(id).unwrap();
            assert!(decl.id.equal(id));
        }
        other => panic!("expected FVar node, got {other:?}"),
    }
}

#[test]
fn mk_let_decl_records_a_value_and_default_binder_info() {
    let mut gen = FVarIdGen::default();
    let mut lctx = LocalContext::default();
    let value = lit(2);
    let fvar = lctx.mk_let_decl(&mut gen, Name::anonymous(), lit(1), Arc::clone(&value));
    let decl = lctx.get(&fvar_id(&fvar)).unwrap();
    assert!(Arc::ptr_eq(decl.value.as_ref().unwrap(), &value));
    assert_eq!(decl.binder_info, BinderInfo::Default);
}

#[test]
fn restore_drops_what_came_after_the_checkpoint() {
    let mut gen = FVarIdGen::default();
    let mut lctx = LocalContext::default();
    let a = lctx.mk_local_decl(&mut gen, nm("a"), lit(0), BinderInfo::Default);
    let mark = lctx.save();
    assert_eq!(mark, 1);
    let b = lctx.mk_local_decl(&mut gen, nm("b"), lit(0), BinderInfo::Default);
    lctx.restore(mark);
    assert!(lctx.get(&fvar_id(&a)).is_some());
    assert!(lctx.get(&fvar_id(&b)).is_none());
    assert_eq!(lctx.save(), 1);
    // the generator is not rewound: the next id is fresh
    assert_eq!(gen.next_index(), 2);
}

#[test]
fn push_returns_the_fvar_of_the_decl_and_the_latest_wins() {
    let mut lctx = LocalContext::default();
    let id = nm("h");
    let d1 = LocalDecl { id: Arc::clone(&id), binder_name: nm("x"), ty: lit(1), binder_info: BinderInfo::Default, value: None };
    let d2 = LocalDecl { id: Arc::clone(&id), binder_name: nm("y"), ty: lit(2), binder_info: BinderInfo::Default, value: None };
    let e = lctx.push(d1);
    assert!(fvar_id(&e).equal(&id));
    lctx.push(d2);
    assert!(lctx.get(&id).unwrap().binder_name.equal(&nm("y")));
}

#[test]
fn restore_uncovers_the_earlier_decl_of_the_same_id() {
    let mut lctx = LocalContext::default();
    let id = nm("h");
    let d1 = LocalDecl { id: Arc::clone(&id), binder_name: nm("x"), ty: lit(1), binder_info: BinderInfo::Default, value: None };
    let d2 = LocalDecl { id: Arc::clone(&id), binder_name: nm("y"), ty: lit(2), binder_info: BinderInfo::Default, value: None };
    lctx.push(d1);
    let mark = lctx.save();
    lctx.push(d2);
    lctx.push(LocalDecl { id: nm("k"), binder_name: nm("z"), ty: lit(3), binder_info: BinderInfo::Default, value: None });
    assert!(lctx.get(&id).unwrap().binder_name.equal(&nm("y")));
    lctx.restore(mark);
    assert!(lctx.get(&id).unwrap().binder_name.equal(&nm("x")));
    assert!(lctx.get(&nm("k")).is_none());
    // A later push at a reused position is found by its own id only.
    lctx.push(LocalDecl { id: nm("m"), binder_name: nm("w"), ty: lit(4), binder_info: BinderInfo::Default, value: None });
    assert!(lctx.get(&nm("m")).unwrap().binder_name.equal(&nm("w")));
    assert!(lctx.get(&id).unwrap().binder_name.equal(&nm("x")));
}
