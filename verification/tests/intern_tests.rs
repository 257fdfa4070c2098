use leanr_kernel::{Interner, Level, Name, RecGuard};
use std::sync::Arc;

fn name(s: &str) -> Arc<Name> {
    Arc::new(Name::Str { parent: Arc::new(Name::Anonymous), part: s.to_string() })
}

#[test]
fn level_merges_structurally_equal_distinct_pointers() {
    let mut it = Interner::new();
    let mut g = RecGuard::new();
    // Two independently built `Succ Zero`s: structurally equal, distinct Arcs.
    let a = Arc::new(Level::Succ(Arc::new(Level::Zero)));
    let b = Arc::new(Level::Succ(Arc::new(Level::Zero)));
    assert!(!Arc::ptr_eq(&a, &b));
    let ca = it.intern_level(&a, &mut g).unwrap();
    let cb = it.intern_level(&b, &mut g).unwrap();
    assert!(Arc::ptr_eq(&ca, &cb), "equal levels must share one canonical Arc");
    assert!(Level::structural_eq(&a, &ca, &mut g).unwrap());
}

#[test]
fn level_distinct_params_not_merged() {
    let mut it = Interner::new();
    let mut g = RecGuard::new();
    let a = Arc::new(Level::Param(name("u")));
    let b = Arc::new(Level::Param(name("v")));
    let ca = it.intern_level(&a, &mut g).unwrap();
    let cb = it.intern_level(&b, &mut g).unwrap();
    assert!(!Arc::ptr_eq(&ca, &cb));
}

#[test]
fn level_idempotent() {
    let mut it = Interner::new();
    let mut g = RecGuard::new();
    let a = Arc::new(Level::Succ(Arc::new(Level::Zero)));
    let ca = it.intern_level(&a, &mut g).unwrap();
    let cca = it.intern_level(&ca, &mut g).unwrap();
    assert!(Arc::ptr_eq(&ca, &cca), "interning a canonical level is a no-op");
}

#[test]
fn interned_children_are_shared_across_parents() {
    let mut it = Interner::new();
    let mut g = RecGuard::new();
    let u1 = Arc::new(Level::Param(name("u")));
    let u2 = Arc::new(Level::Param(name("u")));
    let m1 = Arc::new(Level::Max(Arc::clone(&u1), Arc::new(Level::Zero)));
    let m2 = Arc::new(Level::IMax(Arc::clone(&u2), Arc::new(Level::Zero)));
    let c1 = it.intern_level(&m1, &mut g).unwrap();
    let c2 = it.intern_level(&m2, &mut g).unwrap();
    let (Level::Max(a, _), Level::IMax(b, _)) = (&*c1, &*c2) else { panic!() };
    assert!(Arc::ptr_eq(a, b));
    // the outer levels differ and so stay distinct
    assert!(!Arc::ptr_eq(&c1, &c2));
    assert!(Level::structural_eq(&c2, &m2, &mut g).unwrap());
}
