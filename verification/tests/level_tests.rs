use leanr_kernel::{KernelError, Level, Name, RecGuard};
use std::sync::Arc;

fn nm(s: &str) -> Arc<Name> {
    Arc::new(Name::Str { parent: Arc::new(Name::Anonymous), part: s.to_string() })
}
fn p(s: &str) -> Arc<Level> {
    Arc::new(Level::Param(nm(s)))
}
fn z() -> Arc<Level> {
    Arc::new(Level::Zero)
}
fn s(l: Arc<Level>) -> Arc<Level> {
    Level::mk_succ(l)
}
fn max(a: Arc<Level>, b: Arc<Level>) -> Arc<Level> {
    Arc::new(Level::Max(a, b))
}
fn imax(a: Arc<Level>, b: Arc<Level>) -> Arc<Level> {
    Arc::new(Level::IMax(a, b))
}
fn equiv(a: &Arc<Level>, b: &Arc<Level>) -> bool {
    Level::is_equivalent(a, b, &mut RecGuard::new()).unwrap()
}

#[test]
fn equivalence_table() {
    // max is commutative/idempotent up to normalization
    assert!(equiv(&max(p("u"), p("v")), &max(p("v"), p("u"))));
    assert!(equiv(&max(p("u"), p("u")), &p("u")));
    // succ distributes over max under normalization
    assert!(equiv(&s(max(p("u"), p("v"))), &max(s(p("u")), s(p("v")))));
    // imax with succ rhs is max (rhs never zero)
    assert!(equiv(&imax(p("u"), s(p("v"))), &max(p("u"), s(p("v")))));
    // imax u 0 = 0
    assert!(equiv(&imax(p("u"), z()), &z()));
    // imax 0 u = u
    assert!(equiv(&imax(z(), p("u")), &p("u")));
    // distinct params are NOT equivalent
    assert!(!equiv(&p("u"), &p("v")));
    assert!(!equiv(&s(p("u")), &p("u")));
}

#[test]
fn structural_eq_and_hash_agree() {
    let mut g = RecGuard::new();
    let a = max(s(p("u")), imax(p("v"), z()));
    let b = max(s(p("u")), imax(p("v"), z()));
    assert!(Level::structural_eq(&a, &b, &mut g).unwrap());
    assert_eq!(Level::hash_val(&a, &mut g).unwrap(), Level::hash_val(&b, &mut g).unwrap());
}

#[test]
fn instantiate_params_substitutes() {
    let mut g = RecGuard::new();
    let u = nm("u");
    let l = max(Arc::new(Level::Param(Arc::clone(&u))), z());
    let r = Level::instantiate_params(&l, &[u], &[s(z())], &mut g).unwrap();
    assert!(equiv(&r, &s(z())));
}

#[test]
fn adversarial_depth_errors_not_crashes() {
    let mut l = z();
    for _ in 0..2_000_000 {
        l = s(l);
    }
    // to_offset peels iteratively: depth does not matter
    assert_eq!(Level::to_offset(&l).1, 2_000_000);
    // a 2M-deep alternating tree exceeds the guard in normalize
    let mut t = z();
    for i in 0..2_000_000u64 {
        t = if i % 2 == 0 { s(t) } else { max(t, z()) };
    }
    assert_eq!(Level::normalize(&t, &mut RecGuard::new()).unwrap_err(), KernelError::DeepRecursion);
    // Dropping a tree this deep would recurse once per node.
    std::mem::forget(l);
    std::mem::forget(t);
}

#[test]
fn instantiate_params_preserves_sharing_when_unchanged() {
    let mut g = RecGuard::new();
    let l = max(p("u"), s(p("v")));
    let other = nm("w"); // not present in `l` at all
    let r = Level::instantiate_params(&l, &[other], &[z()], &mut g).unwrap();
    assert!(Arc::ptr_eq(&l, &r));
}

#[test]
fn normalize_preserves_sharing_when_already_normal() {
    let mut g = RecGuard::new();
    let l = p("u");
    let r = Level::normalize(&l, &mut g).unwrap();
    assert!(Arc::ptr_eq(&l, &r));
}

#[test]
fn mk_max_pair_folds_numerals_and_zero() {
    let mut g = RecGuard::new();
    // max 1 2 = 2
    let r = Level::mk_max_pair(s(z()), s(s(z())), &mut g).unwrap();
    assert_eq!(Level::to_offset(&r).1, 2);
    assert!(Level::to_offset(&r).0.is_zero());
    // max 0 u = u
    let u = p("u");
    let r2 = Level::mk_max_pair(z(), Arc::clone(&u), &mut g).unwrap();
    assert!(Level::structural_eq(&r2, &u, &mut g).unwrap());
}

#[test]
fn mk_imax_pair_rules() {
    let mut g = RecGuard::new();
    // imax u 0 = 0
    let r = Level::mk_imax_pair(p("u"), z(), &mut g).unwrap();
    assert!(r.is_zero());
    // imax u (succ v) = max u (succ v)
    let r2 = Level::mk_imax_pair(p("u"), s(p("v")), &mut g).unwrap();
    assert!(matches!(&*r2, Level::Max(_, _)));
}

#[test]
fn never_zero_and_flags() {
    let mut g = RecGuard::new();
    assert!(Level::is_never_zero(&s(p("u")), &mut g).unwrap());
    assert!(!Level::is_never_zero(&imax(s(z()), p("u")), &mut g).unwrap());
    assert!(Level::is_never_zero(&max(p("u"), s(z())), &mut g).unwrap());
    let m = Arc::new(Level::MVar(nm("m")));
    assert!(Level::has_mvar(&max(z(), m), &mut g).unwrap());
    assert!(!Level::has_mvar(&p("u"), &mut g).unwrap());
    assert!(Level::has_param(&s(p("u")), &mut g).unwrap());
    assert!(!Level::has_param(&s(z()), &mut g).unwrap());
}

#[test]
fn normalize_orders_and_dedups_max_arguments() {
    let mut g = RecGuard::new();
    // max (max v u) (max u 1) normalizes to the same level as max 1 (max u v)
    let a = max(max(p("v"), p("u")), max(p("u"), s(z())));
    let b = max(s(z()), max(p("u"), p("v")));
    let na = Level::normalize(&a, &mut g).unwrap();
    let nb = Level::normalize(&b, &mut g).unwrap();
    assert!(Level::structural_eq(&na, &nb, &mut g).unwrap());
}

#[test]
fn instantiate_params_uses_first_matching_pair() {
    let mut g = RecGuard::new();
    let u = nm("u");
    let r = Level::instantiate_params(&p("u"), &[Arc::clone(&u), u], &[s(z()), z()], &mut g).unwrap();
    assert_eq!(Level::to_offset(&r).1, 1);
}
