use leanr_kernel::{Name, Nat};
use std::sync::Arc;

fn dotted(parts: &[&str]) -> Arc<Name> {
    let mut n = Name::anonymous();
    for p in parts {
        n = Name::mk_str(n, p);
    }
    n
}

#[test]
fn rendering_joins_components() {
    assert_eq!(dotted(&["Nat", "succ"]).to_string(), "Nat.succ");
    assert_eq!(Name::anonymous().to_string(), "[anonymous]");
    let n = Name::mk_num(dotted(&["_kernel_fresh"]), Nat::from_u64(12));
    assert_eq!(n.to_string(), "_kernel_fresh.12");
}

#[test]
fn equality_is_by_components() {
    let a = dotted(&["A", "b"]);
    let b = dotted(&["A", "b"]);
    assert!(a.equal(&b));
    assert!(!a.equal(&dotted(&["A"])));
    assert!(!a.equal(&dotted(&["A", "c"])));
    let num = Name::mk_num(dotted(&["A"]), Nat::from_u64(0));
    let s0 = dotted(&["A", "0"]);
    assert!(!num.equal(&s0));
    assert!(a == b);
}

#[test]
fn order_is_root_first_numbers_before_strings_prefix_first() {
    assert!(dotted(&["A"]).less(&dotted(&["A", "b"])));
    assert!(!dotted(&["A", "b"]).less(&dotted(&["A"])));
    assert!(dotted(&["A", "b"]).less(&dotted(&["A", "c"])));
    assert!(dotted(&["A", "z"]).less(&dotted(&["B", "a"])));
    let num = Name::mk_num(dotted(&["A"]), Nat::from_u64(7));
    assert!(num.less(&dotted(&["A", "a"])));
    assert!(!dotted(&["A", "a"]).less(&num));
    assert!(!dotted(&["A"]).less(&dotted(&["A"])));
    assert!(Name::anonymous().less(&dotted(&["A"])));
}

#[test]
fn hash_depends_only_on_components() {
    let a = dotted(&["Nat", "succ"]);
    let b = Name::mk_str(Name::mk_str(Name::anonymous(), "Nat"), "succ");
    assert_eq!(a.hash_u64(), b.hash_u64());
    assert_ne!(a.hash_u64(), dotted(&["Nat", "zero"]).hash_u64());
}

#[test]
fn parent_drops_the_last_component() {
    let a = dotted(&["A", "b", "c"]);
    assert_eq!(a.parent().unwrap().to_string(), "A.b");
    assert!(Name::anonymous().parent().is_none());
}

#[test]
fn deep_names_are_walked_without_recursion() {
    let mut n = Name::anonymous();
    for i in 0..200_000u64 {
        n = Name::mk_num(n, Nat::from_u64(i % 3));
    }
    let mut m = Name::anonymous();
    for i in 0..200_000u64 {
        m = Name::mk_num(m, Nat::from_u64(i % 3));
    }
    assert!(n.equal(&m));
    assert_eq!(n.hash_u64(), m.hash_u64());
    assert!(!n.less(&m));
    std::mem::forget(n);
    std::mem::forget(m);
}
