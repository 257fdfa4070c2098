use leanr_kernel::{Int, Nat};

fn n(v: u64) -> Nat {
    Nat::from_u64(v)
}
/// 2^64 + 5, a value past one machine word.
fn big() -> Nat {
    n(u64::MAX).add(&n(6))
}

#[test]
fn arithmetic_is_exact_past_a_machine_word() {
    assert_eq!(big().to_string(), "18446744073709551621");
    assert_eq!(big().mul(&big()).to_string(), "340282366920938463647842048168863727641");
    assert_eq!(big().sub(&n(6)).to_string(), "18446744073709551615");
    assert_eq!(big().div(&n(2)).to_string(), "9223372036854775810");
    assert_eq!(big().modulo(&n(10)).to_string(), "1");
    assert_eq!(n(2).pow(100).to_string(), "1267650600228229401496703205376");
}

#[test]
fn subtraction_truncates_and_division_by_zero_is_lean_style() {
    assert!(n(3).sub(&n(5)).is_zero());
    assert!(n(7).div(&n(0)).is_zero());
    assert!(n(7).modulo(&n(0)).beq(&n(7)));
    assert!(n(0).to_string() == "0");
}

#[test]
fn comparisons_and_gcd() {
    assert!(n(3).ble(&n(3)));
    assert!(n(3).ble(&big()));
    assert!(!big().ble(&n(3)));
    assert!(big().beq(&n(u64::MAX).add(&n(6))));
    assert!(!big().beq(&n(5)));
    assert!(n(48).gcd(&n(18)).beq(&n(6)));
    assert!(n(5).gcd(&n(0)).beq(&n(5)));
    assert!(n(0).gcd(&n(9)).beq(&n(9)));
}

#[test]
fn bitwise_operations() {
    assert!(n(0b1100).land(&n(0b1010)).beq(&n(0b1000)));
    assert!(n(0b1100).lor(&n(0b1010)).beq(&n(0b1110)));
    assert!(n(0b1100).lxor(&n(0b1010)).beq(&n(0b0110)));
    assert_eq!(n(1).shiftl(70).to_string(), "1180591620717411303424");
    assert!(n(1).shiftl(70).shiftr(70).beq(&n(1)));
    assert!(n(5).shiftr(200).is_zero());
}

#[test]
fn machine_conversions_never_truncate() {
    assert_eq!(n(42).to_usize(), Some(42));
    assert_eq!(big().to_usize(), None);
    assert_eq!(big().low_u64(), 5);
    assert_eq!(n(42).low_u64(), 42);
}

#[test]
fn equality_goes_by_value() {
    assert!(n(9) == n(9));
    assert!(n(9) != n(10));
    assert!(n(9).clone() == n(9));
}

#[test]
fn int_sign_and_rendering() {
    let m = Int::new(true, n(12));
    assert!(m.is_negative());
    assert_eq!(m.to_string(), "-12");
    assert!(m.magnitude().beq(&n(12)));
    // no negative zero
    let z = Int::new(true, n(0));
    assert!(!z.is_negative());
    assert_eq!(z.to_string(), "0");
    assert!(z.eq_int(&Int::new(false, n(0))));
    assert!(!m.eq_int(&Int::new(false, n(12))));
    assert!(m.clone().eq_int(&m));
}
