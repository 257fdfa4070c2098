//! Arbitrary-precision naturals and integers for kernel literals.
//!
//! A `Nat` holds its value as little-endian base-2^32 digits with no
//! trailing zero digit; every arithmetic operation is computed by
//! `num_bigint` on those digits (through the small trusted wrappers at the
//! end of this file) and is total: `sub` truncates at zero, `div`/`modulo`
//! follow Lean's `x / 0 = 0` and `x % 0 = x`.
use num_bigint::BigUint;
use vstd::arithmetic::power::pow;
use vstd::arithmetic::power2::pow2;
use vstd::prelude::*;

verus! {

/// The base of one digit.
pub open spec fn digit_base() -> nat {
    0x1_0000_0000
}

/// The value of little-endian base-2^32 digits.
pub open spec fn digits_value(d: Seq<u32>) -> nat
    decreases d.len(),
{
    if d.len() == 0 {
        0
    } else {
        d[0] as nat + digit_base() * digits_value(d.drop_first())
    }
}

/// No trailing (most significant) zero digit: the canonical digit form.
pub open spec fn digits_normalized(d: Seq<u32>) -> bool {
    d.len() == 0 || d.last() != 0
}

/// Bitwise AND of two naturals, bit by bit from the least significant.
pub open spec fn nat_and(a: nat, b: nat) -> nat
    decreases a,
{
    if a == 0 || b == 0 {
        0
    } else {
        2 * nat_and(a / 2, b / 2) + (if a % 2 == 1 && b % 2 == 1 { 1nat } else { 0nat })
    }
}

/// Bitwise OR of two naturals.
pub open spec fn nat_or(a: nat, b: nat) -> nat
    decreases a + b,
{
    if a == 0 {
        b
    } else if b == 0 {
        a
    } else {
        2 * nat_or(a / 2, b / 2) + (if a % 2 == 1 || b % 2 == 1 { 1nat } else { 0nat })
    }
}

/// Bitwise XOR of two naturals.
pub open spec fn nat_xor(a: nat, b: nat) -> nat
    decreases a + b,
{
    if a == 0 {
        b
    } else if b == 0 {
        a
    } else {
        2 * nat_xor(a / 2, b / 2) + (if a % 2 != b % 2 { 1nat } else { 0nat })
    }
}

/// Greatest common divisor by Euclid's algorithm (`gcd(a, 0) = a`).
pub open spec fn nat_gcd(a: nat, b: nat) -> nat
    decreases b,
{
    if b == 0 {
        a
    } else {
        nat_gcd(b, a % b)
    }
}

/// The ASCII digit character of `d < 10`.
pub open spec fn decimal_digit(d: nat) -> char {
    if d == 0 {
        '0'
    } else if d == 1 {
        '1'
    } else if d == 2 {
        '2'
    } else if d == 3 {
        '3'
    } else if d == 4 {
        '4'
    } else if d == 5 {
        '5'
    } else if d == 6 {
        '6'
    } else if d == 7 {
        '7'
    } else if d == 8 {
        '8'
    } else {
        '9'
    }
}

/// The decimal rendering of a natural, without leading zeros (`0` is "0").
pub open spec fn nat_decimal(n: nat) -> Seq<char>
    decreases n,
{
    if n < 10 {
        seq![decimal_digit(n)]
    } else {
        nat_decimal(n / 10).push(decimal_digit(n % 10))
    }
}

/// Lean `Nat`: arbitrary precision by language semantics.
#[derive(Debug)]
pub struct Nat {
    digits: Vec<u32>,
}

impl View for Nat {
    type V = nat;

    closed spec fn view(&self) -> nat {
        digits_value(self.digits@)
    }
}

impl Nat {
    #[verifier::type_invariant]
    closed spec fn digits_canonical(self) -> bool {
        digits_normalized(self.digits@)
    }

    fn from_digits(digits: Vec<u32>) -> (r: Nat)
        requires
            digits_normalized(digits@),
        ensures
            r@ == digits_value(digits@),
    {
        Nat { digits }
    }

    /// The natural `v`.
    pub fn from_u64(v: u64) -> (r: Nat)
        ensures
            r@ == v,
    {
        let lo = (v % 0x1_0000_0000) as u32;
        let hi = (v / 0x1_0000_0000) as u32;
        let mut d: Vec<u32> = Vec::new();
        if v != 0 {
            d.push(lo);
            if hi != 0 {
                d.push(hi);
            }
        }
        proof {
            reveal_with_fuel(digits_value, 3);
            if v != 0 && hi != 0 {
                assert(d@.drop_first().drop_first() =~= Seq::<u32>::empty());
                assert(d@.drop_first() =~= seq![hi]);
            } else if v != 0 {
                assert(d@.drop_first() =~= Seq::<u32>::empty());
            }
        }
        Nat::from_digits(d)
    }

    /// `true` iff this is `0`.
    pub fn is_zero(&self) -> (r: bool)
        ensures
            r == (self@ == 0),
    {
        proof {
            use_type_invariant(self);
            lemma_normalized_zero(self.digits@);
        }
        self.digits.len() == 0
    }

    /// This value as a machine `usize`, or `None` if it does not fit. Never
    /// truncates.
    pub fn to_usize(&self) -> (r: Option<usize>)
        ensures
            r == (if self@ <= usize::MAX { Some(self@ as usize) } else { None::<usize> }),
    {
        proof {
            use_type_invariant(self);
        }
        let n = self.digits.len();
        if n > 2 {
            proof {
                lemma_long_digits_large(self.digits@);
            }
            return None;
        }
        proof {
            reveal_with_fuel(digits_value, 3);
            if n == 2 {
                assert(self.digits@.drop_first().drop_first() =~= Seq::<u32>::empty());
            } else if n == 1 {
                assert(self.digits@.drop_first() =~= Seq::<u32>::empty());
            }
        }
        let lo: u64 = if n >= 1 { self.digits[0] as u64 } else { 0 };
        let hi: u64 = if n == 2 { self.digits[1] as u64 } else { 0 };
        proof {
            assert(hi * 0x1_0000_0000 + lo <= u64::MAX) by (nonlinear_arith)
                requires hi < 0x1_0000_0000, lo < 0x1_0000_0000;
        }
        let v: u64 = hi * 0x1_0000_0000 + lo;
        if v <= usize::MAX as u64 {
            Some(v as usize)
        } else {
            None
        }
    }

    /// The low 64 bits of this value (the hashing helpers' lossy index).
    pub fn low_u64(&self) -> (r: u64)
        ensures
            r == self@ % 0x1_0000_0000_0000_0000,
    {
        proof {
            use_type_invariant(self);
            lemma_low_digits(self.digits@);
        }
        let n = self.digits.len();
        let lo: u64 = if n >= 1 { self.digits[0] as u64 } else { 0 };
        let hi: u64 = if n >= 2 { self.digits[1] as u64 } else { 0 };
        proof {
            assert(hi * 0x1_0000_0000 + lo <= u64::MAX) by (nonlinear_arith)
                requires hi < 0x1_0000_0000, lo < 0x1_0000_0000;
        }
        hi * 0x1_0000_0000 + lo
    }

    /// Addition.
    pub fn add(&self, other: &Nat) -> (r: Nat)
        ensures
            r@ == self@ + other@,
    {
        Nat::from_digits(big_add(self.digits.as_slice(), other.digits.as_slice()))
    }

    /// Truncated subtraction: `a - b = 0` when `a < b`.
    pub fn sub(&self, other: &Nat) -> (r: Nat)
        ensures
            r@ == (if self@ >= other@ { (self@ - other@) as nat } else { 0nat }),
    {
        if big_le(other.digits.as_slice(), self.digits.as_slice()) {
            Nat::from_digits(big_sub(self.digits.as_slice(), other.digits.as_slice()))
        } else {
            Nat::from_u64(0)
        }
    }

    /// Multiplication.
    pub fn mul(&self, other: &Nat) -> (r: Nat)
        ensures
            r@ == self@ * other@,
    {
        Nat::from_digits(big_mul(self.digits.as_slice(), other.digits.as_slice()))
    }

    /// Division with Lean's `x / 0 = 0`.
    pub fn div(&self, other: &Nat) -> (r: Nat)
        ensures
            r@ == (if other@ == 0 { 0nat } else { self@ / other@ }),
    {
        if other.is_zero() {
            Nat::from_u64(0)
        } else {
            Nat::from_digits(big_div(self.digits.as_slice(), other.digits.as_slice()))
        }
    }

    /// Remainder with Lean's `x % 0 = x`.
    pub fn modulo(&self, other: &Nat) -> (r: Nat)
        ensures
            r@ == (if other@ == 0 { self@ } else { self@ % other@ }),
    {
        if other.is_zero() {
            self.clone()
        } else {
            Nat::from_digits(big_rem(self.digits.as_slice(), other.digits.as_slice()))
        }
    }

    /// Greatest common divisor by Euclid's algorithm (`gcd(a, 0) = a`).
    pub fn gcd(&self, other: &Nat) -> (r: Nat)
        ensures
            r@ == nat_gcd(self@, other@),
    {
        let mut a = self.clone();
        let mut b = other.clone();
        while !b.is_zero()
            invariant
                nat_gcd(a@, b@) == nat_gcd(self@, other@),
            decreases b@,
        {
            let r = a.modulo(&b);
            a = b;
            b = r;
        }
        a
    }

    /// `self ^ exp`.
    pub fn pow(&self, exp: u32) -> (r: Nat)
        ensures
            r@ == pow(self@ as int, exp as nat),
    {
        Nat::from_digits(big_pow(self.digits.as_slice(), exp))
    }

    /// Equality of values (`Nat.beq`).
    pub fn beq(&self, other: &Nat) -> (r: bool)
        ensures
            r == (self@ == other@),
    {
        big_eq(self.digits.as_slice(), other.digits.as_slice())
    }

    /// `self <= other` (`Nat.ble`).
    pub fn ble(&self, other: &Nat) -> (r: bool)
        ensures
            r == (self@ <= other@),
    {
        big_le(self.digits.as_slice(), other.digits.as_slice())
    }

    /// Bitwise AND.
    pub fn land(&self, other: &Nat) -> (r: Nat)
        ensures
            r@ == nat_and(self@, other@),
    {
        Nat::from_digits(big_and(self.digits.as_slice(), other.digits.as_slice()))
    }

    /// Bitwise OR.
    pub fn lor(&self, other: &Nat) -> (r: Nat)
        ensures
            r@ == nat_or(self@, other@),
    {
        Nat::from_digits(big_or(self.digits.as_slice(), other.digits.as_slice()))
    }

    /// Bitwise XOR.
    pub fn lxor(&self, other: &Nat) -> (r: Nat)
        ensures
            r@ == nat_xor(self@, other@),
    {
        Nat::from_digits(big_xor(self.digits.as_slice(), other.digits.as_slice()))
    }

    /// Left shift: `self * 2^shift`.
    pub fn shiftl(&self, shift: usize) -> (r: Nat)
        ensures
            r@ == self@ * pow2(shift as nat),
    {
        Nat::from_digits(big_shl(self.digits.as_slice(), shift))
    }

    /// Right shift: `self / 2^shift`; a shift wider than the value gives `0`.
    pub fn shiftr(&self, shift: usize) -> (r: Nat)
        ensures
            r@ == self@ / pow2(shift as nat),
    {
        Nat::from_digits(big_shr(self.digits.as_slice(), shift))
    }

    /// The decimal rendering (what `Display` prints).
    pub fn to_string(&self) -> (r: String)
        ensures
            r@ == nat_decimal(self@),
    {
        big_to_decimal(self.digits.as_slice())
    }
}

impl Clone for Nat {
    fn clone(&self) -> (r: Nat)
        ensures
            r@ == self@,
    {
        proof {
            use_type_invariant(self);
        }
        let d = self.digits.clone();
        proof {
            assert(d@ =~= self.digits@);
        }
        Nat { digits: d }
    }
}

impl PartialEq for Nat {
    fn eq(&self, other: &Nat) -> (r: bool) {
        self.beq(other)
    }
}

impl Eq for Nat {

}

impl vstd::std_specs::cmp::PartialEqSpecImpl for Nat {
    open spec fn obeys_eq_spec() -> bool {
        true
    }

    open spec fn eq_spec(&self, other: &Nat) -> bool {
        self@ == other@
    }
}

/// Lean `Int`: a sign and a magnitude, with no negative zero.
#[derive(Debug)]
pub struct Int {
    negative: bool,
    magnitude: Nat,
}

impl View for Int {
    type V = int;

    closed spec fn view(&self) -> int {
        if self.negative {
            -(self.magnitude@ as int)
        } else {
            self.magnitude@ as int
        }
    }
}

impl Int {
    /// `-magnitude` when `negative`, else `magnitude`.
    pub fn new(negative: bool, magnitude: Nat) -> (r: Int)
        ensures
            r@ == (if negative { -(magnitude@ as int) } else { magnitude@ as int }),
    {
        let neg = negative && !magnitude.is_zero();
        Int { negative: neg, magnitude }
    }

    /// `true` iff this is below zero.
    pub fn is_negative(&self) -> (r: bool)
        ensures
            r == (self@ < 0),
    {
        self.negative && !self.magnitude.is_zero()
    }

    /// The absolute value.
    pub fn magnitude(&self) -> (r: Nat)
        ensures
            r@ as int == (if self@ < 0 { -self@ } else { self@ }),
    {
        self.magnitude.clone()
    }

    /// Equality of values.
    pub fn eq_int(&self, other: &Int) -> (r: bool)
        ensures
            r == (self@ == other@),
    {
        let a = self.is_negative();
        let b = other.is_negative();
        a == b && self.magnitude.beq(&other.magnitude)
    }

    /// The decimal rendering, with a leading `-` below zero.
    pub fn to_string(&self) -> (r: String)
        ensures
            r@ == (if self@ < 0 { seq!['-'] + nat_decimal((-self@) as nat) } else { nat_decimal(
                self@ as nat,
            ) }),
    {
        let digits = self.magnitude.to_string();
        if self.is_negative() {
            let mut s = String::new();
            s.append("-");
            proof {
                reveal_strlit("-");
            }
            s.append(digits.as_str());
            s
        } else {
            digits
        }
    }
}

impl Clone for Int {
    fn clone(&self) -> (r: Int)
        ensures
            r@ == self@,
    {
        Int { negative: self.negative, magnitude: self.magnitude.clone() }
    }
}

// ---------------------------------------------------------------------
// Lemmas about the digit representation.
// ---------------------------------------------------------------------

proof fn lemma_normalized_zero(d: Seq<u32>)
    requires
        digits_normalized(d),
    ensures
        (digits_value(d) == 0) == (d.len() == 0),
    decreases d.len(),
{
    if d.len() > 0 {
        if d.len() == 1 {
            assert(d.drop_first() =~= Seq::<u32>::empty());
            assert(d[0] == d.last());
        } else {
            assert(d.drop_first().last() == d.last());
            lemma_normalized_zero(d.drop_first());
            assert(digits_value(d.drop_first()) > 0);
            assert(digit_base() * digits_value(d.drop_first()) > 0) by (nonlinear_arith)
                requires digits_value(d.drop_first()) > 0;
        }
    }
}

proof fn lemma_value_at_least_one(d: Seq<u32>)
    requires
        digits_normalized(d),
        d.len() > 0,
    ensures
        digits_value(d) >= 1,
{
    lemma_normalized_zero(d);
}

proof fn lemma_long_digits_large(d: Seq<u32>)
    requires
        digits_normalized(d),
        d.len() > 2,
    ensures
        digits_value(d) > u64::MAX,
        digits_value(d) > usize::MAX,
{
    let t = d.drop_first().drop_first();
    assert(t.len() > 0 && t.last() == d.last());
    lemma_value_at_least_one(t);
    reveal_with_fuel(digits_value, 3);
    let v1 = digits_value(d.drop_first());
    assert(v1 >= digit_base()) by (nonlinear_arith)
        requires v1 == d.drop_first()[0] as nat + digit_base() * digits_value(t), digits_value(t) >= 1;
    assert(digits_value(d) >= digit_base() * digit_base()) by (nonlinear_arith)
        requires digits_value(d) == d[0] as nat + digit_base() * v1, v1 >= digit_base();
}

proof fn lemma_low_digits(d: Seq<u32>)
    ensures
        digits_value(d) % 0x1_0000_0000_0000_0000 == (if d.len() >= 2 {
            d[1] as nat * 0x1_0000_0000 + d[0] as nat
        } else if d.len() == 1 {
            d[0] as nat
        } else {
            0nat
        }),
{
    reveal_with_fuel(digits_value, 3);
    if d.len() >= 2 {
        let t = d.drop_first().drop_first();
        let rest = digits_value(t);
        let d0 = d[0] as nat;
        let d1 = d[1] as nat;
        assert(d.drop_first()[0] == d[1]);
        assert(digits_value(d) == d0 + 0x1_0000_0000 * (d1 + 0x1_0000_0000 * rest));
        assert((d0 + 0x1_0000_0000 * (d1 + 0x1_0000_0000 * rest)) % 0x1_0000_0000_0000_0000 == d1
            * 0x1_0000_0000 + d0) by (nonlinear_arith)
            requires d0 < 0x1_0000_0000, d1 < 0x1_0000_0000;
    } else if d.len() == 1 {
        assert(d.drop_first() =~= Seq::<u32>::empty());
    }
}

// ---------------------------------------------------------------------
// Trusted wrappers: each computes one `num_bigint::BigUint` operation on
// little-endian base-2^32 digit slices (`BigUint::from_slice` in,
// `BigUint::to_u32_digits` out, which yields canonical digits).
// ---------------------------------------------------------------------

/// `BigUint` addition (`Add`): the digits of `a + b`.
#[verifier::external_body]
fn big_add(a: &[u32], b: &[u32]) -> (r: Vec<u32>)
    ensures
        digits_value(r@) == digits_value(a@) + digits_value(b@),
        digits_normalized(r@),
{
    (BigUint::from_slice(a) + BigUint::from_slice(b)).to_u32_digits()
}

/// `BigUint` subtraction (`Sub`, which panics below zero, hence the
/// `requires`): the digits of `a - b`.
#[verifier::external_body]
fn big_sub(a: &[u32], b: &[u32]) -> (r: Vec<u32>)
    requires
        digits_value(b@) <= digits_value(a@),
    ensures
        digits_value(r@) == digits_value(a@) - digits_value(b@),
        digits_normalized(r@),
{
    (BigUint::from_slice(a) - BigUint::from_slice(b)).to_u32_digits()
}

/// `BigUint` multiplication (`Mul`): the digits of `a * b`.
#[verifier::external_body]
fn big_mul(a: &[u32], b: &[u32]) -> (r: Vec<u32>)
    ensures
        digits_value(r@) == digits_value(a@) * digits_value(b@),
        digits_normalized(r@),
{
    (BigUint::from_slice(a) * BigUint::from_slice(b)).to_u32_digits()
}

/// `BigUint` division (`Div`, which panics on a zero divisor): the digits
/// of `a / b`, rounded down.
#[verifier::external_body]
fn big_div(a: &[u32], b: &[u32]) -> (r: Vec<u32>)
    requires
        digits_value(b@) != 0,
    ensures
        digits_value(r@) == digits_value(a@) / digits_value(b@),
        digits_normalized(r@),
{
    (BigUint::from_slice(a) / BigUint::from_slice(b)).to_u32_digits()
}

/// `BigUint` remainder (`Rem`, which panics on a zero divisor): the digits
/// of `a % b`.
#[verifier::external_body]
fn big_rem(a: &[u32], b: &[u32]) -> (r: Vec<u32>)
    requires
        digits_value(b@) != 0,
    ensures
        digits_value(r@) == digits_value(a@) % digits_value(b@),
        digits_normalized(r@),
{
    (BigUint::from_slice(a) % BigUint::from_slice(b)).to_u32_digits()
}

/// `BigUint::pow`: the digits of `a ^ exp`.
#[verifier::external_body]
fn big_pow(a: &[u32], exp: u32) -> (r: Vec<u32>)
    ensures
        digits_value(r@) == pow(digits_value(a@) as int, exp as nat),
        digits_normalized(r@),
{
    BigUint::from_slice(a).pow(exp).to_u32_digits()
}

/// `BigUint` equality (`PartialEq`): whether `a` and `b` have one value.
#[verifier::external_body]
fn big_eq(a: &[u32], b: &[u32]) -> (r: bool)
    ensures
        r == (digits_value(a@) == digits_value(b@)),
{
    BigUint::from_slice(a) == BigUint::from_slice(b)
}

/// `BigUint` order (`PartialOrd`): whether `a <= b` as values.
#[verifier::external_body]
fn big_le(a: &[u32], b: &[u32]) -> (r: bool)
    ensures
        r == (digits_value(a@) <= digits_value(b@)),
{
    BigUint::from_slice(a) <= BigUint::from_slice(b)
}

/// `BigUint` bitwise AND (`BitAnd`).
#[verifier::external_body]
fn big_and(a: &[u32], b: &[u32]) -> (r: Vec<u32>)
    ensures
        digits_value(r@) == nat_and(digits_value(a@), digits_value(b@)),
        digits_normalized(r@),
{
    (BigUint::from_slice(a) & BigUint::from_slice(b)).to_u32_digits()
}

/// `BigUint` bitwise OR (`BitOr`).
#[verifier::external_body]
fn big_or(a: &[u32], b: &[u32]) -> (r: Vec<u32>)
    ensures
        digits_value(r@) == nat_or(digits_value(a@), digits_value(b@)),
        digits_normalized(r@),
{
    (BigUint::from_slice(a) | BigUint::from_slice(b)).to_u32_digits()
}

/// `BigUint` bitwise XOR (`BitXor`).
#[verifier::external_body]
fn big_xor(a: &[u32], b: &[u32]) -> (r: Vec<u32>)
    ensures
        digits_value(r@) == nat_xor(digits_value(a@), digits_value(b@)),
        digits_normalized(r@),
{
    (BigUint::from_slice(a) ^ BigUint::from_slice(b)).to_u32_digits()
}

/// `BigUint` left shift (`Shl<usize>`): the digits of `a * 2^shift`.
#[verifier::external_body]
fn big_shl(a: &[u32], shift: usize) -> (r: Vec<u32>)
    ensures
        digits_value(r@) == digits_value(a@) * pow2(shift as nat),
        digits_normalized(r@),
{
    (BigUint::from_slice(a) << shift).to_u32_digits()
}

/// `BigUint` right shift (`Shr<usize>`): the digits of `a / 2^shift`.
#[verifier::external_body]
fn big_shr(a: &[u32], shift: usize) -> (r: Vec<u32>)
    ensures
        digits_value(r@) == digits_value(a@) / pow2(shift as nat),
        digits_normalized(r@),
{
    (BigUint::from_slice(a) >> shift).to_u32_digits()
}

/// `BigUint::to_str_radix(10)`: the decimal rendering of `a`.
#[verifier::external_body]
fn big_to_decimal(a: &[u32]) -> (r: String)
    ensures
        r@ == nat_decimal(digits_value(a@)),
{
    BigUint::from_slice(a).to_str_radix(10)
}

} // verus!
