use ecc::error::EccError;
use ecc::field::FieldElement;

fn fe(num: u64, prime: u64) -> FieldElement {
    FieldElement::new(num, prime).unwrap()
}

#[test]
fn test_new_accepts_range() {
    let a = fe(0, 223);
    assert_eq!(a.num, 0);
    assert_eq!(a.prime, 223);
    let b = fe(222, 223);
    assert_eq!(b.num, 222);
}

#[test]
fn test_new_rejects_out_of_range() {
    assert_eq!(FieldElement::new(223, 223), Err(EccError::InvalidRange));
    assert_eq!(FieldElement::new(500, 223), Err(EccError::InvalidRange));
}

#[test]
fn test_add_exact() {
    let a = fe(170, 223);
    let b = fe(60, 223);
    assert_eq!(a.add(&b).unwrap(), fe(7, 223));
}

#[test]
fn test_sub_exact() {
    let a = fe(9, 223);
    let b = fe(29, 223);
    assert_eq!(a.sub(&b).unwrap(), fe(203, 223));
    assert_eq!(b.sub(&a).unwrap(), fe(20, 223));
}

#[test]
fn test_mul_exact() {
    let a = fe(15, 223);
    let b = fe(30, 223);
    assert_eq!(a.mul(&b).unwrap(), fe(4, 223));
}

#[test]
fn test_closure_in_range() {
    let a = fe(200, 223);
    let b = fe(199, 223);
    let sum = a.add(&b).unwrap();
    let diff = a.sub(&b).unwrap();
    let prod = a.mul(&b).unwrap();
    assert!(sum.num < 223);
    assert!(diff.num < 223);
    assert!(prod.num < 223);
}

#[test]
fn test_additive_identity() {
    let a = fe(47, 223);
    let zero = fe(0, 223);
    assert_eq!(a.add(&zero).unwrap(), a);
}

#[test]
fn test_multiplicative_identity() {
    let a = fe(47, 223);
    let one = fe(1, 223);
    assert_eq!(a.mul(&one).unwrap(), a);
}

#[test]
fn test_pow_exact() {
    let a = fe(3, 13);
    assert_eq!(a.pow(3), fe(1, 13));
}

#[test]
fn test_pow_reduces_exponent() {
    // the exponent is reduced modulo prime - 1: 100 mod 12 == 4
    let a = fe(2, 13);
    assert_eq!(a.pow(100), fe(3, 13));
    // an exponent of exactly prime - 1 reduces to 0, giving 1
    let b = fe(5, 7);
    assert_eq!(b.pow(6), fe(1, 7));
}

#[test]
fn test_inverse_round_trip() {
    // a * a^(p - 2) == 1 for nonzero a over a prime modulus
    let a = fe(3, 223);
    assert_eq!(a.mul(&a.pow(221)).unwrap(), fe(1, 223));
    let b = fe(171, 223);
    assert_eq!(b.mul(&b.pow(221)).unwrap(), fe(1, 223));
}

#[test]
fn test_div_exact() {
    let a = fe(2, 19);
    let b = fe(7, 19);
    assert_eq!(a.div(&b).unwrap(), fe(3, 19));
}

#[test]
fn test_division_consistency() {
    // (a / b) * b == a for nonzero b
    let a = fe(10, 223);
    let b = fe(3, 223);
    assert_eq!(a.div(&b).unwrap().mul(&b).unwrap(), a);
}

#[test]
fn test_division_by_zero() {
    let a = fe(10, 223);
    let zero = fe(0, 223);
    assert_eq!(a.div(&zero), Err(EccError::DivisionByZero));
}

#[test]
fn test_incompatible_fields() {
    let a = fe(10, 223);
    let b = fe(10, 227);
    assert_eq!(a.add(&b), Err(EccError::IncompatibleFields));
    assert_eq!(a.sub(&b), Err(EccError::IncompatibleFields));
    assert_eq!(a.mul(&b), Err(EccError::IncompatibleFields));
    assert_eq!(a.div(&b), Err(EccError::IncompatibleFields));
}

#[test]
fn test_equality_needs_num_and_prime() {
    assert_eq!(fe(10, 223), fe(10, 223));
    assert_ne!(fe(10, 223), fe(11, 223));
    assert_ne!(fe(10, 223), fe(10, 227));
}

#[test]
fn test_large_modulus_no_overflow() {
    // the largest prime below 2^64; intermediate products are widened,
    // so multiplication near the top of the range stays exact
    let p: u64 = 18446744073709551557;
    let a = fe(p - 1, p);
    // (p - 1)^2 == p^2 - 2p + 1 == 1 (mod p)
    assert_eq!(a.mul(&a).unwrap(), fe(1, p));
    assert_eq!(a.add(&a).unwrap(), fe(p - 2, p));
    let b = fe(2, p);
    assert_eq!(a.sub(&b).unwrap(), fe(p - 3, p));
}
