//! A finite-field element: one residue modulo a prime, with the five
//! field operations (add, subtract, multiply, exponentiate, divide).

use vstd::prelude::*;
use vstd::arithmetic::div_mod::{
    lemma_mod_bound, lemma_mod_multiples_vanish, lemma_mul_mod_noop_general, lemma_small_mod,
};
use vstd::arithmetic::mul::{lemma_mul_is_associative, lemma_mul_upper_bound};
use vstd::arithmetic::power::{
    lemma_pow0, lemma_pow1, lemma_pow_adds, lemma_pow_mod_noop, lemma_pow_multiplies,
    lemma_square_is_pow2, pow,
};
use crate::error::EccError;

verus! {

/// One residue modulo `prime`: the value `num`, with `0 <= num < prime`.
/// The modulus is conventionally prime, though the type does not verify
/// primality. Two elements are equal iff both `num` and `prime` match.
#[derive(Clone, Copy, Debug, PartialEq, Eq, Structural)]
pub struct FieldElement {
    pub num: u64,
    pub prime: u64,
}

/// `(a + b) mod p`.
pub open spec fn f_add(a: int, b: int, p: int) -> int {
    (a + b) % p
}

/// `(a - b) mod p`.
pub open spec fn f_sub(a: int, b: int, p: int) -> int {
    (a - b) % p
}

/// `(a * b) mod p`.
pub open spec fn f_mul(a: int, b: int, p: int) -> int {
    (a * b) % p
}

/// `a^e mod p`.
pub open spec fn f_pow(a: int, e: nat, p: int) -> int {
    pow(a, e) % p
}

/// `a / b` in the field: `a` times the modular multiplicative inverse
/// `b^(p - 2)` given by Fermat's little theorem.
pub open spec fn f_div(a: int, b: int, p: int) -> int {
    f_mul(a, f_pow(b, (p - 2) as nat, p), p)
}

impl FieldElement {
    /// The range invariant: the residue lies in `[0, prime)`.
    pub open spec fn wf(self) -> bool {
        self.num < self.prime
    }

    /// What construction returns: the element itself when the value is
    /// in range, and an invalid-range error otherwise.
    pub open spec fn spec_new(num: u64, prime: u64) -> Result<FieldElement, EccError> {
        if num < prime {
            Ok(FieldElement { num, prime })
        } else {
            Err(EccError::InvalidRange)
        }
    }

    /// Constructs the residue `num` modulo `prime`, rejecting a value
    /// outside `[0, prime)`.
    pub fn new(num: u64, prime: u64) -> (r: Result<FieldElement, EccError>)
        ensures
            r == Self::spec_new(num, prime),
            r matches Ok(e) ==> e.wf(),
    {
        if num >= prime {
            Err(EccError::InvalidRange)
        } else {
            Ok(FieldElement { num, prime })
        }
    }

    /// What addition returns: the sum modulo the common modulus, or an
    /// incompatible-fields error when the moduli differ.
    pub open spec fn spec_add(self, other: FieldElement) -> Result<FieldElement, EccError> {
        if self.prime != other.prime {
            Err(EccError::IncompatibleFields)
        } else {
            Ok(
                FieldElement {
                    num: f_add(self.num as int, other.num as int, self.prime as int) as u64,
                    prime: self.prime,
                },
            )
        }
    }

    /// What subtraction returns.
    pub open spec fn spec_sub(self, other: FieldElement) -> Result<FieldElement, EccError> {
        if self.prime != other.prime {
            Err(EccError::IncompatibleFields)
        } else {
            Ok(
                FieldElement {
                    num: f_sub(self.num as int, other.num as int, self.prime as int) as u64,
                    prime: self.prime,
                },
            )
        }
    }

    /// What multiplication returns.
    pub open spec fn spec_mul(self, other: FieldElement) -> Result<FieldElement, EccError> {
        if self.prime != other.prime {
            Err(EccError::IncompatibleFields)
        } else {
            Ok(
                FieldElement {
                    num: f_mul(self.num as int, other.num as int, self.prime as int) as u64,
                    prime: self.prime,
                },
            )
        }
    }

    /// Addition over elements already known to share a modulus.
    /// Intermediate sums are widened to `u128`, so the full `u64`
    /// modulus range is supported without overflow.
    pub(crate) fn add_raw(&self, other: &FieldElement) -> (r: FieldElement)
        requires
            self.wf(),
            other.wf(),
            self.prime == other.prime,
        ensures
            r.wf(),
            r.prime == self.prime,
            r.num == f_add(self.num as int, other.num as int, self.prime as int),
    {
        let sum: u128 = self.num as u128 + other.num as u128;
        let p: u128 = self.prime as u128;
        let num: u64 = (sum % p) as u64;
        proof {
            lemma_mod_bound(sum as int, p as int);
        }
        FieldElement { num, prime: self.prime }
    }

    /// Subtraction over elements already known to share a modulus; the
    /// modulus is added before subtracting so the unsigned difference
    /// cannot underflow.
    pub(crate) fn sub_raw(&self, other: &FieldElement) -> (r: FieldElement)
        requires
            self.wf(),
            other.wf(),
            self.prime == other.prime,
        ensures
            r.wf(),
            r.prime == self.prime,
            r.num == f_sub(self.num as int, other.num as int, self.prime as int),
    {
        let diff: u128 = self.num as u128 + self.prime as u128 - other.num as u128;
        let p: u128 = self.prime as u128;
        let num: u64 = (diff % p) as u64;
        proof {
            lemma_mod_bound(diff as int, p as int);
            lemma_mod_multiples_vanish(1, self.num - other.num, p as int);
        }
        FieldElement { num, prime: self.prime }
    }

    /// Multiplication over elements already known to share a modulus,
    /// with the product formed in `u128` and reduced at once.
    pub(crate) fn mul_raw(&self, other: &FieldElement) -> (r: FieldElement)
        requires
            self.wf(),
            other.wf(),
            self.prime == other.prime,
        ensures
            r.wf(),
            r.prime == self.prime,
            r.num == f_mul(self.num as int, other.num as int, self.prime as int),
    {
        proof {
            lemma_mul_upper_bound(
                self.num as int,
                0xFFFF_FFFF_FFFF_FFFF,
                other.num as int,
                0xFFFF_FFFF_FFFF_FFFF,
            );
        }
        let product: u128 = self.num as u128 * other.num as u128;
        let p: u128 = self.prime as u128;
        let num: u64 = (product % p) as u64;
        proof {
            lemma_mod_bound(product as int, p as int);
        }
        FieldElement { num, prime: self.prime }
    }

    /// Adds two field elements, rejecting elements of different fields.
    pub fn add(&self, other: &FieldElement) -> (r: Result<FieldElement, EccError>)
        requires
            self.wf(),
            other.wf(),
        ensures
            r == self.spec_add(*other),
            r matches Ok(e) ==> e.wf(),
    {
        if self.prime != other.prime {
            Err(EccError::IncompatibleFields)
        } else {
            Ok(self.add_raw(other))
        }
    }

    /// Subtracts two field elements, rejecting elements of different
    /// fields.
    pub fn sub(&self, other: &FieldElement) -> (r: Result<FieldElement, EccError>)
        requires
            self.wf(),
            other.wf(),
        ensures
            r == self.spec_sub(*other),
            r matches Ok(e) ==> e.wf(),
    {
        if self.prime != other.prime {
            Err(EccError::IncompatibleFields)
        } else {
            Ok(self.sub_raw(other))
        }
    }

    /// Multiplies two field elements, rejecting elements of different
    /// fields.
    pub fn mul(&self, other: &FieldElement) -> (r: Result<FieldElement, EccError>)
        requires
            self.wf(),
            other.wf(),
        ensures
            r == self.spec_mul(*other),
            r matches Ok(e) ==> e.wf(),
    {
        if self.prime != other.prime {
            Err(EccError::IncompatibleFields)
        } else {
            Ok(self.mul_raw(other))
        }
    }

    /// What exponentiation returns: `num^(exponent mod (prime - 1))
    /// mod prime`, the exponent first reduced modulo `prime - 1` by
    /// Fermat's little theorem.
    pub open spec fn spec_pow(self, exponent: u64) -> FieldElement {
        FieldElement {
            num: f_pow(
                self.num as int,
                (exponent as int % (self.prime - 1)) as nat,
                self.prime as int,
            ) as u64,
            prime: self.prime,
        }
    }

    /// Raises the element to `exponent`, reducing the exponent modulo
    /// `prime - 1` and then squaring and multiplying with a modular
    /// reduction at every step, so no intermediate product overflows.
    pub fn pow(&self, exponent: u64) -> (r: FieldElement)
        requires
            self.wf(),
            self.prime >= 2,
        ensures
            r == self.spec_pow(exponent),
            r.wf(),
    {
        let p: u64 = self.prime;
        let e0: u64 = exponent % (p - 1);
        let ghost pi: int = p as int;
        let ghost target: int = pow(self.num as int, e0 as nat) % pi;
        let mut e: u64 = e0;
        let mut base: u64 = self.num;
        let mut acc: u64 = 1;
        proof {
            lemma_mod_bound(pow(self.num as int, e0 as nat), pi);
        }
        while e > 0
            invariant
                p == self.prime,
                p >= 2,
                pi == p as int,
                acc < p,
                base < p,
                target == pow(self.num as int, e0 as nat) % pi,
                (acc as int * pow(base as int, e as nat)) % pi == target,
            decreases e,
        {
            let ghost a0: int = acc as int;
            let ghost b0: int = base as int;
            let ghost en: nat = e as nat;
            let ghost half: nat = (e / 2) as nat;
            proof {
                // pow of the reduced square agrees with pow of the square,
                // and the square is base to the power 2 * (e / 2).
                lemma_pow_mod_noop(b0 * b0, half, pi);
                lemma_pow_multiplies(b0, 2, half);
                lemma_square_is_pow2(b0);
                lemma_mul_upper_bound(b0, 0xFFFF_FFFF_FFFF_FFFF, b0, 0xFFFF_FFFF_FFFF_FFFF);
                lemma_mod_bound(b0 * b0, pi);
            }
            if e % 2 == 1 {
                proof {
                    lemma_mul_upper_bound(a0, 0xFFFF_FFFF_FFFF_FFFF, b0, 0xFFFF_FFFF_FFFF_FFFF);
                    lemma_mod_bound(a0 * b0, pi);
                    lemma_pow1(b0);
                    lemma_pow_adds(b0, 1, (en - 1) as nat);
                    assert(pow(b0, en) == b0 * pow(b0, (en - 1) as nat));
                    assert((en - 1) as nat == 2 * half);
                    // (acc * base) * base^(e - 1) == acc * base^e
                    lemma_mul_is_associative(a0, b0, pow(b0, (en - 1) as nat));
                    lemma_mul_mod_noop_general(a0 * b0, pow((b0 * b0) % pi, half), pi);
                    lemma_mul_mod_noop_general(a0 * b0, pow(b0 * b0, half), pi);
                }
                acc = ((acc as u128 * base as u128) % (p as u128)) as u64;
                proof {
                    assert((acc as int * pow((b0 * b0) % pi, half)) % pi == target);
                }
            } else {
                proof {
                    assert(en == 2 * half);
                    lemma_mul_mod_noop_general(a0, pow((b0 * b0) % pi, half), pi);
                    lemma_mul_mod_noop_general(a0, pow(b0 * b0, half), pi);
                    assert((a0 * pow((b0 * b0) % pi, half)) % pi == target);
                }
            }
            base = ((base as u128 * base as u128) % (p as u128)) as u64;
            e = e / 2;
        }
        proof {
            lemma_pow0(base as int);
            lemma_small_mod(acc as nat, p as nat);
        }
        FieldElement { num: acc, prime: p }
    }

    /// What division returns: the product of `self` with the modular
    /// multiplicative inverse `other^(prime - 2)` obtained by Fermat's
    /// little theorem, or the matching error.
    pub open spec fn spec_div(self, other: FieldElement) -> Result<FieldElement, EccError> {
        if self.prime != other.prime {
            Err(EccError::IncompatibleFields)
        } else if other.num == 0 {
            Err(EccError::DivisionByZero)
        } else {
            Ok(
                FieldElement {
                    num: f_div(self.num as int, other.num as int, self.prime as int) as u64,
                    prime: self.prime,
                },
            )
        }
    }

    /// Division over elements already known to share a modulus, by a
    /// divisor already known to be nonzero.
    pub(crate) fn div_raw(&self, other: &FieldElement) -> (r: FieldElement)
        requires
            self.wf(),
            other.wf(),
            self.prime == other.prime,
            other.num != 0,
        ensures
            r.wf(),
            r.prime == self.prime,
            r.num == f_div(self.num as int, other.num as int, self.prime as int),
    {
        let inv = other.pow(self.prime - 2);
        proof {
            lemma_small_mod((self.prime - 2) as nat, (self.prime - 1) as nat);
            lemma_mod_bound(pow(other.num as int, (self.prime - 2) as nat), self.prime as int);
        }
        self.mul_raw(&inv)
    }

    /// Divides two field elements, rejecting elements of different
    /// fields and division by the zero element.
    pub fn div(&self, other: &FieldElement) -> (r: Result<FieldElement, EccError>)
        requires
            self.wf(),
            other.wf(),
        ensures
            r == self.spec_div(*other),
            r matches Ok(e) ==> e.wf(),
    {
        if self.prime != other.prime {
            Err(EccError::IncompatibleFields)
        } else if other.num == 0 {
            Err(EccError::DivisionByZero)
        } else {
            Ok(self.div_raw(other))
        }
    }
}

/// Additive identity law: adding the zero element of the same field
/// leaves any valid element unchanged.
pub proof fn lemma_add_zero_identity(a: FieldElement)
    requires
        a.wf(),
    ensures
        a.spec_add((FieldElement { num: 0, prime: a.prime })) == Ok::<FieldElement, EccError>(a),
{
    lemma_small_mod(a.num as nat, a.prime as nat);
}

/// Multiplicative identity law: multiplying by the one element of the
/// same field leaves any valid element unchanged.
pub proof fn lemma_mul_one_identity(a: FieldElement)
    requires
        a.wf(),
    ensures
        a.spec_mul((FieldElement { num: 1, prime: a.prime })) == Ok::<FieldElement, EccError>(a),
{
    lemma_small_mod(a.num as nat, a.prime as nat);
}

} // verus!
