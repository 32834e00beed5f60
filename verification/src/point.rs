//! A point on a short Weierstrass curve `y^2 = x^3 + a*x + b` over the
//! field of `FieldElement`: the elliptic-curve group law (addition with
//! the point at infinity as identity, including doubling) and scalar
//! multiplication by double-and-add.

use vstd::prelude::*;
use vstd::arithmetic::div_mod::{
    lemma_mod_bound, lemma_mod_multiples_vanish, lemma_mul_mod_noop_general, lemma_small_mod,
};
use crate::error::EccError;
use crate::field::{f_add, f_div, f_mul, f_sub, FieldElement};

verus! {

/// The curve equation `y^2 == x^3 + a*x + b`, evaluated with field
/// operations modulo `p` exactly as the checked construction computes
/// it: `y*y` against `((x*x)*x + a*x) + b`.
pub open spec fn on_curve(x: int, y: int, a: int, b: int, p: int) -> bool {
    f_mul(y, y, p) == f_add(f_add(f_mul(f_mul(x, x, p), x, p), f_mul(a, x, p), p), b, p)
}

/// A point on the curve `y^2 = x^3 + a*x + b`, or the point at
/// infinity (both coordinates absent), which is the group identity.
/// Two points are equal iff `x`, `y`, `a` and `b` all match.
#[derive(Clone, Copy, Debug, PartialEq, Eq)]
pub struct Point {
    pub x: Option<FieldElement>,
    pub y: Option<FieldElement>,
    pub a: FieldElement,
    pub b: FieldElement,
}

impl Point {
    /// The identity (point at infinity) of the curve with coefficients
    /// `a` and `b`.
    pub open spec fn spec_identity(a: FieldElement, b: FieldElement) -> Point {
        Point { x: None, y: None, a, b }
    }

    /// Well-formedness: the coefficients and any coordinates are valid
    /// residues sharing one modulus, and the coordinates are either
    /// both absent (the identity) or both present and on the curve.
    pub open spec fn wf(self) -> bool {
        &&& self.a.wf()
        &&& self.b.wf()
        &&& self.a.prime == self.b.prime
        &&& match (self.x, self.y) {
            (Some(xv), Some(yv)) => {
                &&& xv.wf()
                &&& yv.wf()
                &&& xv.prime == self.a.prime
                &&& yv.prime == self.a.prime
                &&& on_curve(
                    xv.num as int,
                    yv.num as int,
                    self.a.num as int,
                    self.b.num as int,
                    self.a.prime as int,
                )
            }
            (None, None) => true,
            _ => false,
        }
    }

    /// What checked construction returns: with both coordinates
    /// present, the point itself when they satisfy the curve equation
    /// under the common modulus; with either coordinate absent, the
    /// identity, with no curve check. Moduli are validated eagerly
    /// across all four elements.
    pub open spec fn spec_new(
        x: Option<FieldElement>,
        y: Option<FieldElement>,
        a: FieldElement,
        b: FieldElement,
    ) -> Result<Point, EccError> {
        match (x, y) {
            (Some(xv), Some(yv)) => {
                if xv.prime != a.prime || yv.prime != a.prime || b.prime != a.prime {
                    Err(EccError::IncompatibleFields)
                } else if on_curve(
                    xv.num as int,
                    yv.num as int,
                    a.num as int,
                    b.num as int,
                    a.prime as int,
                ) {
                    Ok(Point { x, y, a, b })
                } else {
                    Err(EccError::NotOnCurve)
                }
            }
            _ => {
                if a.prime != b.prime {
                    Err(EccError::IncompatibleFields)
                } else {
                    Ok(Point { x: None, y: None, a, b })
                }
            }
        }
    }

    /// Constructs a curve point, verifying curve membership of present
    /// coordinates and modulus consistency across `x`, `y`, `a`, `b`.
    pub fn new(
        x: Option<FieldElement>,
        y: Option<FieldElement>,
        a: FieldElement,
        b: FieldElement,
    ) -> (r: Result<Point, EccError>)
        requires
            a.wf(),
            b.wf(),
            x matches Some(xv) ==> xv.wf(),
            y matches Some(yv) ==> yv.wf(),
        ensures
            r == Self::spec_new(x, y, a, b),
            r matches Ok(q) ==> q.wf(),
    {
        if x.is_some() && y.is_some() {
            let xv = x.unwrap();
            let yv = y.unwrap();
            if xv.prime != a.prime || yv.prime != a.prime || b.prime != a.prime {
                return Err(EccError::IncompatibleFields);
            }
            let lhs = yv.mul_raw(&yv);
            let rhs = xv.mul_raw(&xv).mul_raw(&xv).add_raw(&a.mul_raw(&xv)).add_raw(&b);
            if lhs.num != rhs.num {
                return Err(EccError::NotOnCurve);
            }
            Ok(Point { x, y, a, b })
        } else {
            if a.prime != b.prime {
                return Err(EccError::IncompatibleFields);
            }
            Ok(Point { x: None, y: None, a, b })
        }
    }

    /// The third point of the line of slope `s` through `(x1, y1)` and
    /// a point with x-coordinate `x2`: `x3 = s^2 - x1 - x2` and
    /// `y3 = s*(x1 - x3) - y1`, revalidated against the curve.
    pub open spec fn spec_chord(self, s: int, x1: int, y1: int, x2: int) -> Result<
        Point,
        EccError,
    > {
        let p = self.a.prime as int;
        let x3 = f_sub(f_sub(f_mul(s, s, p), x1, p), x2, p);
        let y3 = f_sub(f_mul(s, f_sub(x1, x3, p), p), y1, p);
        Self::spec_new(
            Some(FieldElement { num: x3 as u64, prime: self.a.prime }),
            Some(FieldElement { num: y3 as u64, prime: self.a.prime }),
            self.a,
            self.b,
        )
    }

    /// What point addition returns, by the cases of the group law:
    /// an error for points of different curves; the other point when
    /// one is the identity; the identity for additive inverses
    /// (equal `x`, different `y`) and for doubling a point whose `y`
    /// is zero; otherwise the chord-tangent construction, with the
    /// tangent slope `(3*x1^2 + a) / (2*y1)` when doubling and the
    /// chord slope `(y2 - y1) / (x2 - x1)` for distinct points.
    pub open spec fn spec_add(self, other: Point) -> Result<Point, EccError> {
        if self.a != other.a || self.b != other.b {
            Err(EccError::DifferentCurves)
        } else if self.x.is_none() {
            Ok(other)
        } else if other.x.is_none() {
            Ok(self)
        } else {
            let x1 = self.x.unwrap();
            let y1 = self.y.unwrap();
            let x2 = other.x.unwrap();
            let y2 = other.y.unwrap();
            let p = self.a.prime as int;
            if x1.num == x2.num && y1.num != y2.num {
                Ok(Self::spec_identity(self.a, self.b))
            } else if x1.num == x2.num {
                if y1.num == 0 {
                    Ok(Self::spec_identity(self.a, self.b))
                } else {
                    let sq = f_mul(x1.num as int, x1.num as int, p);
                    let num = f_add(f_add(f_add(sq, sq, p), sq, p), self.a.num as int, p);
                    let den = f_add(y1.num as int, y1.num as int, p);
                    if den == 0 {
                        Err(EccError::DivisionByZero)
                    } else {
                        self.spec_chord(
                            f_div(num, den, p),
                            x1.num as int,
                            y1.num as int,
                            x2.num as int,
                        )
                    }
                }
            } else {
                let num = f_sub(y2.num as int, y1.num as int, p);
                let den = f_sub(x2.num as int, x1.num as int, p);
                self.spec_chord(f_div(num, den, p), x1.num as int, y1.num as int, x2.num as int)
            }
        }
    }

    /// Adds two curve points under the elliptic-curve group law. The
    /// identity cases return the other operand unchanged; additive
    /// inverses and the doubling of a point with `y = 0` (a vertical
    /// tangent) return the identity; the remaining cases build the
    /// chord or tangent line and revalidate the resulting coordinates
    /// against the curve.
    pub fn add(&self, other: &Point) -> (r: Result<Point, EccError>)
        requires
            self.wf(),
            other.wf(),
        ensures
            r == self.spec_add(*other),
    {
        if self.a != other.a || self.b != other.b {
            return Err(EccError::DifferentCurves);
        }
        if self.x.is_none() {
            return Ok(*other);
        }
        if other.x.is_none() {
            return Ok(*self);
        }
        let x1 = self.x.unwrap();
        let y1 = self.y.unwrap();
        let x2 = other.x.unwrap();
        let y2 = other.y.unwrap();
        if x1.num == x2.num && y1.num != y2.num {
            return Ok(Point { x: None, y: None, a: self.a, b: self.b });
        }
        let s: FieldElement;
        if x1.num == x2.num {
            if y1.num == 0 {
                return Ok(Point { x: None, y: None, a: self.a, b: self.b });
            }
            let sq = x1.mul_raw(&x1);
            let num = sq.add_raw(&sq).add_raw(&sq).add_raw(&self.a);
            let den = y1.add_raw(&y1);
            if den.num == 0 {
                return Err(EccError::DivisionByZero);
            }
            s = num.div_raw(&den);
        } else {
            let num = y2.sub_raw(&y1);
            let den = x2.sub_raw(&x1);
            proof {
                // the two x-residues differ and both lie below the
                // modulus, so their reduced difference is nonzero
                let p = self.a.prime as int;
                let d = x2.num - x1.num;
                if d > 0 {
                    lemma_small_mod(d as nat, p as nat);
                } else {
                    lemma_mod_multiples_vanish(1, d, p);
                    lemma_small_mod((d + p) as nat, p as nat);
                }
            }
            s = num.div_raw(&den);
        }
        let x3 = s.mul_raw(&s).sub_raw(&x1).sub_raw(&x2);
        let y3 = s.mul_raw(&x1.sub_raw(&x3)).sub_raw(&y1);
        Point::new(Some(x3), Some(y3), self.a, self.b)
    }

    /// The state of double-and-add: with accumulator `acc` and current
    /// doubling `cur`, the result of consuming the remaining
    /// coefficient bits from least significant up. Once the
    /// coefficient is exhausted the accumulator is the result;
    /// otherwise `cur` is folded into `acc` on an odd coefficient,
    /// `cur` is doubled, the coefficient halves, and the first failing
    /// addition's error is returned.
    pub open spec fn spec_double_and_add(acc: Point, cur: Point, coef: nat) -> Result<
        Point,
        EccError,
    >
        decreases coef,
    {
        if coef == 0 {
            Ok(acc)
        } else {
            let folded = if coef % 2 == 1 {
                acc.spec_add(cur)
            } else {
                Ok(acc)
            };
            match folded {
                Ok(acc2) => match cur.spec_add(cur) {
                    Ok(cur2) => Self::spec_double_and_add(acc2, cur2, coef / 2),
                    Err(e) => Err(e),
                },
                Err(e) => Err(e),
            }
        }
    }

    /// What scalar multiplication returns: double-and-add started from
    /// the identity of this point's curve.
    pub open spec fn spec_scalar_mul(self, coefficient: u64) -> Result<Point, EccError> {
        Self::spec_double_and_add(Self::spec_identity(self.a, self.b), self, coefficient as nat)
    }

    /// Multiplies the point by a scalar coefficient via double-and-add:
    /// the result starts at the identity and the point doubles once per
    /// coefficient bit, so the work is proportional to the bit width of
    /// the coefficient. A zero coefficient yields the identity.
    pub fn scalar_mul(&self, coefficient: u64) -> (r: Result<Point, EccError>)
        requires
            self.wf(),
        ensures
            r == self.spec_scalar_mul(coefficient),
    {
        let mut coef: u64 = coefficient;
        let mut current: Point = *self;
        let mut result: Point = Point { x: None, y: None, a: self.a, b: self.b };
        while coef > 0
            invariant
                result.wf(),
                current.wf(),
                Self::spec_double_and_add(result, current, coef as nat)
                    == self.spec_scalar_mul(coefficient),
            decreases coef,
        {
            let ghost acc0 = result;
            let ghost cur0 = current;
            let ghost c0 = coef as nat;
            if coef % 2 == 1 {
                match result.add(&current) {
                    Ok(folded) => {
                        proof {
                            Self::lemma_add_ok_wf(acc0, cur0);
                        }
                        result = folded;
                    },
                    Err(e) => {
                        proof {
                            assert(Self::spec_double_and_add(acc0, cur0, c0) == Err::<
                                Point,
                                EccError,
                            >(e));
                        }
                        return Err(e);
                    },
                }
            }
            match current.add(&current) {
                Ok(doubled) => {
                    proof {
                        Self::lemma_add_ok_wf(cur0, cur0);
                    }
                    current = doubled;
                },
                Err(e) => {
                    proof {
                        assert(Self::spec_double_and_add(acc0, cur0, c0) == Err::<
                            Point,
                            EccError,
                        >(e));
                    }
                    return Err(e);
                },
            }
            coef = coef / 2;
            proof {
                assert(Self::spec_double_and_add(acc0, cur0, c0) == Self::spec_double_and_add(
                    result,
                    current,
                    coef as nat,
                ));
            }
        }
        Ok(result)
    }

    /// Point addition is closed: when it succeeds on well-formed
    /// points, the sum is a well-formed point of the same curve.
    pub proof fn lemma_add_ok_wf(p1: Point, p2: Point)
        requires
            p1.wf(),
            p2.wf(),
        ensures
            p1.spec_add(p2) matches Ok(q) ==> q.wf() && q.a == p1.a && q.b == p1.b,
    {
        broadcast use lemma_mod_bound;

    }

    /// Group identity law: adding the identity of a point's curve on
    /// either side returns the point unchanged.
    pub proof fn lemma_add_identity(p: Point)
        requires
            p.wf(),
        ensures
            p.spec_add(Self::spec_identity(p.a, p.b)) == Ok::<Point, EccError>(p),
            Self::spec_identity(p.a, p.b).spec_add(p) == Ok::<Point, EccError>(p),
    {
    }

    /// The reflection of a point across the x-axis: `y` replaced by
    /// its field negation. The identity reflects to itself.
    pub open spec fn spec_neg(self) -> Point {
        match self.y {
            Some(yv) => Point {
                x: self.x,
                y: Some(
                    FieldElement {
                        num: f_sub(0, yv.num as int, self.a.prime as int) as u64,
                        prime: yv.prime,
                    },
                ),
                a: self.a,
                b: self.b,
            },
            None => self,
        }
    }

    /// Inverse-pair law: a point and its reflection across the x-axis
    /// lie on the same curve and sum to the identity — as additive
    /// inverses when the reflection differs (a vertical line), and
    /// through the vertical-tangent doubling case when `y` is zero.
    /// Excluded: a modulus equal to twice `y`, where the reflection
    /// coincides with the point yet `2*y` reduces to zero, so the
    /// doubling reports a division by zero instead.
    pub proof fn lemma_add_inverse(p: Point)
        requires
            p.wf(),
            p.x.is_some(),
            p.y.unwrap().num == 0 || 2 * p.y.unwrap().num != p.a.prime,
        ensures
            p.spec_neg().wf(),
            p.spec_add(p.spec_neg()) == Ok::<Point, EccError>(
                Self::spec_identity(p.a, p.b),
            ),
    {
        let pr = p.a.prime as int;
        let y = p.y.unwrap().num as int;
        let neg = f_sub(0, y, pr);
        lemma_mod_bound(-y, pr);
        if y == 0 {
            lemma_small_mod(0, pr as nat);
        } else {
            lemma_mod_multiples_vanish(1, -y, pr);
            lemma_small_mod((pr - y) as nat, pr as nat);
        }
        assert(neg == if y == 0 { 0int } else { pr - y });
        assert((-y) * (-y) == y * y) by (nonlinear_arith);
        lemma_mul_mod_noop_general(-y, -y, pr);
        assert(f_mul(neg, neg, pr) == f_mul(y, y, pr));
    }

    /// Commutativity of point addition when either operand is the
    /// identity or the two operands share an x-coordinate. (The
    /// remaining case, a chord between distinct x-coordinates,
    /// computes its slope through a Fermat inverse, whose symmetry
    /// between the two orders rests on the modulus being prime.)
    pub proof fn lemma_add_commutes_special(p: Point, q: Point)
        requires
            p.wf(),
            q.wf(),
            p.a == q.a,
            p.b == q.b,
            p.x.is_none() || q.x.is_none() || p.x.unwrap().num == q.x.unwrap().num,
        ensures
            p.spec_add(q) == q.spec_add(p),
    {
    }

    /// `p` added to itself `n` times by plain repeated addition,
    /// starting from the identity of its curve, with the first failing
    /// addition's error returned.
    pub open spec fn spec_repeated_add(p: Point, n: nat) -> Result<Point, EccError>
        decreases n,
    {
        if n == 0 {
            Ok(Self::spec_identity(p.a, p.b))
        } else {
            match Self::spec_repeated_add(p, (n - 1) as nat) {
                Ok(q) => q.spec_add(p),
                Err(e) => Err(e),
            }
        }
    }

    /// Scalar-multiplication consistency for small coefficients: for
    /// `n` up to two, a double-and-add run from the identity that
    /// succeeds returns exactly `p` added to itself `n` times by
    /// repeated addition. Larger coefficients rearrange the order in
    /// which the doublings are summed, so equality for them rests on
    /// associativity of the group law, which holds only over a prime
    /// modulus.
    pub proof fn lemma_scalar_mul_small(p: Point, n: nat)
        requires
            p.wf(),
            n <= 2,
            Self::spec_double_and_add(Self::spec_identity(p.a, p.b), p, n).is_ok(),
        ensures
            Self::spec_double_and_add(Self::spec_identity(p.a, p.b), p, n)
                == Self::spec_repeated_add(p, n),
    {
        let ident = Self::spec_identity(p.a, p.b);
        Self::lemma_add_identity(p);
        assert(Self::spec_repeated_add(p, 0) == Ok::<Point, EccError>(ident));
        if n == 1 {
            assert(Self::spec_repeated_add(p, 1) == ident.spec_add(p));
            assert(Self::spec_double_and_add(ident, p, 1) == (match p.spec_add(p) {
                Ok(cur2) => Self::spec_double_and_add(p, cur2, 0),
                Err(e) => Err(e),
            }));
        } else if n == 2 {
            let dbl = p.spec_add(p);
            assert(Self::spec_double_and_add(ident, p, 2) == (match dbl {
                Ok(cur2) => Self::spec_double_and_add(ident, cur2, 1),
                Err(e) => Err(e),
            }));
            assert(dbl.is_ok());
            Self::lemma_add_ok_wf(p, p);
            Self::lemma_add_identity(dbl.unwrap());
            assert(Self::spec_double_and_add(ident, dbl.unwrap(), 1) == (match dbl.unwrap()
                .spec_add(dbl.unwrap()) {
                Ok(cur2) => Self::spec_double_and_add(dbl.unwrap(), cur2, 0),
                Err(e) => Err(e),
            }));
            assert(Self::spec_repeated_add(p, 1) == ident.spec_add(p));
            assert(Self::spec_repeated_add(p, 2) == dbl);
        }
    }
}

} // verus!
