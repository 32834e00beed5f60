use ecc::error::EccError;
use ecc::field::FieldElement;
use ecc::point::Point;

fn fe(num: u64, prime: u64) -> FieldElement {
    FieldElement::new(num, prime).unwrap()
}

// a point on y^2 = x^3 + 7 over the field of 223
fn pt(x: u64, y: u64) -> Point {
    let a = fe(0, 223);
    let b = fe(7, 223);
    Point::new(Some(fe(x, 223)), Some(fe(y, 223)), a, b).unwrap()
}

fn identity() -> Point {
    let a = fe(0, 223);
    let b = fe(7, 223);
    Point::new(None, None, a, b).unwrap()
}

#[test]
fn test_point_addition() {
    let a = fe(0, 223);
    let b = fe(7, 223);

    let x1 = fe(192, 223);
    let y1 = fe(105, 223);
    let p1 = Point::new(Some(x1), Some(y1), a, b).unwrap();

    let x2 = fe(17, 223);
    let y2 = fe(56, 223);
    let p2 = Point::new(Some(x2), Some(y2), a, b).unwrap();

    let x3 = fe(170, 223);
    let y3 = fe(142, 223);
    let expected = Point::new(Some(x3), Some(y3), a, b).unwrap();

    assert_eq!(p1.add(&p2).unwrap(), expected);
}

#[test]
fn test_scalar_multiplication() {
    let a = fe(0, 223);
    let b = fe(7, 223);

    let x = fe(47, 223);
    let y = fe(71, 223);
    let p = Point::new(Some(x), Some(y), a, b).unwrap();

    let x2 = fe(36, 223);
    let y2 = fe(111, 223);
    let expected = Point::new(Some(x2), Some(y2), a, b).unwrap();

    assert_eq!(p.scalar_mul(2).unwrap(), expected);
}

#[test]
fn test_not_on_curve_rejected() {
    let a = fe(0, 223);
    let b = fe(7, 223);
    let r = Point::new(Some(fe(200, 223)), Some(fe(119, 223)), a, b);
    assert_eq!(r, Err(EccError::NotOnCurve));
}

#[test]
fn test_identity_constructed_without_curve_check() {
    let p = identity();
    assert!(p.x.is_none());
    assert!(p.y.is_none());
}

#[test]
fn test_point_new_rejects_mixed_moduli() {
    let a = fe(0, 223);
    let b = fe(7, 223);
    let r = Point::new(Some(fe(1, 227)), Some(fe(1, 227)), a, b);
    assert_eq!(r, Err(EccError::IncompatibleFields));
}

#[test]
fn test_group_identity() {
    let p = pt(192, 105);
    assert_eq!(p.add(&identity()).unwrap(), p);
    assert_eq!(identity().add(&p).unwrap(), p);
    assert_eq!(identity().add(&identity()).unwrap(), identity());
}

#[test]
fn test_commutativity() {
    let p = pt(192, 105);
    let q = pt(17, 56);
    assert_eq!(p.add(&q).unwrap(), q.add(&p).unwrap());
    let r = pt(47, 71);
    assert_eq!(p.add(&r).unwrap(), r.add(&p).unwrap());
}

#[test]
fn test_inverse_pair() {
    // (47, 71) and (47, 223 - 71) are additive inverses
    let p = pt(47, 71);
    let q = pt(47, 152);
    assert_eq!(p.add(&q).unwrap(), identity());
}

#[test]
fn test_doubling() {
    let p = pt(47, 71);
    assert_eq!(p.add(&p).unwrap(), pt(36, 111));
}

#[test]
fn test_different_curves_rejected() {
    let p = pt(192, 105);
    let a = fe(0, 223);
    let b2 = fe(5, 223);
    // (3, 60) lies on y^2 = x^3 + 5 over the same field
    let q = Point::new(Some(fe(3, 223)), Some(fe(60, 223)), a, b2).unwrap();
    assert_eq!(p.add(&q), Err(EccError::DifferentCurves));
}

#[test]
fn test_scalar_mul_zero_gives_identity() {
    let p = pt(47, 71);
    assert_eq!(p.scalar_mul(0).unwrap(), identity());
}

#[test]
fn test_scalar_mul_matches_repeated_addition() {
    let p = pt(47, 71);
    let mut sum = identity();
    for n in 0..8u64 {
        assert_eq!(p.scalar_mul(n).unwrap(), sum);
        sum = sum.add(&p).unwrap();
    }
}

#[test]
fn test_doubling_with_zero_y_gives_identity() {
    // (0, 0) lies on y^2 = x^3 + x; its tangent is vertical, so
    // doubling it yields the identity rather than dividing by zero
    let a = fe(1, 223);
    let b = fe(0, 223);
    let p = Point::new(Some(fe(0, 223)), Some(fe(0, 223)), a, b).unwrap();
    let ident = Point::new(None, None, a, b).unwrap();
    assert_eq!(p.add(&p).unwrap(), ident);
}

#[test]
fn test_doubling_division_by_zero() {
    // over the field of two elements, 2*y reduces to zero even for
    // nonzero y, so doubling (0, 1) on y^2 = x^3 + 1 fails explicitly
    let a = fe(0, 2);
    let b = fe(1, 2);
    let p = Point::new(Some(fe(0, 2)), Some(fe(1, 2)), a, b).unwrap();
    assert_eq!(p.add(&p), Err(EccError::DivisionByZero));
}

#[test]
fn test_point_equality() {
    assert_eq!(pt(47, 71), pt(47, 71));
    assert_ne!(pt(47, 71), pt(47, 152));
    assert_ne!(pt(47, 71), identity());
}
