//! Prime-field modular arithmetic and elliptic-curve point arithmetic
//! over that field: a finite-field element type with the five field
//! operations, and a curve-point type implementing the group law on a
//! short Weierstrass curve together with scalar multiplication.

pub mod error;
pub mod field;
pub mod point;
