use vstd::prelude::*;

verus! {

/// Every failure is a caller-input violation, reported at the point of
/// violation as a distinguishable error value.
#[derive(Clone, Copy, Debug, PartialEq, Eq, Structural)]
pub enum EccError {
    /// A residue value at or above the field's modulus was supplied.
    InvalidRange,
    /// A binary field operation was asked of two elements with
    /// different moduli.
    IncompatibleFields,
    /// Point coordinates that do not satisfy the curve equation.
    NotOnCurve,
    /// A binary point operation was asked of two points whose curve
    /// coefficients differ.
    DifferentCurves,
    /// Division by the zero field element.
    DivisionByZero,
}

} // verus!
