use vstd::prelude::*;

verus! {

/// The failure kinds of the engine.
///
/// Exact rational arithmetic makes the degenerate cases that a floating-point
/// engine would let slide (division by zero during normalization or centroid
/// computation, indexing the first point of an empty path) explicit, and adds
/// two kinds of its own: a result whose exact value cannot be represented
/// (`Irrational`) and one whose exact value lies outside the fixed coordinate
/// bounds (`Overflow`).
#[derive(Clone, Copy, Debug, PartialEq, Eq, Structural)]
pub enum GeomError {
    /// A zero vector was normalized, a rotation was built from a pair that is
    /// not on the unit circle, or a centroid was asked of a shape with no
    /// points.
    DegenerateVector,
    /// A path with no points was serialized.
    EmptyPath,
    /// The exact result exists but is not a representable rational (a square
    /// root that is not rational, an angle whose cosine and sine are not both
    /// rational, a fraction with no finite decimal form).
    Irrational,
    /// The exact result is rational but its numerator or denominator lies
    /// outside the representation bounds.
    Overflow,
}

} // verus!
