//! The error taxonomy of the library.

use vstd::prelude::*;

verus! {

/// Everything that can go wrong outside of state validation.
#[derive(Clone, Copy, Debug, PartialEq, Eq, Structural)]
pub enum CubeError {
    /// A raw integer does not name any corner, edge or move.
    InvalidIdentifier,
    /// A facelet string has the wrong length, an unrecognized symbol, or the
    /// wrong number of stickers of some color.
    MalformedFacelets,
    /// A well-formed facelet string does not correspond to any cubie
    /// assignment.
    ConversionFailure,
    /// A pruning-table coordinate has no recorded solution within the
    /// generation depth bound.
    TableMissingEntry,
    /// The depth-first search reached its maximum bound without finding a
    /// goal.
    SolverExhausted,
}

/// The solvability invariant that a cube state violates, reported by
/// `Cube::validate`.
#[derive(Clone, Copy, Debug, PartialEq, Eq, Structural)]
pub enum InvalidCubeState {
    /// The edge permutation is not a bijection on the 12 edge pieces.
    EdgePermutation,
    /// The edge orientations do not sum to 0 modulo 2.
    EdgeOrientationSum,
    /// The corner permutation is not a bijection on the 8 corner pieces.
    CornerPermutation,
    /// The corner orientations do not sum to 0 modulo 3.
    CornerOrientationSum,
    /// The corner permutation's parity differs from the edge permutation's.
    PermutationParity,
}

} // verus!
