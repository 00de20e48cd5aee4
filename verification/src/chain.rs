//! Names shared with the spin-chain simulation.

use vstd::prelude::*;

verus! {

/// Rotation axis for localized perturbations.
#[derive(Clone, Copy, Debug, PartialEq, Eq, Structural)]
pub enum Axis {
    X,
    Y,
    Z,
}

} // verus!
