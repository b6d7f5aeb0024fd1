//! A mock verifier for PLONKish arithmetic circuits.
//!
//! A circuit declares columns, selectors and polynomial gates in a
//! [`ConstraintSystem`](system::ConstraintSystem), lays witness values out on a
//! fixed grid of rows through a [`Layouter`](layout::Layouter), records cell
//! equalities in a [`CopyConstraintSet`](copy::CopyConstraintSet), and the
//! [`MockProver`](prover::MockProver) then checks every gate at every row where
//! its selector fires, and every equivalence class of cells, against the
//! concrete assignment, reporting every violation found.

pub mod circuit;
pub mod copy;
pub mod field;
pub mod layout;
pub mod prover;
pub mod system;

use vstd::prelude::*;

verus! {

/// A fatal fault of circuit construction or synthesis, as opposed to an
/// ordinary constraint violation, which is reported as data.
#[derive(Clone, Copy, Debug, PartialEq, Eq)]
pub enum Error {
    /// A gate referenced a column or selector that was never registered.
    UnregisteredColumn,
    /// Equality was declared on a column after a gate had already been
    /// registered against it.
    EqualityAfterUse,
    /// A cell was assigned twice.
    DoubleAssignment,
    /// `constrain_equal` was called on a cell of a column without equality
    /// enabled.
    EqualityNotEnabled,
    /// A gate query would address a row outside the grid.
    OutOfRangeRotation,
    /// A region needed more rows than the grid has left.
    NotEnoughRows,
    /// A gate's selector is enabled at a row where a queried advice cell holds
    /// no known value.
    MissingAssignment,
}

} // verus!
