//! What can go wrong when a padset is built or used.

use crate::index::PadIndex;
use vstd::prelude::*;

verus! {

/// The page or pad whose digest did not match its lines.
#[derive(Clone, Copy, Debug, PartialEq, Eq, Structural)]
pub enum IntegrityScope {
    Page { nest: u32, pad: u32, page: u32 },
    Pad { nest: u32, pad: u32 },
}

/// The errors of the padset operations.
#[derive(Clone, Copy, Debug, PartialEq, Eq, Structural)]
pub enum PadError {
    /// The line at this index was consumed before, or never existed.
    NotFound(PadIndex),
    /// A digest does not match the lines it covers.
    IntegrityFailure(IntegrityScope),
    /// No line is left to encrypt with.
    PadExhausted,
    /// The bounds do not fit their width class, or describe more lines than
    /// can be addressed.
    InvalidBounds,
    /// The index does not lie within the bounds of the padset.
    InvalidIndex,
    /// The random source gave fewer bytes than the padset needs.
    Rng,
}

} // verus!
