//! The order of indices: by nest, then pad, then page, then line. Indices of
//! different width classes are not comparable.

use crate::index::PadIndex;
use std::cmp::Ordering;
use vstd::prelude::*;
use vstd::std_specs::cmp::PartialOrdSpecImpl;

verus! {

impl PartialOrd for PadIndex {
    fn partial_cmp(&self, other: &PadIndex) -> (r: Option<Ordering>) {
        if self.width != other.width {
            None
        } else if self.precedes(other) {
            Some(Ordering::Less)
        } else if other.precedes(self) {
            Some(Ordering::Greater)
        } else {
            Some(Ordering::Equal)
        }
    }
}

impl PartialOrdSpecImpl for PadIndex {
    open spec fn obeys_partial_cmp_spec() -> bool {
        true
    }

    open spec fn partial_cmp_spec(&self, other: &PadIndex) -> Option<Ordering> {
        if self.width != other.width {
            None
        } else if self.lex_lt(*other) {
            Some(Ordering::Less)
        } else if other.lex_lt(*self) {
            Some(Ordering::Greater)
        } else {
            Some(Ordering::Equal)
        }
    }
}

} // verus!
