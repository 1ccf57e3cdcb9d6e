//! Reading and consuming single lines, and finding the first line left.

use crate::error::PadError;
use crate::index::{lemma_at_rank, lemma_lex_is_rank_order, lemma_rank_in_range, PadIndex, PadIndexMaxSize};
use crate::store::{Padset, PadsetView};
use vstd::prelude::*;
use vstd::slice::slice_to_vec;

verus! {

/// The error for an index at which the padset holds no line.
pub open spec fn missing_line_error(s: PadsetView, idx: PadIndex) -> PadError {
    if idx.spec_is_within(s.bounds) {
        PadError::NotFound(idx)
    } else {
        PadError::InvalidIndex
    }
}

/// `first_present(from)` is the least rank at or after `from` whose line
/// exists, and `None` exactly when there is no such rank.
pub proof fn lemma_first_present(s: PadsetView, from: int)
    requires
        0 <= from,
    ensures
        match s.first_present(from) {
            Some(k) => {
                &&& from <= k < s.lines.len()
                &&& s.lines[k] is Some
                &&& forall|j: int| from <= j < k ==> s.lines[j] is None
            },
            None => forall|j: int| from <= j < s.lines.len() ==> s.lines[j] is None,
        },
    decreases s.lines.len() - from,
{
    if from < s.lines.len() && s.lines[from] is None {
        lemma_first_present(s, from + 1);
    }
}

/// The index that [`find_first_available_line`] returns: the one at the least
/// rank whose line exists, provided that the padset has the width class
/// asked for.
pub open spec fn first_available(s: PadsetView, width: PadIndexMaxSize) -> Option<PadIndex> {
    if width != s.bounds.width {
        None
    } else {
        match s.first_present(0) {
            Some(k) => Some(PadIndex::at_rank(k, s.bounds)),
            None => None,
        }
    }
}

/// Reads the line at `index` and leaves the padset as it is.
///
/// Fails with `InvalidIndex` where `index` lies outside the bounds of the
/// padset, and with `NotFound` where it lies inside and the line is gone.
pub fn read_padset_one_byteline(padset: &Padset, index: &PadIndex) -> (r: Result<
    Vec<u8>,
    PadError,
>)
    requires
        padset@.wf(),
    ensures
        match r {
            Ok(bytes) => padset@.line(*index) == Some(bytes@),
            Err(e) => padset@.line(*index) is None && e == missing_line_error(padset@, *index),
        },
{
    let bounds = padset.bounds();
    if !index.is_within(bounds) {
        return Err(PadError::InvalidIndex);
    }
    let _n: usize = padset.line_slots();
    let r: usize = index.rank_in(&bounds);
    match padset.peek_line(r) {
        Some(bytes) => Ok(slice_to_vec(bytes.as_slice())),
        None => Err(PadError::NotFound(*index)),
    }
}

/// Reads the line at `index` and removes it from the padset.
///
/// Fails as [`read_padset_one_byteline`] does, and then changes nothing.
pub fn padnet_load_delete_read_one_byteline(padset: &mut Padset, index: &PadIndex) -> (r: Result<
    Vec<u8>,
    PadError,
>)
    requires
        old(padset)@.wf(),
    ensures
        final(padset)@.wf(),
        match r {
            Ok(bytes) => {
                &&& old(padset)@.line(*index) == Some(bytes@)
                &&& final(padset)@ == old(padset)@.with_line(index.rank(old(padset)@.bounds), None)
                &&& final(padset)@.line(*index) is None
            },
            Err(e) => {
                &&& old(padset)@.line(*index) is None
                &&& e == missing_line_error(old(padset)@, *index)
                &&& final(padset)@ == old(padset)@
            },
        },
{
    let bounds = padset.bounds();
    if !index.is_within(bounds) {
        return Err(PadError::InvalidIndex);
    }
    let _n: usize = padset.line_slots();
    let r: usize = index.rank_in(&bounds);
    if padset.peek_line(r).is_none() {
        return Err(PadError::NotFound(*index));
    }
    match padset.take_line(r) {
        Some(bytes) => Ok(bytes),
        None => Err(PadError::NotFound(*index)),
    }
}

/// The first index, in the order of nest, pad, page and line, whose line
/// still exists; `None` where no line is left, or where the padset is not of
/// the width class `width`.
pub fn find_first_available_line(padset: &Padset, width: PadIndexMaxSize) -> (r: Option<PadIndex>)
    requires
        padset@.wf(),
    ensures
        r == first_available(padset@, width),
        match r {
            Some(idx) => {
                &&& idx.width == width
                &&& padset@.line(idx) is Some
                &&& forall|other: PadIndex| padset@.line(other) is Some ==> !other.lex_lt(idx)
            },
            None => width != padset@.bounds.width || forall|other: PadIndex|
                padset@.line(other) is None,
        },
{
    let bounds = padset.bounds();
    if width != bounds.width {
        return None;
    }
    let n: usize = padset.line_slots();
    let mut i: usize = 0;
    while i < n
        invariant
            i <= n,
            n == padset@.lines.len(),
            padset@.wf(),
            bounds == padset@.bounds,
            width == bounds.width,
            forall|j: int| 0 <= j < i ==> padset@.lines[j] is None,
        decreases n - i,
    {
        if padset.peek_line(i).is_some() {
            let idx = PadIndex::from_rank(i, &bounds);
            proof {
                lemma_first_present(padset@, 0);
                lemma_at_rank(i as int, bounds);
                assert forall|other: PadIndex| padset@.line(other) is Some implies !other.lex_lt(
                    idx,
                ) by {
                    lemma_rank_in_range(other, bounds);
                    lemma_lex_is_rank_order(other, idx, bounds);
                }
            }
            return Some(idx);
        }
        i += 1;
    }
    proof {
        lemma_first_present(padset@, 0);
        assert forall|other: PadIndex| padset@.line(other) is None by {
            if other.spec_is_within(bounds) {
                lemma_rank_in_range(other, bounds);
            }
        }
    }
    None
}

} // verus!
