//! The padset: its lines and digests, held in index order.
//!
//! Lines are numbered by the rank of their index under the bounds of the
//! padset, pages and pads likewise. A slot that holds nothing stands for a line
//! that was consumed, or for a digest that is absent.

use crate::error::PadError;
use crate::index::{lemma_counts_positive, PadIndex};
use vstd::prelude::*;

verus! {

/// The mathematical value of a padset.
pub struct PadsetView {
    /// The inclusive maximum of each index component.
    pub bounds: PadIndex,
    /// The lines by rank; `None` where the line does not exist.
    pub lines: Seq<Option<Seq<u8>>>,
    /// The content of each page's digest file by page rank, where there is one.
    pub page_digests: Seq<Option<Seq<u8>>>,
    /// The content of each pad's digest file by pad rank, where there is one.
    pub pad_digests: Seq<Option<Seq<u8>>>,
}

impl PadsetView {
    /// The bounds fit their width class and there is one slot for every line,
    /// page and pad under them.
    pub open spec fn wf(self) -> bool {
        &&& self.bounds.spec_fits_width()
        &&& self.lines.len() == self.bounds.line_count()
        &&& self.page_digests.len() == self.bounds.page_count()
        &&& self.pad_digests.len() == self.bounds.pad_count()
    }

    /// The padset under `bounds` that holds no line and no digest.
    pub open spec fn blank(bounds: PadIndex) -> PadsetView {
        PadsetView {
            bounds,
            lines: Seq::new(bounds.line_count() as nat, |i: int| None),
            page_digests: Seq::new(bounds.page_count() as nat, |i: int| None),
            pad_digests: Seq::new(bounds.pad_count() as nat, |i: int| None),
        }
    }

    /// The line at `idx`, if it exists.
    pub open spec fn line(self, idx: PadIndex) -> Option<Seq<u8>> {
        if idx.spec_is_within(self.bounds) {
            self.lines[idx.rank(self.bounds)]
        } else {
            None
        }
    }

    /// The digest file of the page of `idx`, if it exists.
    pub open spec fn page_digest(self, idx: PadIndex) -> Option<Seq<u8>> {
        if idx.spec_is_within(self.bounds) {
            self.page_digests[idx.page_rank(self.bounds)]
        } else {
            None
        }
    }

    /// The digest file of the pad of `idx`, if it exists.
    pub open spec fn pad_digest(self, idx: PadIndex) -> Option<Seq<u8>> {
        if idx.spec_is_within(self.bounds) {
            self.pad_digests[idx.pad_rank(self.bounds)]
        } else {
            None
        }
    }

    pub open spec fn with_line(self, r: int, line: Option<Seq<u8>>) -> PadsetView {
        PadsetView { lines: self.lines.update(r, line), ..self }
    }

    pub open spec fn with_page_digest(self, r: int, digest: Option<Seq<u8>>) -> PadsetView {
        PadsetView { page_digests: self.page_digests.update(r, digest), ..self }
    }

    pub open spec fn with_pad_digest(self, r: int, digest: Option<Seq<u8>>) -> PadsetView {
        PadsetView { pad_digests: self.pad_digests.update(r, digest), ..self }
    }

    /// The least rank at or after `from` whose line exists.
    pub open spec fn first_present(self, from: int) -> Option<int> {
        first_some(self.lines, from)
    }

    /// The present lines with ranks in `lo..hi`, joined in rank order.
    pub open spec fn content(self, lo: int, hi: int) -> Seq<u8> {
        joined(self.lines, lo, hi)
    }

    /// What the digest of page `r` covers: the lines of that page in order.
    pub open spec fn page_content(self, r: int) -> Seq<u8> {
        joined(self.lines, r * (self.bounds.line + 1), (r + 1) * (self.bounds.line + 1))
    }

    /// What the digest of pad `r` covers: the lines of that pad, page by page.
    pub open spec fn pad_content(self, r: int) -> Seq<u8> {
        joined(self.lines, r * self.bounds.lines_per_pad(), (r + 1) * self.bounds.lines_per_pad())
    }
}

/// The least position at or after `from` that holds a line.
pub open spec fn first_some(lines: Seq<Option<Seq<u8>>>, from: int) -> Option<int>
    decreases lines.len() - from,
{
    if from < 0 || from >= lines.len() {
        None
    } else if lines[from] is Some {
        Some(from)
    } else {
        first_some(lines, from + 1)
    }
}

/// The lines at positions `lo..hi` that exist, joined in order.
pub open spec fn joined(lines: Seq<Option<Seq<u8>>>, lo: int, hi: int) -> Seq<u8>
    decreases hi - lo,
{
    if hi <= lo {
        Seq::empty()
    } else {
        joined(lines, lo, hi - 1) + match lines[hi - 1] {
            Some(bytes) => bytes,
            None => Seq::empty(),
        }
    }
}

spec fn slot_view(slot: Option<Vec<u8>>) -> Option<Seq<u8>> {
    match slot {
        Some(bytes) => Some(bytes@),
        None => None,
    }
}

spec fn slots_view(slots: Seq<Option<Vec<u8>>>) -> Seq<Option<Seq<u8>>> {
    Seq::new(slots.len(), |i: int| slot_view(slots[i]))
}

fn empty_slots(n: usize) -> (slots: Vec<Option<Vec<u8>>>)
    ensures
        slots@.len() == n,
        forall|i: int| 0 <= i < n ==> slots@[i] is None,
{
    let mut slots: Vec<Option<Vec<u8>>> = Vec::new();
    let mut i: usize = 0;
    while i < n
        invariant
            i <= n,
            slots@.len() == i,
            forall|j: int| 0 <= j < i ==> slots@[j] is None,
        decreases n - i,
    {
        slots.push(None);
        i += 1;
    }
    slots
}

fn peek_slot(slots: &Vec<Option<Vec<u8>>>, r: usize) -> (slot: Option<&Vec<u8>>)
    requires
        r < slots@.len(),
    ensures
        slot is Some == slots@[r as int] is Some,
        slot is Some ==> slot.unwrap()@ == slots@[r as int].unwrap()@,
{
    slots[r].as_ref()
}

fn swap_slot(slots: &mut Vec<Option<Vec<u8>>>, r: usize, slot: Option<Vec<u8>>) -> (prior: Option<
    Vec<u8>,
>)
    requires
        r < old(slots)@.len(),
    ensures
        final(slots)@ == old(slots)@.update(r as int, slot),
        prior == old(slots)@[r as int],
{
    let mut held: Option<Vec<u8>> = slot;
    slots.set_and_swap(r, &mut held);
    held
}

/// A padset held in memory.
#[derive(Clone, Debug, PartialEq, Eq)]
pub struct Padset {
    bounds: PadIndex,
    lines: Vec<Option<Vec<u8>>>,
    page_digests: Vec<Option<Vec<u8>>>,
    pad_digests: Vec<Option<Vec<u8>>>,
}

impl View for Padset {
    type V = PadsetView;

    closed spec fn view(&self) -> PadsetView {
        PadsetView {
            bounds: self.bounds,
            lines: slots_view(self.lines@),
            page_digests: slots_view(self.page_digests@),
            pad_digests: slots_view(self.pad_digests@),
        }
    }
}

impl Padset {
    /// A padset under `bounds` with no line and no digest.
    ///
    /// Fails with `InvalidBounds` where a component of `bounds` does not fit
    /// its width class or the number of lines cannot be addressed.
    pub fn blank(bounds: &PadIndex) -> (r: Result<Padset, PadError>)
        ensures
            match r {
                Ok(p) => {
                    &&& bounds.spec_fits_width()
                    &&& bounds.line_count() <= usize::MAX
                    &&& p@ == PadsetView::blank(*bounds)
                    &&& p@.wf()
                },
                Err(e) => {
                    &&& e == PadError::InvalidBounds
                    &&& !(bounds.spec_fits_width() && bounds.line_count() <= usize::MAX)
                },
            },
    {
        if !bounds.fits_width() {
            return Err(PadError::InvalidBounds);
        }
        let line_n: usize = match bounds.checked_line_count() {
            Some(n) => n,
            None => {
                return Err(PadError::InvalidBounds);
            },
        };
        proof {
            lemma_counts_positive(*bounds);
        }
        let pad_n: usize = (bounds.nest as usize + 1) * (bounds.pad as usize + 1);
        let page_n: usize = pad_n * (bounds.page as usize + 1);
        let p = Padset {
            bounds: *bounds,
            lines: empty_slots(line_n),
            page_digests: empty_slots(page_n),
            pad_digests: empty_slots(pad_n),
        };
        assert(p@.lines =~= PadsetView::blank(*bounds).lines);
        assert(p@.page_digests =~= PadsetView::blank(*bounds).page_digests);
        assert(p@.pad_digests =~= PadsetView::blank(*bounds).pad_digests);
        Ok(p)
    }

    /// The bounds of the padset.
    pub fn bounds(&self) -> (b: PadIndex)
        ensures
            b == self@.bounds,
    {
        self.bounds
    }

    /// The number of line slots.
    pub fn line_slots(&self) -> (n: usize)
        ensures
            n == self@.lines.len(),
    {
        self.lines.len()
    }

    /// The line at rank `r`, if it exists.
    pub fn peek_line(&self, r: usize) -> (line: Option<&Vec<u8>>)
        requires
            r < self@.lines.len(),
        ensures
            line is Some == self@.lines[r as int] is Some,
            line is Some ==> line.unwrap()@ == self@.lines[r as int].unwrap(),
    {
        peek_slot(&self.lines, r)
    }

    /// Removes and returns the line at rank `r`, if it exists.
    pub fn take_line(&mut self, r: usize) -> (line: Option<Vec<u8>>)
        requires
            r < old(self)@.lines.len(),
        ensures
            final(self)@ == old(self)@.with_line(r as int, None),
            line is Some == old(self)@.lines[r as int] is Some,
            line is Some ==> line.unwrap()@ == old(self)@.lines[r as int].unwrap(),
    {
        let prior = swap_slot(&mut self.lines, r, None);
        assert(self@.lines =~= old(self)@.lines.update(r as int, None));
        prior
    }

    /// Puts `bytes` at rank `r`, replacing any line there.
    pub fn put_line(&mut self, r: usize, bytes: Vec<u8>)
        requires
            r < old(self)@.lines.len(),
        ensures
            final(self)@ == old(self)@.with_line(r as int, Some(bytes@)),
    {
        let _ = swap_slot(&mut self.lines, r, Some(bytes));
        assert(self@.lines =~= old(self)@.lines.update(r as int, Some(bytes@)));
    }

    /// The digest file of the page at rank `r`, if it exists.
    pub fn peek_page_digest(&self, r: usize) -> (digest: Option<&Vec<u8>>)
        requires
            r < self@.page_digests.len(),
        ensures
            digest is Some == self@.page_digests[r as int] is Some,
            digest is Some ==> digest.unwrap()@ == self@.page_digests[r as int].unwrap(),
    {
        peek_slot(&self.page_digests, r)
    }

    /// Sets or removes the digest file of the page at rank `r`.
    pub fn set_page_digest(&mut self, r: usize, digest: Option<Vec<u8>>)
        requires
            r < old(self)@.page_digests.len(),
        ensures
            final(self)@ == old(self)@.with_page_digest(
                r as int,
                match digest {
                    Some(d) => Some(d@),
                    None => None,
                },
            ),
    {
        let ghost shown = slot_view(digest);
        let _ = swap_slot(&mut self.page_digests, r, digest);
        assert(self@.page_digests =~= old(self)@.page_digests.update(r as int, shown));
    }

    /// The digest file of the pad at rank `r`, if it exists.
    pub fn peek_pad_digest(&self, r: usize) -> (digest: Option<&Vec<u8>>)
        requires
            r < self@.pad_digests.len(),
        ensures
            digest is Some == self@.pad_digests[r as int] is Some,
            digest is Some ==> digest.unwrap()@ == self@.pad_digests[r as int].unwrap(),
    {
        peek_slot(&self.pad_digests, r)
    }

    /// Sets or removes the digest file of the pad at rank `r`.
    pub fn set_pad_digest(&mut self, r: usize, digest: Option<Vec<u8>>)
        requires
            r < old(self)@.pad_digests.len(),
        ensures
            final(self)@ == old(self)@.with_pad_digest(
                r as int,
                match digest {
                    Some(d) => Some(d@),
                    None => None,
                },
            ),
    {
        let ghost shown = slot_view(digest);
        let _ = swap_slot(&mut self.pad_digests, r, digest);
        assert(self@.pad_digests =~= old(self)@.pad_digests.update(r as int, shown));
    }
}

} // verus!
