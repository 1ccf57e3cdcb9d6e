//! The streaming XOR cipher over a padset.
//!
//! Input is combined with the lines of the padset in index order. Each line
//! is guarded by the digest of its page, or else of its pad, where there is
//! one. Encrypting consumes the guard and the line; decrypting leaves the
//! padset as it is. A line serves one chunk: when the input ends within a
//! line, the rest of that line is discarded.

use crate::error::{IntegrityScope, PadError};
use crate::index::{lemma_mixed_radix, lemma_rank_in_range, lemma_successor_rank, PadIndex};
use crate::integrity::{
    check_pad,
    check_page,
    validate_and_consume_pad,
    validate_and_consume_page,
};
use crate::lines::{
    find_first_available_line,
    padnet_load_delete_read_one_byteline,
    read_padset_one_byteline,
};
use crate::store::{Padset, PadsetView};
use vstd::prelude::*;
use vstd::slice::slice_subrange;

verus! {

// ----- the model -----
/// Byte-wise XOR of `input` with `key`, as far as both reach.
pub open spec fn xor_bytes(input: Seq<u8>, key: Seq<u8>) -> Seq<u8> {
    Seq::new(
        if input.len() <= key.len() {
            input.len()
        } else {
            key.len()
        },
        |i: int| input[i] ^ key[i],
    )
}

impl PadsetView {
    /// The rank of the page that holds the line at rank `r`.
    pub open spec fn page_of(self, r: int) -> int {
        r / (self.bounds.line + 1)
    }

    /// The rank of the pad that holds the line at rank `r`.
    pub open spec fn pad_of(self, r: int) -> int {
        r / (self.bounds.line + 1) / (self.bounds.page + 1)
    }

    /// The line at rank `r` is guarded by the digest of its page.
    pub open spec fn guarded_by_page(self, r: int) -> bool {
        self.page_digests[self.page_of(r)] is Some
    }

    /// The guard of the line at rank `r` holds: the digest of its page where
    /// the page has one, else the digest of its pad where the pad has one,
    /// matches the lines it covers.
    pub open spec fn guard_holds(self, r: int) -> bool {
        if self.guarded_by_page(r) {
            self.page_valid(self.page_of(r))
        } else {
            self.pad_valid(self.pad_of(r))
        }
    }

    /// The padset after the guard of the line at rank `r` was consumed.
    pub open spec fn guard_released(self, r: int) -> PadsetView {
        if self.guarded_by_page(r) {
            self.with_page_digest(self.page_of(r), None)
        } else {
            self.with_pad_digest(self.pad_of(r), None)
        }
    }

    /// The page or pad that guards the line at rank `r`.
    pub open spec fn guard_scope(self, r: int) -> IntegrityScope {
        let at = PadIndex::at_rank(r, self.bounds);
        if self.guarded_by_page(r) {
            IntegrityScope::Page { nest: at.nest, pad: at.pad, page: at.page }
        } else {
            IntegrityScope::Pad { nest: at.nest, pad: at.pad }
        }
    }

    /// Reading the line at rank `r` behind its guard.
    pub open spec fn peeked(self, r: int) -> Result<Seq<u8>, PadError> {
        if !self.guard_holds(r) {
            Err(PadError::IntegrityFailure(self.guard_scope(r)))
        } else {
            match self.lines[r] {
                Some(key) => Ok(key),
                None => Err(PadError::NotFound(PadIndex::at_rank(r, self.bounds))),
            }
        }
    }

    /// Consuming the line at rank `r` behind its guard: the guard is checked
    /// first and nothing changes where it fails; then the guard is consumed,
    /// then the line.
    pub open spec fn taken(self, r: int) -> (PadsetView, Result<Seq<u8>, PadError>) {
        if !self.guard_holds(r) {
            (self, Err(PadError::IntegrityFailure(self.guard_scope(r))))
        } else {
            let released = self.guard_released(r);
            match released.lines[r] {
                Some(key) => (released.with_line(r, None), Ok(key)),
                None => (released, Err(PadError::NotFound(PadIndex::at_rank(r, self.bounds)))),
            }
        }
    }
}

/// How a run of the cipher ended: the padset it left, what it wrote, and
/// the error that stopped it, if one did.
pub struct Passage {
    pub store: PadsetView,
    pub output: Seq<u8>,
    pub failure: Option<PadError>,
}

/// Encrypting `input` with the lines from rank `r` on.
pub open spec fn write_from(s: PadsetView, r: int, input: Seq<u8>) -> Passage
    decreases s.bounds.line_count() - r,
{
    let (after, key) = s.taken(r);
    match key {
        Err(e) => Passage { store: after, output: Seq::empty(), failure: Some(e) },
        Ok(key) => {
            let head = xor_bytes(input, key);
            if input.len() < key.len() {
                Passage { store: after, output: head, failure: None }
            } else if r + 1 >= s.bounds.line_count() {
                Passage { store: after, output: head, failure: Some(PadError::PadExhausted) }
            } else {
                let rest = write_from(after, r + 1, input.skip(key.len() as int));
                Passage { store: rest.store, output: head + rest.output, failure: rest.failure }
            }
        },
    }
}

/// Decrypting `input` with the lines from rank `r` on.
pub open spec fn read_from(s: PadsetView, r: int, input: Seq<u8>) -> Passage
    decreases s.bounds.line_count() - r,
{
    match s.peeked(r) {
        Err(e) => Passage { store: s, output: Seq::empty(), failure: Some(e) },
        Ok(key) => {
            let head = xor_bytes(input, key);
            if input.len() < key.len() {
                Passage { store: s, output: head, failure: None }
            } else if r + 1 >= s.bounds.line_count() {
                Passage { store: s, output: head, failure: Some(PadError::PadExhausted) }
            } else {
                let rest = read_from(s, r + 1, input.skip(key.len() as int));
                Passage { store: s, output: head + rest.output, failure: rest.failure }
            }
        },
    }
}

/// The whole of writer mode: start at the first line left.
pub open spec fn writer_outcome(s: PadsetView, input: Seq<u8>) -> Passage {
    match s.first_present(0) {
        Some(r) => write_from(s, r, input),
        None => Passage { store: s, output: Seq::empty(), failure: Some(PadError::PadExhausted) },
    }
}

/// The whole of reader mode: start at the index given.
pub open spec fn reader_outcome(s: PadsetView, start: PadIndex, input: Seq<u8>) -> Passage {
    if start.spec_is_within(s.bounds) {
        read_from(s, start.rank(s.bounds), input)
    } else {
        Passage { store: s, output: Seq::empty(), failure: Some(PadError::InvalidIndex) }
    }
}

/// What follows a line of `line_length` bytes that served `used` bytes of
/// input: the end, the next index, or exhaustion.
pub open spec fn following(current: PadIndex, bounds: PadIndex, used: nat, line_length: nat)
    -> Result<Option<PadIndex>, PadError> {
    if used < line_length {
        Ok(None)
    } else {
        match current.successor(bounds) {
            Some(next) => Ok(Some(next)),
            None => Err(PadError::PadExhausted),
        }
    }
}

/// What a reader has already found valid in a padset: the rank of a page
/// and the rank of a pad. It spares a reader run the check of one digest for
/// every line that the digest covers.
pub struct Validated {
    page: Option<usize>,
    pad: Option<usize>,
}

impl Validated {
    /// What is remembered is true of the padset: the page and the pad
    /// remembered, if any, pass validation.
    #[verifier::opaque]
    pub closed spec fn holds(self, s: PadsetView) -> bool {
        &&& self.page matches Some(r) ==> r < s.page_digests.len() && s.page_valid(r as int)
        &&& self.pad matches Some(r) ==> r < s.pad_digests.len() && s.pad_valid(r as int)
    }

    /// Nothing validated yet, which is true of every padset.
    pub fn new() -> (v: Validated)
        ensures
            forall|s: PadsetView| v.holds(s),
    {
        proof {
            reveal(Validated::holds);
        }
        Validated { page: None, pad: None }
    }
}

/// The page and pad of an index within bounds have the ranks that division
/// of the line's rank gives.
pub proof fn lemma_scope_ranks(s: PadsetView, idx: PadIndex)
    requires
        s.wf(),
        idx.spec_is_within(s.bounds),
    ensures
        s.page_of(idx.rank(s.bounds)) == idx.page_rank(s.bounds),
        s.pad_of(idx.rank(s.bounds)) == idx.pad_rank(s.bounds),
        0 <= idx.rank(s.bounds) < s.lines.len(),
        0 <= idx.page_rank(s.bounds) < s.page_digests.len(),
        0 <= idx.pad_rank(s.bounds) < s.pad_digests.len(),
        PadIndex::at_rank(idx.rank(s.bounds), s.bounds) == idx,
{
    let b = s.bounds;
    lemma_rank_in_range(idx, b);
    lemma_mixed_radix(idx.page_rank(b), b.page_count(), idx.line as int, b.line + 1);
    lemma_mixed_radix(idx.pad_rank(b), b.pad_count(), idx.page as int, b.page + 1);
}

// ----- single steps -----
/// Appends to `out` the XOR of `input` with `key`, as far as both reach.
pub fn xor_into(out: &mut Vec<u8>, input: &[u8], key: &[u8])
    ensures
        final(out)@ == old(out)@ + xor_bytes(input@, key@),
{
    let n: usize = if input.len() <= key.len() {
        input.len()
    } else {
        key.len()
    };
    let mut i: usize = 0;
    while i < n
        invariant
            i <= n,
            n <= input@.len(),
            n <= key@.len(),
            out@.len() == old(out)@.len() + i,
            forall|j: int| 0 <= j < old(out)@.len() ==> out@[j] == old(out)@[j],
            forall|j: int| 0 <= j < i ==> out@[old(out)@.len() + j] == input@[j] ^ key@[j],
        decreases n - i,
    {
        out.push(input[i] ^ key[i]);
        i += 1;
    }
    assert(out@ =~= old(out)@ + xor_bytes(input@, key@));
}

/// Writer mode: checks and consumes the guard of the line at `current`,
/// then reads and removes the line.
pub fn writer_take_line(padset: &mut Padset, current: &PadIndex) -> (r: Result<Vec<u8>, PadError>)
    requires
        old(padset)@.wf(),
        current.spec_is_within(old(padset)@.bounds),
    ensures
        final(padset)@.wf(),
        final(padset)@ == old(padset)@.taken(current.rank(old(padset)@.bounds)).0,
        match r {
            Ok(key) => old(padset)@.taken(current.rank(old(padset)@.bounds)).1 == Ok::<
                Seq<u8>,
                PadError,
            >(key@),
            Err(e) => old(padset)@.taken(current.rank(old(padset)@.bounds)).1 == Err::<
                Seq<u8>,
                PadError,
            >(e),
        },
{
    let bounds = padset.bounds();
    let _n: usize = padset.line_slots();
    proof {
        lemma_scope_ranks(padset@, *current);
    }
    let pr: usize = current.page_rank_in(&bounds);
    let guarded = if padset.peek_page_digest(pr).is_some() {
        validate_and_consume_page(padset, current.nest, current.pad, current.page)
    } else {
        validate_and_consume_pad(padset, current.nest, current.pad)
    };
    match guarded {
        Err(e) => Err(e),
        Ok(()) => padnet_load_delete_read_one_byteline(padset, current),
    }
}

/// Reader mode: checks the guard of the line at `current`, unless `seen`
/// remembers that it holds, and reads the line.
pub fn reader_take_line(padset: &Padset, current: &PadIndex, seen: &mut Validated) -> (r: Result<
    Vec<u8>,
    PadError,
>)
    requires
        padset@.wf(),
        current.spec_is_within(padset@.bounds),
        old(seen).holds(padset@),
    ensures
        final(seen).holds(padset@),
        match r {
            Ok(key) => padset@.peeked(current.rank(padset@.bounds)) == Ok::<Seq<u8>, PadError>(
                key@,
            ),
            Err(e) => padset@.peeked(current.rank(padset@.bounds)) == Err::<Seq<u8>, PadError>(e),
        },
{
    let bounds = padset.bounds();
    let _n: usize = padset.line_slots();
    proof {
        reveal(Validated::holds);
        lemma_scope_ranks(padset@, *current);
    }
    let pr: usize = current.page_rank_in(&bounds);
    let dr: usize = current.pad_rank_in(&bounds);
    if padset.peek_page_digest(pr).is_some() {
        let known: bool = match seen.page {
            Some(p) => p == pr,
            None => false,
        };
        if !known {
            if !check_page(padset, pr) {
                return Err(
                    PadError::IntegrityFailure(
                        IntegrityScope::Page {
                            nest: current.nest,
                            pad: current.pad,
                            page: current.page,
                        },
                    ),
                );
            }
            seen.page = Some(pr);
        }
    } else {
        let known: bool = match seen.pad {
            Some(p) => p == dr,
            None => false,
        };
        if !known {
            if !check_pad(padset, dr) {
                return Err(
                    PadError::IntegrityFailure(
                        IntegrityScope::Pad { nest: current.nest, pad: current.pad },
                    ),
                );
            }
            seen.pad = Some(dr);
        }
    }
    read_padset_one_byteline(padset, current)
}

/// Decides what follows a line of `line_length` bytes that served `used`
/// bytes of input: `Ok(None)` where the input ended within the line, the next
/// index where there is one, and `PadExhausted` where there is none.
pub fn step_after(current: &PadIndex, bounds: &PadIndex, used: usize, line_length: usize) -> (r:
    Result<Option<PadIndex>, PadError>)
    ensures
        r == following(*current, *bounds, used as nat, line_length as nat),
{
    if used < line_length {
        Ok(None)
    } else {
        match current.increment(bounds) {
            Ok(next) => Ok(Some(next)),
            Err(_) => Err(PadError::PadExhausted),
        }
    }
}

// ----- whole runs -----
/// One round of writer mode: the line at `current` serves the input from
/// `pos` on. Returns the next index and input position where the run goes on.
fn writer_round(
    plaintext: &[u8],
    pos: usize,
    ciphertext: &mut Vec<u8>,
    padset: &mut Padset,
    current: &PadIndex,
) -> (r: Result<Option<(PadIndex, usize)>, PadError>)
    requires
        old(padset)@.wf(),
        current.spec_is_within(old(padset)@.bounds),
        pos <= plaintext@.len(),
    ensures
        final(padset)@.wf(),
        final(padset)@.bounds == old(padset)@.bounds,
        ({
            let bounds = old(padset)@.bounds;
            let run = write_from(
                old(padset)@,
                current.rank(bounds),
                plaintext@.skip(pos as int),
            );
            match r {
                Ok(Some((next, resume))) => {
                    let rest = write_from(
                        final(padset)@,
                        next.rank(bounds),
                        plaintext@.skip(resume as int),
                    );
                    &&& next.spec_is_within(bounds)
                    &&& next.rank(bounds) == current.rank(bounds) + 1
                    &&& next.rank(bounds) < bounds.line_count()
                    &&& pos <= resume <= plaintext@.len()
                    &&& final(ciphertext)@.len() == old(ciphertext)@.len() + (resume - pos)
                    &&& run.store == rest.store
                    &&& run.failure == rest.failure
                    &&& old(ciphertext)@ + run.output == final(ciphertext)@ + rest.output
                },
                Ok(None) => {
                    &&& run.store == final(padset)@
                    &&& run.failure is None
                    &&& old(ciphertext)@ + run.output == final(ciphertext)@
                    &&& final(ciphertext)@.len() == old(ciphertext)@.len() + (plaintext@.len()
                        - pos)
                },
                Err(e) => {
                    &&& run.store == final(padset)@
                    &&& run.failure == Some(e)
                    &&& old(ciphertext)@ + run.output == final(ciphertext)@
                },
            }
        }),
{
    let bounds = padset.bounds();
    let ghost r = current.rank(bounds);
    let ghost input = plaintext@.skip(pos as int);
    let ghost done = ciphertext@;
    proof {
        lemma_scope_ranks(padset@, *current);
        lemma_successor_rank(*current, bounds);
    }
    let key = match writer_take_line(padset, current) {
        Ok(key) => key,
        Err(e) => {
            assert(done + Seq::<u8>::empty() =~= done);
            return Err(e);
        },
    };
    let left: usize = plaintext.len() - pos;
    let used: usize = if left < key.len() {
        left
    } else {
        key.len()
    };
    xor_into(ciphertext, slice_subrange(plaintext, pos, pos + used), key.as_slice());
    let ghost head = xor_bytes(input, key@);
    assert(xor_bytes(plaintext@.subrange(pos as int, pos + used), key@) =~= head);
    match step_after(current, &bounds, used, key.len()) {
        Ok(None) => Ok(None),
        Err(e) => Err(e),
        Ok(Some(next)) => {
            proof {
                lemma_rank_in_range(next, bounds);
            }
            let ghost tail = write_from(padset@, r + 1, input.skip(key@.len() as int));
            assert(input.skip(key@.len() as int) =~= plaintext@.skip(pos + used));
            assert(done + (head + tail.output) =~= (done + head) + tail.output);
            Ok(Some((next, pos + used)))
        },
    }
}

/// One round of reader mode: the line at `current` serves the input from
/// `pos` on. Returns the next index and input position where the run goes on.
fn reader_round(
    ciphertext: &[u8],
    pos: usize,
    plaintext: &mut Vec<u8>,
    padset: &Padset,
    current: &PadIndex,
    seen: &mut Validated,
) -> (r: Result<Option<(PadIndex, usize)>, PadError>)
    requires
        padset@.wf(),
        current.spec_is_within(padset@.bounds),
        pos <= ciphertext@.len(),
        old(seen).holds(padset@),
    ensures
        final(seen).holds(padset@),
        ({
            let bounds = padset@.bounds;
            let run = read_from(padset@, current.rank(bounds), ciphertext@.skip(pos as int));
            match r {
                Ok(Some((next, resume))) => {
                    let rest = read_from(
                        padset@,
                        next.rank(bounds),
                        ciphertext@.skip(resume as int),
                    );
                    &&& next.spec_is_within(bounds)
                    &&& next.rank(bounds) == current.rank(bounds) + 1
                    &&& next.rank(bounds) < bounds.line_count()
                    &&& pos <= resume <= ciphertext@.len()
                    &&& final(plaintext)@.len() == old(plaintext)@.len() + (resume - pos)
                    &&& run.failure == rest.failure
                    &&& old(plaintext)@ + run.output == final(plaintext)@ + rest.output
                },
                Ok(None) => {
                    &&& run.failure is None
                    &&& old(plaintext)@ + run.output == final(plaintext)@
                    &&& final(plaintext)@.len() == old(plaintext)@.len() + (ciphertext@.len()
                        - pos)
                },
                Err(e) => {
                    &&& run.failure == Some(e)
                    &&& old(plaintext)@ + run.output == final(plaintext)@
                },
            }
        }),
{
    let bounds = padset.bounds();
    let ghost r = current.rank(bounds);
    let ghost input = ciphertext@.skip(pos as int);
    let ghost done = plaintext@;
    proof {
        lemma_scope_ranks(padset@, *current);
        lemma_successor_rank(*current, bounds);
    }
    let key = match reader_take_line(padset, current, seen) {
        Ok(key) => key,
        Err(e) => {
            assert(done + Seq::<u8>::empty() =~= done);
            return Err(e);
        },
    };
    let left: usize = ciphertext.len() - pos;
    let used: usize = if left < key.len() {
        left
    } else {
        key.len()
    };
    xor_into(plaintext, slice_subrange(ciphertext, pos, pos + used), key.as_slice());
    let ghost head = xor_bytes(input, key@);
    assert(xor_bytes(ciphertext@.subrange(pos as int, pos + used), key@) =~= head);
    match step_after(current, &bounds, used, key.len()) {
        Ok(None) => Ok(None),
        Err(e) => Err(e),
        Ok(Some(next)) => {
            proof {
                lemma_rank_in_range(next, bounds);
            }
            let ghost tail = read_from(padset@, r + 1, input.skip(key@.len() as int));
            assert(input.skip(key@.len() as int) =~= ciphertext@.skip(pos + used));
            assert(done + (head + tail.output) =~= (done + head) + tail.output);
            Ok(Some((next, pos + used)))
        },
    }
}

/// Writer mode. Encrypts `plaintext` into `ciphertext`, which is emptied
/// first, with the lines of `padset` from the first one left, and consumes
/// those lines and their guards.
///
/// Returns the index of the first line used, which the decrypting side needs,
/// and the number of bytes written. On an error `ciphertext` holds what was
/// written before it, and what was consumed stays consumed.
pub fn padnet_writer_strict_cleanup_continuous_xor_file(
    plaintext: &[u8],
    ciphertext: &mut Vec<u8>,
    padset: &mut Padset,
) -> (r: Result<(PadIndex, usize), PadError>)
    requires
        old(padset)@.wf(),
    ensures
        final(padset)@.wf(),
        final(padset)@ == writer_outcome(old(padset)@, plaintext@).store,
        final(ciphertext)@ == writer_outcome(old(padset)@, plaintext@).output,
        match r {
            Ok((start, count)) => {
                &&& writer_outcome(old(padset)@, plaintext@).failure is None
                &&& old(padset)@.first_present(0) is Some
                &&& start == PadIndex::at_rank(
                    old(padset)@.first_present(0).unwrap(),
                    old(padset)@.bounds,
                )
                &&& count == plaintext@.len()
                &&& count == final(ciphertext)@.len()
            },
            Err(e) => writer_outcome(old(padset)@, plaintext@).failure == Some(e),
        },
{
    ciphertext.clear();
    let ghost s0 = padset@;
    let ghost whole = writer_outcome(s0, plaintext@);
    let bounds = padset.bounds();
    let start = match find_first_available_line(padset, bounds.width) {
        Some(idx) => idx,
        None => {
            return Err(PadError::PadExhausted);
        },
    };
    let mut current = start;
    let mut pos: usize = 0;
    proof {
        crate::lines::lemma_first_present(s0, 0);
        crate::index::lemma_at_rank(s0.first_present(0).unwrap(), bounds);
        assert(plaintext@.skip(0) =~= plaintext@);
        assert(ciphertext@ + whole.output =~= whole.output);
    }
    loop
        invariant
            pos <= plaintext@.len(),
            s0 == old(padset)@,
            whole == writer_outcome(s0, plaintext@),
            s0.first_present(0) is Some,
            start == PadIndex::at_rank(s0.first_present(0).unwrap(), s0.bounds),
            padset@.wf(),
            padset@.bounds == bounds,
            current.spec_is_within(bounds),
            ciphertext@.len() == pos,
            whole.store == write_from(
                padset@,
                current.rank(bounds),
                plaintext@.skip(pos as int),
            ).store,
            whole.failure == write_from(
                padset@,
                current.rank(bounds),
                plaintext@.skip(pos as int),
            ).failure,
            whole.output == ciphertext@ + write_from(
                padset@,
                current.rank(bounds),
                plaintext@.skip(pos as int),
            ).output,
        decreases bounds.line_count() - current.rank(bounds),
    {
        match writer_round(plaintext, pos, ciphertext, padset, &current) {
            Ok(Some((next, resume))) => {
                current = next;
                pos = resume;
            },
            Ok(None) => {
                return Ok((start, plaintext.len()));
            },
            Err(e) => {
                return Err(e);
            },
        }
    }
}

/// Reader mode. Decrypts `ciphertext` into `plaintext`, which is emptied
/// first, with the lines of `padset` from `start` on, and leaves the padset
/// as it is.
///
/// Returns the number of bytes written. On an error `plaintext` holds what
/// was written before it. Fails with `InvalidIndex` where `start` lies
/// outside the bounds of the padset.
pub fn padnet_reader_xor_file(
    ciphertext: &[u8],
    plaintext: &mut Vec<u8>,
    padset: &Padset,
    start: &PadIndex,
) -> (r: Result<usize, PadError>)
    requires
        padset@.wf(),
    ensures
        final(plaintext)@ == reader_outcome(padset@, *start, ciphertext@).output,
        match r {
            Ok(count) => {
                &&& reader_outcome(padset@, *start, ciphertext@).failure is None
                &&& count == ciphertext@.len()
                &&& count == final(plaintext)@.len()
            },
            Err(e) => reader_outcome(padset@, *start, ciphertext@).failure == Some(e),
        },
{
    plaintext.clear();
    let ghost whole = reader_outcome(padset@, *start, ciphertext@);
    let bounds = padset.bounds();
    if !start.is_within(bounds) {
        return Err(PadError::InvalidIndex);
    }
    let mut current = *start;
    let mut pos: usize = 0;
    let mut seen = Validated::new();
    proof {
        assert(ciphertext@.skip(0) =~= ciphertext@);
        assert(plaintext@ + whole.output =~= whole.output);
    }
    loop
        invariant
            pos <= ciphertext@.len(),
            whole == reader_outcome(padset@, *start, ciphertext@),
            padset@.wf(),
            padset@.bounds == bounds,
            seen.holds(padset@),
            current.spec_is_within(bounds),
            plaintext@.len() == pos,
            whole.failure == read_from(
                padset@,
                current.rank(bounds),
                ciphertext@.skip(pos as int),
            ).failure,
            whole.output == plaintext@ + read_from(
                padset@,
                current.rank(bounds),
                ciphertext@.skip(pos as int),
            ).output,
        decreases bounds.line_count() - current.rank(bounds),
    {
        match reader_round(ciphertext, pos, plaintext, padset, &current, &mut seen) {
            Ok(Some((next, resume))) => {
                current = next;
                pos = resume;
            },
            Ok(None) => {
                return Ok(ciphertext.len());
            },
            Err(e) => {
                return Err(e);
            },
        }
    }
}

} // verus!
