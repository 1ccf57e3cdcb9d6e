//! Digests of pages and pads: how they are made, checked and consumed.
//!
//! A digest file holds the SHA-256 digest of the lines it covers, joined in
//! index order, as lowercase hexadecimal. A page or pad can only be checked
//! while all its lines are there, so the encrypting side removes a digest as
//! soon as it has matched: one altered byte anywhere in a page keeps every
//! line of that page from being used.

use crate::error::{IntegrityScope, PadError};
use crate::index::{lemma_counts_positive, lemma_mixed_radix, PadIndex};
use crate::sha256::{sha256, spec_sha256};
use crate::store::{Padset, PadsetView};
use vstd::prelude::*;

verus! {

/// At which granularity a padset carries digests.
#[derive(Clone, Copy, Debug, PartialEq, Eq, Structural)]
pub enum ValidationLevel {
    /// No digests.
    NoneLevel,
    /// One digest per page.
    PageLevel,
    /// One digest per pad.
    PadLevel,
}

// ----- the model -----
/// The lowercase hexadecimal digit of a value below 16.
pub open spec fn hex_digit(n: u8) -> u8 {
    if n < 10 {
        (48 + n) as u8
    } else {
        (87 + n) as u8
    }
}

/// Lowercase hexadecimal, two digits per byte, high digit first.
pub open spec fn hex(bytes: Seq<u8>) -> Seq<u8> {
    Seq::new(
        2 * bytes.len(),
        |i: int|
            hex_digit(
                if i % 2 == 0 {
                    bytes[i / 2] >> 4u8
                } else {
                    bytes[i / 2] & 0x0fu8
                },
            ),
    )
}

/// The content of the digest file for `content`.
pub open spec fn digest_of(content: Seq<u8>) -> Seq<u8> {
    hex(spec_sha256(content))
}

/// A stored digest file matches `content`; one trailing newline is tolerated.
pub open spec fn digest_matches(stored: Seq<u8>, content: Seq<u8>) -> bool {
    stored == digest_of(content) || stored == digest_of(content).push(10u8)
}

impl PadsetView {
    /// The page at rank `r` passes validation: it has no digest, or its
    /// digest matches its lines.
    pub open spec fn page_valid(self, r: int) -> bool {
        match self.page_digests[r] {
            Some(stored) => digest_matches(stored, self.page_content(r)),
            None => true,
        }
    }

    /// The pad at rank `r` passes validation: it has no digest, or its
    /// digest matches its lines.
    pub open spec fn pad_valid(self, r: int) -> bool {
        match self.pad_digests[r] {
            Some(stored) => digest_matches(stored, self.pad_content(r)),
            None => true,
        }
    }
}

/// The index of line 0 of a page.
pub open spec fn page_head(bounds: PadIndex, nest: u32, pad: u32, page: u32) -> PadIndex {
    PadIndex { nest, pad, page, line: 0, width: bounds.width }
}

/// The index of line 0 of page 0 of a pad.
pub open spec fn pad_head(bounds: PadIndex, nest: u32, pad: u32) -> PadIndex {
    PadIndex { nest, pad, page: 0, line: 0, width: bounds.width }
}

// ----- bytes -----
/// Appends `bytes` to `out`.
pub fn append_bytes(out: &mut Vec<u8>, bytes: &[u8])
    ensures
        final(out)@ == old(out)@ + bytes@,
{
    let n: usize = bytes.len();
    let mut i: usize = 0;
    while i < n
        invariant
            i <= n,
            n == bytes@.len(),
            out@ == old(out)@ + bytes@.subrange(0, i as int),
        decreases n - i,
    {
        out.push(bytes[i]);
        i += 1;
        assert(out@ =~= old(out)@ + bytes@.subrange(0, i as int));
    }
    assert(bytes@.subrange(0, n as int) =~= bytes@);
}

/// Whether two byte strings are equal.
pub fn bytes_equal(a: &[u8], b: &[u8]) -> (r: bool)
    ensures
        r == (a@ == b@),
{
    if a.len() != b.len() {
        return false;
    }
    let n: usize = a.len();
    let mut i: usize = 0;
    while i < n
        invariant
            i <= n,
            n == a@.len(),
            n == b@.len(),
            forall|j: int| 0 <= j < i ==> a@[j] == b@[j],
        decreases n - i,
    {
        if a[i] != b[i] {
            return false;
        }
        i += 1;
    }
    assert(a@ =~= b@);
    true
}

fn hex_digit_of(n: u8) -> (d: u8)
    requires
        n < 16,
    ensures
        d == hex_digit(n),
{
    if n < 10 {
        48 + n
    } else {
        87 + n
    }
}

/// Renders `bytes` as lowercase hexadecimal.
pub fn to_hex(bytes: &[u8]) -> (out: Vec<u8>)
    ensures
        out@ == hex(bytes@),
{
    let n: usize = bytes.len();
    let mut out: Vec<u8> = Vec::new();
    let mut i: usize = 0;
    while i < n
        invariant
            i <= n,
            n == bytes@.len(),
            out@.len() == 2 * i,
            forall|j: int| 0 <= j < 2 * i ==> out@[j] == hex(bytes@)[j],
        decreases n - i,
    {
        let b: u8 = bytes[i];
        assert((b >> 4u8) < 16 && (b & 0x0fu8) < 16) by (bit_vector);
        out.push(hex_digit_of(b >> 4u8));
        out.push(hex_digit_of(b & 0x0fu8));
        i += 1;
    }
    assert(out@ =~= hex(bytes@));
    out
}

/// The content of the digest file for `content`.
pub fn content_digest(content: &[u8]) -> (out: Vec<u8>)
    ensures
        out@ == digest_of(content@),
{
    let d = sha256(content);
    to_hex(d.as_slice())
}

/// Whether the digest file `stored` matches `content`.
pub fn digest_file_matches(stored: &[u8], content: &[u8]) -> (r: bool)
    ensures
        r == digest_matches(stored@, content@),
{
    let mut expected = content_digest(content);
    if bytes_equal(stored, expected.as_slice()) {
        return true;
    }
    expected.push(10u8);
    bytes_equal(stored, expected.as_slice())
}

// ----- what a digest covers -----
/// The lines with ranks in `lo..hi` that exist, joined in rank order.
pub fn gather_lines(padset: &Padset, lo: usize, hi: usize) -> (out: Vec<u8>)
    requires
        lo <= hi <= padset@.lines.len(),
    ensures
        out@ == padset@.content(lo as int, hi as int),
{
    let mut out: Vec<u8> = Vec::new();
    let mut r: usize = lo;
    while r < hi
        invariant
            lo <= r <= hi <= padset@.lines.len(),
            out@ == padset@.content(lo as int, r as int),
        decreases hi - r,
    {
        match padset.peek_line(r) {
            Some(bytes) => {
                append_bytes(&mut out, bytes.as_slice());
            },
            None => {
                assert(out@ + Seq::<u8>::empty() =~= out@);
            },
        }
        r += 1;
    }
    out
}

/// The first and one past the last line rank of the page at rank `r`.
pub fn page_span(padset: &Padset, r: usize) -> (span: (usize, usize))
    requires
        padset@.wf(),
        r < padset@.page_digests.len(),
    ensures
        span.0 == r * (padset@.bounds.line + 1),
        span.1 == (r + 1) * (padset@.bounds.line + 1),
        span.0 < span.1 <= padset@.lines.len(),
{
    let bounds = padset.bounds();
    let _n: usize = padset.line_slots();
    proof {
        lemma_counts_positive(bounds);
        lemma_mixed_radix(r as int, bounds.page_count(), 0, bounds.line + 1);
        assert((r + 1) * (bounds.line + 1) == r * (bounds.line + 1) + (bounds.line + 1))
            by (nonlinear_arith);
        assert((r + 1) * (bounds.line + 1) <= bounds.page_count() * (bounds.line + 1))
            by (nonlinear_arith)
            requires
                r + 1 <= bounds.page_count(),
        ;
    }
    let per: usize = bounds.line as usize + 1;
    let lo: usize = r * per;
    (lo, lo + per)
}

/// The first and one past the last line rank of the pad at rank `r`.
pub fn pad_span(padset: &Padset, r: usize) -> (span: (usize, usize))
    requires
        padset@.wf(),
        r < padset@.pad_digests.len(),
    ensures
        span.0 == r * padset@.bounds.lines_per_pad(),
        span.1 == (r + 1) * padset@.bounds.lines_per_pad(),
        span.0 < span.1 <= padset@.lines.len(),
{
    let bounds = padset.bounds();
    let _n: usize = padset.line_slots();
    proof {
        lemma_counts_positive(bounds);
        let per = bounds.lines_per_pad();
        lemma_mixed_radix(r as int, bounds.pad_count(), 0, per);
        assert((r + 1) * per == r * per + per) by (nonlinear_arith);
        assert((r + 1) * per <= bounds.pad_count() * per) by (nonlinear_arith)
            requires
                r + 1 <= bounds.pad_count(),
                per >= 0,
        ;
    }
    let per: usize = (bounds.page as usize + 1) * (bounds.line as usize + 1);
    let lo: usize = r * per;
    (lo, lo + per)
}

/// Whether the page at rank `r` passes validation.
pub fn check_page(padset: &Padset, r: usize) -> (ok: bool)
    requires
        padset@.wf(),
        r < padset@.page_digests.len(),
    ensures
        ok == padset@.page_valid(r as int),
{
    match padset.peek_page_digest(r) {
        None => true,
        Some(stored) => {
            let (lo, hi) = page_span(padset, r);
            let content = gather_lines(padset, lo, hi);
            digest_file_matches(stored.as_slice(), content.as_slice())
        },
    }
}

/// Whether the pad at rank `r` passes validation.
pub fn check_pad(padset: &Padset, r: usize) -> (ok: bool)
    requires
        padset@.wf(),
        r < padset@.pad_digests.len(),
    ensures
        ok == padset@.pad_valid(r as int),
{
    match padset.peek_pad_digest(r) {
        None => true,
        Some(stored) => {
            let (lo, hi) = pad_span(padset, r);
            let content = gather_lines(padset, lo, hi);
            digest_file_matches(stored.as_slice(), content.as_slice())
        },
    }
}

/// Stores the digest of the lines of the page at rank `r` as its digest file.
pub fn seal_page(padset: &mut Padset, r: usize)
    requires
        old(padset)@.wf(),
        r < old(padset)@.page_digests.len(),
    ensures
        final(padset)@ == old(padset)@.with_page_digest(
            r as int,
            Some(digest_of(old(padset)@.page_content(r as int))),
        ),
{
    let (lo, hi) = page_span(padset, r);
    let content = gather_lines(padset, lo, hi);
    let digest = content_digest(content.as_slice());
    padset.set_page_digest(r, Some(digest));
}

/// Stores the digest of the lines of the pad at rank `r` as its digest file.
pub fn seal_pad(padset: &mut Padset, r: usize)
    requires
        old(padset)@.wf(),
        r < old(padset)@.pad_digests.len(),
    ensures
        final(padset)@ == old(padset)@.with_pad_digest(
            r as int,
            Some(digest_of(old(padset)@.pad_content(r as int))),
        ),
{
    let (lo, hi) = pad_span(padset, r);
    let content = gather_lines(padset, lo, hi);
    let digest = content_digest(content.as_slice());
    padset.set_pad_digest(r, Some(digest));
}

// ----- the operations -----
/// Computes the digest of a page from its lines and stores it as the page's
/// digest file.
///
/// Fails with `InvalidIndex` where the padset has no such page.
pub fn build_page_digest(padset: &mut Padset, nest: u32, pad: u32, page: u32) -> (r: Result<
    (),
    PadError,
>)
    requires
        old(padset)@.wf(),
    ensures
        final(padset)@.wf(),
        ({
            let s = old(padset)@;
            let head = page_head(s.bounds, nest, pad, page);
            let pr = head.page_rank(s.bounds);
            if head.spec_is_within(s.bounds) {
                &&& r is Ok
                &&& final(padset)@ == s.with_page_digest(pr, Some(digest_of(s.page_content(pr))))
            } else {
                &&& r == Err::<(), PadError>(PadError::InvalidIndex)
                &&& final(padset)@ == s
            }
        }),
{
    let bounds = padset.bounds();
    let head = PadIndex { nest, pad, page, line: 0, width: bounds.width };
    if !head.is_within(bounds) {
        return Err(PadError::InvalidIndex);
    }
    let _n: usize = padset.line_slots();
    let pr: usize = head.page_rank_in(&bounds);
    seal_page(padset, pr);
    Ok(())
}

/// Computes the digest of a pad from its lines, page by page, and stores it
/// as the pad's digest file.
///
/// Fails with `InvalidIndex` where the padset has no such pad.
pub fn build_pad_digest(padset: &mut Padset, nest: u32, pad: u32) -> (r: Result<(), PadError>)
    requires
        old(padset)@.wf(),
    ensures
        final(padset)@.wf(),
        ({
            let s = old(padset)@;
            let head = pad_head(s.bounds, nest, pad);
            let dr = head.pad_rank(s.bounds);
            if head.spec_is_within(s.bounds) {
                &&& r is Ok
                &&& final(padset)@ == s.with_pad_digest(dr, Some(digest_of(s.pad_content(dr))))
            } else {
                &&& r == Err::<(), PadError>(PadError::InvalidIndex)
                &&& final(padset)@ == s
            }
        }),
{
    let bounds = padset.bounds();
    let head = PadIndex { nest, pad, page: 0, line: 0, width: bounds.width };
    if !head.is_within(bounds) {
        return Err(PadError::InvalidIndex);
    }
    let _n: usize = padset.line_slots();
    let dr: usize = head.pad_rank_in(&bounds);
    seal_pad(padset, dr);
    Ok(())
}

/// Checks a page against its digest file and, on a match, removes the file.
///
/// A page without a digest file passes and nothing changes. On a mismatch the
/// call fails with `IntegrityFailure` and nothing changes. Fails with
/// `InvalidIndex` where the padset has no such page.
pub fn validate_and_consume_page(padset: &mut Padset, nest: u32, pad: u32, page: u32) -> (r:
    Result<(), PadError>)
    requires
        old(padset)@.wf(),
    ensures
        final(padset)@.wf(),
        ({
            let s = old(padset)@;
            let head = page_head(s.bounds, nest, pad, page);
            let pr = head.page_rank(s.bounds);
            if !head.spec_is_within(s.bounds) {
                &&& r == Err::<(), PadError>(PadError::InvalidIndex)
                &&& final(padset)@ == s
            } else if s.page_valid(pr) {
                &&& r is Ok
                &&& final(padset)@ == s.with_page_digest(pr, None)
                &&& final(padset)@.page_digest(head) is None
            } else {
                &&& r == Err::<(), PadError>(
                    PadError::IntegrityFailure(IntegrityScope::Page { nest, pad, page }),
                )
                &&& final(padset)@ == s
            }
        }),
{
    let bounds = padset.bounds();
    let head = PadIndex { nest, pad, page, line: 0, width: bounds.width };
    if !head.is_within(bounds) {
        return Err(PadError::InvalidIndex);
    }
    let _n: usize = padset.line_slots();
    let pr: usize = head.page_rank_in(&bounds);
    if !check_page(padset, pr) {
        return Err(PadError::IntegrityFailure(IntegrityScope::Page { nest, pad, page }));
    }
    padset.set_page_digest(pr, None);
    Ok(())
}

/// Checks a pad against its digest file and, on a match, removes the file.
///
/// A pad without a digest file passes and nothing changes. On a mismatch the
/// call fails with `IntegrityFailure` and nothing changes. Fails with
/// `InvalidIndex` where the padset has no such pad.
pub fn validate_and_consume_pad(padset: &mut Padset, nest: u32, pad: u32) -> (r: Result<
    (),
    PadError,
>)
    requires
        old(padset)@.wf(),
    ensures
        final(padset)@.wf(),
        ({
            let s = old(padset)@;
            let head = pad_head(s.bounds, nest, pad);
            let dr = head.pad_rank(s.bounds);
            if !head.spec_is_within(s.bounds) {
                &&& r == Err::<(), PadError>(PadError::InvalidIndex)
                &&& final(padset)@ == s
            } else if s.pad_valid(dr) {
                &&& r is Ok
                &&& final(padset)@ == s.with_pad_digest(dr, None)
                &&& final(padset)@.pad_digest(head) is None
            } else {
                &&& r == Err::<(), PadError>(
                    PadError::IntegrityFailure(IntegrityScope::Pad { nest, pad }),
                )
                &&& final(padset)@ == s
            }
        }),
{
    let bounds = padset.bounds();
    let head = PadIndex { nest, pad, page: 0, line: 0, width: bounds.width };
    if !head.is_within(bounds) {
        return Err(PadError::InvalidIndex);
    }
    let _n: usize = padset.line_slots();
    let dr: usize = head.pad_rank_in(&bounds);
    if !check_pad(padset, dr) {
        return Err(PadError::IntegrityFailure(IntegrityScope::Pad { nest, pad }));
    }
    padset.set_pad_digest(dr, None);
    Ok(())
}

} // verus!
