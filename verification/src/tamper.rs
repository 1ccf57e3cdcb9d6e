//! What holds of a padset in which one page no longer matches its digest.

use crate::builder::{build_refusal, built_padset};
use crate::error::{IntegrityScope, PadError};
use crate::fresh::{
    intact_from,
    lemma_built_padset_is_intact,
    lemma_changed_content_fails_validation,
    lemma_page_has_pad,
};
use crate::index::{lemma_counts_positive, PadIndex};
use crate::integrity::{digest_of, ValidationLevel};
use crate::laws::{
    lemma_block_of,
    lemma_other_pad_untouched,
    lemma_other_page_untouched,
    lemma_scope_of_rank,
    lemma_tampered_page_is_kept,
    single_level,
};
use crate::lines::lemma_first_present;
use crate::store::PadsetView;
use crate::stream::{write_from, writer_outcome};
use vstd::prelude::*;

verus! {

/// The padset is in order from rank `r` on but for page `p`: every line
/// exists and has `line_length` bytes, every digest but that of page `p`
/// matches its lines, and page `p` has a digest that does not.
pub open spec fn intact_but_for_page(s: PadsetView, r: int, line_length: nat, p: int) -> bool {
    &&& s.wf()
    &&& single_level(s)
    &&& forall|j: int|
        r <= j < s.lines.len() ==> #[trigger] s.lines[j] is Some && s.lines[j].unwrap().len()
            == line_length
    &&& 0 <= p < s.page_digests.len()
    &&& s.page_digests[p] is Some
    &&& !s.page_valid(p)
    &&& forall|q: int| 0 <= q < s.page_digests.len() && q != p ==> #[trigger] s.page_valid(q)
    &&& forall|d: int| 0 <= d < s.pad_digests.len() ==> #[trigger] s.pad_valid(d)
}

/// The error of a run that is refused at page `p`.
pub open spec fn page_refusal(s: PadsetView, p: int) -> PadError {
    let at = PadIndex::at_rank(p * (s.bounds.line + 1), s.bounds);
    PadError::IntegrityFailure(IntegrityScope::Page { nest: at.nest, pad: at.pad, page: at.page })
}

/// The first line of a page is a line of the padset, and of that page.
pub proof fn lemma_page_start(s: PadsetView, p: int)
    requires
        s.wf(),
        0 <= p < s.page_digests.len(),
    ensures
        0 <= p * (s.bounds.line + 1) < s.lines.len(),
        s.page_of(p * (s.bounds.line + 1)) == p,
{
    let n = s.bounds.line + 1;
    assert(0 <= p * n) by (nonlinear_arith)
        requires
            0 <= p,
            0 < n,
    ;
    assert((p + 1) * n == p * n + n) by (nonlinear_arith);
    assert((p + 1) * n <= s.bounds.page_count() * n) by (nonlinear_arith)
        requires
            p + 1 <= s.bounds.page_count(),
            0 < n,
    ;
    lemma_block_of(p * n, p, n);
}

/// Taking a line of another page leaves the padset in order but for page `p`.
pub proof fn lemma_tampered_step(s: PadsetView, r: int, line_length: nat, p: int)
    requires
        intact_but_for_page(s, r, line_length, p),
        0 <= r < s.lines.len(),
        s.page_of(r) != p,
    ensures
        s.taken(r).1 == Ok::<Seq<u8>, PadError>(s.lines[r].unwrap()),
        s.lines[r].unwrap().len() == line_length,
        intact_but_for_page(s.taken(r).0, r + 1, line_length, p),
{
    lemma_scope_of_rank(s, r);
    let pr = s.page_of(r);
    let dr = s.pad_of(r);
    assert(s.page_valid(pr));
    assert(s.pad_valid(dr));
    assert(s.lines[r] is Some);
    let released = s.guard_released(r);
    let after = s.taken(r).0;
    assert(after == released.with_line(r, None));
    assert(s.page_digests[pr] is Some ==> s.pad_digests[dr] is None);
    lemma_other_page_untouched(released, r, None, p);
    assert forall|q: int| 0 <= q < after.page_digests.len() && q != p implies #[trigger] after.page_valid(
        q,
    ) by {
        if after.page_digests[q] is Some {
            assert(q != pr);
            lemma_other_page_untouched(released, r, None, q);
            assert(s.page_valid(q));
        }
    }
    assert forall|d: int| 0 <= d < after.pad_digests.len() implies #[trigger] after.pad_valid(
        d,
    ) by {
        if after.pad_digests[d] is Some {
            assert(d != dr);
            lemma_other_pad_untouched(released, r, None, d);
            assert(s.pad_valid(d));
        }
    }
    assert forall|q: int| 0 <= q < after.page_digests.len() implies !(
    #[trigger] after.page_digests[q] is Some && after.pad_digests[q / (after.bounds.page + 1)]
        is Some) by {
        if after.page_digests[q] is Some {
            assert(s.page_digests[q] is Some);
            lemma_page_has_pad(s, q);
        }
    }
}

/// All-or-nothing, for a run that comes to the page. On a padset that is
/// in order but for page `p`, a writer run that starts at or before the first
/// line of the page, with input enough to come to it, fails with
/// `IntegrityFailure` for that page; the page keeps its digest and all its
/// lines.
pub proof fn lemma_writer_stops_at_tampered_page(
    s: PadsetView,
    r: int,
    input: Seq<u8>,
    line_length: nat,
    p: int,
)
    requires
        intact_but_for_page(s, r, line_length, p),
        0 <= r <= p * (s.bounds.line + 1),
        input.len() >= (p * (s.bounds.line + 1) - r) * line_length,
    ensures
        write_from(s, r, input).failure == Some(page_refusal(s, p)),
        write_from(s, r, input).store.page_digests[p] == s.page_digests[p],
        forall|j: int|
            0 <= j < s.lines.len() && s.page_of(j) == p ==> #[trigger] write_from(
                s,
                r,
                input,
            ).store.lines[j] == s.lines[j],
    decreases p * (s.bounds.line + 1) - r,
{
    let n = s.bounds.line + 1;
    let start = p * n;
    let l = line_length as int;
    lemma_page_start(s, p);
    lemma_tampered_page_is_kept(s, p, r, input);
    if r == start {
    } else {
        lemma_block_of(r, p, n);
        lemma_tampered_step(s, r, line_length, p);
        let after = s.taken(r).0;
        assert((start - r) * l == (start - r - 1) * l + l) by (nonlinear_arith);
        assert(0 <= (start - r - 1) * l) by (nonlinear_arith)
            requires
                0 <= start - r - 1,
                0 <= l,
        ;
        lemma_writer_stops_at_tampered_page(after, r + 1, input.skip(l), line_length, p);
    }
}

/// All-or-nothing, for a padset as built with a digest for every page. Where
/// one line was changed, in such a way that the digest of its page is no
/// longer that of the page's lines, writer mode on any plaintext long enough
/// to come to that page fails with `IntegrityFailure` for the page; the page
/// keeps its digest and all its lines.
pub proof fn lemma_changed_line_stops_the_writer(
    bounds: PadIndex,
    line_length: nat,
    entropy: Seq<u8>,
    changed_rank: int,
    changed: Seq<u8>,
    plaintext: Seq<u8>,
)
    requires
        build_refusal(bounds, line_length, entropy.len()) is None,
        0 <= changed_rank < bounds.line_count(),
        changed.len() == line_length,
        ({
            let built = built_padset(bounds, line_length, ValidationLevel::PageLevel, entropy);
            let s = built.with_line(changed_rank, Some(changed));
            let p = built.page_of(changed_rank);
            &&& digest_of(s.page_content(p)) != digest_of(built.page_content(p))
            &&& plaintext.len() >= p * (bounds.line + 1) * line_length
        }),
    ensures
        ({
            let built = built_padset(bounds, line_length, ValidationLevel::PageLevel, entropy);
            let s = built.with_line(changed_rank, Some(changed));
            let p = built.page_of(changed_rank);
            let run = writer_outcome(s, plaintext);
            &&& run.failure == Some(page_refusal(s, p))
            &&& run.store.page_digests[p] is Some
            &&& forall|j: int|
                0 <= j < s.lines.len() && s.page_of(j) == p ==> #[trigger] run.store.lines[j]
                    is Some
        }),
{
    let built = built_padset(bounds, line_length, ValidationLevel::PageLevel, entropy);
    let s = built.with_line(changed_rank, Some(changed));
    let p = built.page_of(changed_rank);
    lemma_built_padset_is_intact(bounds, line_length, ValidationLevel::PageLevel, entropy);
    lemma_counts_positive(bounds);
    lemma_scope_of_rank(built, changed_rank);
    lemma_changed_content_fails_validation(built.page_content(p), s.page_content(p));
    assert forall|q: int| 0 <= q < s.page_digests.len() && q != p implies #[trigger] s.page_valid(
        q,
    ) by {
        lemma_other_page_untouched(built, changed_rank, Some(changed), q);
        assert(built.page_valid(q));
    }
    assert forall|d: int| 0 <= d < s.pad_digests.len() implies #[trigger] s.pad_valid(d) by {
        assert(built.pad_valid(d));
    }
    assert forall|q: int| 0 <= q < s.page_digests.len() implies !(#[trigger] s.page_digests[q]
        is Some && s.pad_digests[q / (s.bounds.page + 1)] is Some) by {
        lemma_page_has_pad(built, q);
    }
    assert forall|j: int| 0 <= j < s.lines.len() implies #[trigger] s.lines[j] is Some
        && s.lines[j].unwrap().len() == line_length by {
        assert(built.lines[j] is Some);
    }
    assert(intact_but_for_page(s, 0, line_length, p));
    lemma_first_present(s, 0);
    lemma_page_start(s, p);
    assert(p * (bounds.line + 1) * line_length == (p * (s.bounds.line + 1) - 0) * line_length);
    lemma_writer_stops_at_tampered_page(s, 0, plaintext, line_length, p);
}

} // verus!
