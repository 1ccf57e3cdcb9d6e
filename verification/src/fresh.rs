//! What holds of a padset as it was built, and of any padset whose lines
//! and digests are all in order.

use crate::builder::{build_refusal, built_padset, drawn_padset};
use crate::index::{lemma_counts_positive, PadIndex};
use crate::integrity::{digest_matches, digest_of, ValidationLevel};
use crate::laws::{
    lemma_other_pad_untouched,
    lemma_other_page_untouched,
    lemma_round_trip,
    lemma_scope_of_rank,
    single_level,
};
use crate::lines::lemma_first_present;
use crate::store::PadsetView;
use crate::stream::{reader_outcome, write_from, writer_outcome, Passage};
use vstd::prelude::*;

verus! {

/// A digest file as the builder writes it has 64 bytes.
pub proof fn lemma_digest_length(content: Seq<u8>)
    ensures
        digest_of(content).len() == 64,
{
}

/// A digest made over other content does not match, unless the two contents
/// have the same digest.
pub proof fn lemma_changed_content_fails_validation(sealed: Seq<u8>, found: Seq<u8>)
    requires
        digest_of(sealed) != digest_of(found),
    ensures
        !digest_matches(digest_of(sealed), found),
{
    lemma_digest_length(sealed);
    lemma_digest_length(found);
}

/// From rank `r` on every line exists and has `line_length` bytes, every
/// digest that exists matches its lines, and no pad mixes the two levels.
pub open spec fn intact_from(s: PadsetView, r: int, line_length: nat) -> bool {
    &&& s.wf()
    &&& single_level(s)
    &&& forall|j: int|
        r <= j < s.lines.len() ==> #[trigger] s.lines[j] is Some && s.lines[j].unwrap().len()
            == line_length
    &&& forall|p: int| 0 <= p < s.page_digests.len() ==> #[trigger] s.page_valid(p)
    &&& forall|d: int| 0 <= d < s.pad_digests.len() ==> #[trigger] s.pad_valid(d)
}

/// Taking the line at rank `r` of an intact padset succeeds and leaves the
/// padset intact from the next rank on.
pub proof fn lemma_intact_step(s: PadsetView, r: int, line_length: nat)
    requires
        intact_from(s, r, line_length),
        0 <= r < s.lines.len(),
    ensures
        s.taken(r).1 == Ok::<Seq<u8>, crate::error::PadError>(s.lines[r].unwrap()),
        s.lines[r].unwrap().len() == line_length,
        intact_from(s.taken(r).0, r + 1, line_length),
{
    lemma_scope_of_rank(s, r);
    let pr = s.page_of(r);
    let dr = s.pad_of(r);
    assert(s.page_valid(pr));
    assert(s.pad_valid(dr));
    assert(s.lines[r] is Some);
    let released = s.guard_released(r);
    let after = s.taken(r).0;
    assert(after == released.with_line(r, None));
    assert(s.page_digests[pr] is Some ==> s.pad_digests[dr] is None);
    assert forall|p: int| 0 <= p < after.page_digests.len() implies #[trigger] after.page_valid(
        p,
    ) by {
        if after.page_digests[p] is Some {
            assert(p != pr);
            lemma_other_page_untouched(released, r, None, p);
            assert(s.page_valid(p));
        }
    }
    assert forall|d: int| 0 <= d < after.pad_digests.len() implies #[trigger] after.pad_valid(
        d,
    ) by {
        if after.pad_digests[d] is Some {
            assert(d != dr);
            lemma_other_pad_untouched(released, r, None, d);
            assert(s.pad_valid(d));
        }
    }
    assert forall|p: int| 0 <= p < after.page_digests.len() implies !(
    #[trigger] after.page_digests[p] is Some && after.pad_digests[p / (after.bounds.page + 1)]
        is Some) by {
        if after.page_digests[p] is Some {
            assert(s.page_digests[p] is Some);
            lemma_page_has_pad(s, p);
        }
    }
}

/// Every page lies in a pad of the padset.
pub proof fn lemma_page_has_pad(s: PadsetView, p: int)
    requires
        s.wf(),
        0 <= p < s.page_digests.len(),
    ensures
        0 <= p / (s.bounds.page + 1) < s.pad_digests.len(),
{
    crate::index::lemma_split(p, s.bounds.pad_count(), s.bounds.page + 1);
}

/// Success is owed. On a padset that is intact from rank `r` on, with lines
/// of `line_length` bytes, a writer run from `r` succeeds on every input that
/// is shorter than the bytes of the lines from `r` on.
pub proof fn lemma_intact_padset_serves(s: PadsetView, r: int, input: Seq<u8>, line_length: nat)
    requires
        intact_from(s, r, line_length),
        0 <= r < s.lines.len(),
        input.len() < (s.lines.len() - r) * line_length,
    ensures
        write_from(s, r, input).failure is None,
    decreases s.bounds.line_count() - r,
{
    lemma_intact_step(s, r, line_length);
    let after = s.taken(r).0;
    let l = line_length as int;
    let left = s.lines.len() - r;
    if input.len() >= l {
        assert(left >= 2) by (nonlinear_arith)
            requires
                input.len() >= l,
                input.len() < left * l,
                left >= 1,
                l >= 0,
        ;
        assert((left - 1) * l == left * l - l) by (nonlinear_arith);
        lemma_intact_padset_serves(after, r + 1, input.skip(l), line_length);
    }
}

/// A padset as built is intact from its first line on.
pub proof fn lemma_built_padset_is_intact(
    bounds: PadIndex,
    line_length: nat,
    level: ValidationLevel,
    entropy: Seq<u8>,
)
    requires
        build_refusal(bounds, line_length, entropy.len()) is None,
    ensures
        intact_from(built_padset(bounds, line_length, level, entropy), 0, line_length),
        built_padset(bounds, line_length, level, entropy).first_present(0) == Some(0int),
{
    let s = built_padset(bounds, line_length, level, entropy);
    let drawn = drawn_padset(bounds, line_length, entropy);
    lemma_counts_positive(bounds);
    assert(s.lines == drawn.lines);
    assert forall|j: int| 0 <= j < s.lines.len() implies #[trigger] s.lines[j] is Some
        && s.lines[j].unwrap().len() == line_length by {
        assert((j + 1) * line_length <= bounds.line_count() * line_length) by (nonlinear_arith)
            requires
                j + 1 <= bounds.line_count(),
        ;
        assert((j + 1) * line_length == j * line_length + line_length) by (nonlinear_arith);
        assert(0 <= j * line_length) by (nonlinear_arith)
            requires
                0 <= j,
        ;
    }
    assert forall|p: int| 0 <= p < s.page_digests.len() implies #[trigger] s.page_valid(p) by {
        assert(s.page_content(p) == drawn.page_content(p));
    }
    assert forall|d: int| 0 <= d < s.pad_digests.len() implies #[trigger] s.pad_valid(d) by {
        assert(s.pad_content(d) == drawn.pad_content(d));
    }
    assert forall|p: int| 0 <= p < s.page_digests.len() implies !(#[trigger] s.page_digests[p]
        is Some && s.pad_digests[p / (s.bounds.page + 1)] is Some) by {
        lemma_page_has_pad(s, p);
    }
    lemma_first_present(s, 0);
}

/// Round trip on a padset as built. For every plaintext shorter than the
/// bytes of the padset, writer mode succeeds, starting at the first index,
/// and reader mode on a copy of the padset turns the ciphertext back into the
/// plaintext.
pub proof fn lemma_fresh_round_trip(
    bounds: PadIndex,
    line_length: nat,
    level: ValidationLevel,
    entropy: Seq<u8>,
    plaintext: Seq<u8>,
)
    requires
        build_refusal(bounds, line_length, entropy.len()) is None,
        plaintext.len() < bounds.line_count() * line_length,
    ensures
        ({
            let s = built_padset(bounds, line_length, level, entropy);
            let sent = writer_outcome(s, plaintext);
            &&& sent.failure is None
            &&& sent.output.len() == plaintext.len()
            &&& reader_outcome(s, PadIndex::at_rank(0, bounds), sent.output) == (Passage {
                store: s,
                output: plaintext,
                failure: None,
            })
        }),
{
    let s = built_padset(bounds, line_length, level, entropy);
    lemma_built_padset_is_intact(bounds, line_length, level, entropy);
    lemma_counts_positive(bounds);
    lemma_intact_padset_serves(s, 0, plaintext, line_length);
    crate::laws::lemma_writer_output_length(s, 0, plaintext);
    lemma_round_trip(s, plaintext);
}

} // verus!
