//! What holds of every run of the cipher.

use crate::error::PadError;
use crate::index::{lemma_at_rank, lemma_lex_is_rank_order, PadIndex, PadIndexMaxSize};
use crate::lines::{first_available, lemma_first_present};
use crate::store::{joined, PadsetView};
use crate::stream::{read_from, reader_outcome, write_from, writer_outcome, xor_bytes, Passage};
use vstd::prelude::*;

verus! {

// ----- bytes and ranges -----
/// XOR with the same key twice gives the input back, as far as the key
/// reaches.
pub proof fn lemma_xor_twice(input: Seq<u8>, key: Seq<u8>)
    ensures
        xor_bytes(xor_bytes(input, key), key) == input.take(xor_bytes(input, key).len() as int),
        xor_bytes(input, key).len() == if input.len() <= key.len() {
            input.len()
        } else {
            key.len()
        },
{
    let once = xor_bytes(input, key);
    let twice = xor_bytes(once, key);
    assert forall|i: int| 0 <= i < twice.len() implies twice[i] == input[i] by {
        let a = input[i];
        let k = key[i];
        assert((a ^ k) ^ k == a) by (bit_vector);
    }
    assert(twice =~= input.take(once.len() as int));
}

/// Only the first bytes of the input, as many as the key has, matter to the
/// XOR with that key.
pub proof fn lemma_xor_prefix(head: Seq<u8>, tail: Seq<u8>, key: Seq<u8>)
    requires
        head.len() == key.len(),
    ensures
        xor_bytes(head + tail, key) == xor_bytes(head, key),
        (head + tail).skip(key.len() as int) == tail,
{
    assert(xor_bytes(head + tail, key) =~= xor_bytes(head, key));
    assert((head + tail).skip(key.len() as int) =~= tail);
}

/// Joining the lines of a range does not depend on a line outside it.
pub proof fn lemma_joined_untouched(
    lines: Seq<Option<Seq<u8>>>,
    r: int,
    line: Option<Seq<u8>>,
    lo: int,
    hi: int,
)
    requires
        0 <= lo,
        hi <= lines.len(),
        0 <= r < lines.len(),
        r < lo || hi <= r,
    ensures
        joined(lines.update(r, line), lo, hi) == joined(lines, lo, hi),
    decreases hi - lo,
{
    if lo < hi {
        lemma_joined_untouched(lines, r, line, lo, hi - 1);
    }
}

/// Joining the lines of a range depends only on the lines in it.
pub proof fn lemma_joined_same(
    a: Seq<Option<Seq<u8>>>,
    b: Seq<Option<Seq<u8>>>,
    lo: int,
    hi: int,
)
    requires
        0 <= lo,
        hi <= a.len(),
        hi <= b.len(),
        forall|j: int| lo <= j < hi ==> a[j] == b[j],
    ensures
        joined(a, lo, hi) == joined(b, lo, hi),
    decreases hi - lo,
{
    if lo < hi {
        lemma_joined_same(a, b, lo, hi - 1);
    }
}

/// The ranks `q * n .. (q + 1) * n` are those whose quotient by `n` is `q`.
pub proof fn lemma_block_of(r: int, q: int, n: int)
    requires
        0 < n,
        0 <= r,
        0 <= q,
    ensures
        (q * n <= r < (q + 1) * n) <==> r / n == q,
{
    vstd::arithmetic::div_mod::lemma_fundamental_div_mod(r, n);
    vstd::arithmetic::div_mod::lemma_mod_bound(r, n);
    let d = r / n;
    assert(n * d == d * n) by (nonlinear_arith);
    assert((q + 1) * n == q * n + n) by (nonlinear_arith);
    assert((d + 1) * n == d * n + n) by (nonlinear_arith);
    if d < q {
        assert((d + 1) * n <= q * n) by (nonlinear_arith)
            requires
                d + 1 <= q,
                0 < n,
        ;
    }
    if q < d {
        assert((q + 1) * n <= d * n) by (nonlinear_arith)
            requires
                q + 1 <= d,
                0 < n,
        ;
    }
}

// ----- what a run leaves behind -----
/// `after` is `before` with some lines and digests removed and nothing else
/// changed: what is there was there before, with the same content.
pub open spec fn only_removed(before: PadsetView, after: PadsetView) -> bool {
    &&& after.bounds == before.bounds
    &&& after.lines.len() == before.lines.len()
    &&& after.page_digests.len() == before.page_digests.len()
    &&& after.pad_digests.len() == before.pad_digests.len()
    &&& forall|j: int|
        0 <= j < after.lines.len() && after.lines[j] is Some ==> after.lines[j] == before.lines[j]
    &&& forall|j: int|
        0 <= j < after.page_digests.len() && after.page_digests[j] is Some
            ==> after.page_digests[j] == before.page_digests[j]
    &&& forall|j: int|
        0 <= j < after.pad_digests.len() && after.pad_digests[j] is Some ==> after.pad_digests[j]
            == before.pad_digests[j]
}

/// One line taken behind its guard only removes.
pub proof fn lemma_taken_only_removes(s: PadsetView, r: int)
    requires
        s.wf(),
        0 <= r < s.lines.len(),
    ensures
        only_removed(s, s.taken(r).0),
        s.taken(r).0.wf(),
        forall|j: int| 0 <= j < r ==> s.taken(r).0.lines[j] == s.lines[j],
        forall|j: int| r < j < s.lines.len() ==> s.taken(r).0.lines[j] == s.lines[j],
{
    lemma_at_rank(r, s.bounds);
}

/// Once consumed, never back: a writer run, whether it succeeds or fails,
/// only removes lines and digests; no line or digest appears or changes.
pub proof fn lemma_writer_only_removes(s: PadsetView, r: int, input: Seq<u8>)
    requires
        s.wf(),
        0 <= r < s.lines.len(),
    ensures
        only_removed(s, write_from(s, r, input).store),
        write_from(s, r, input).store.wf(),
        forall|j: int| 0 <= j < r ==> write_from(s, r, input).store.lines[j] == s.lines[j],
    decreases s.bounds.line_count() - r,
{
    lemma_taken_only_removes(s, r);
    let (after, key) = s.taken(r);
    if key is Ok && input.len() >= key.unwrap().len() && r + 1 < s.bounds.line_count() {
        lemma_writer_only_removes(after, r + 1, input.skip(key.unwrap().len() as int));
    }
}

/// A reader run leaves the padset as it was.
pub proof fn lemma_reader_changes_nothing(s: PadsetView, start: PadIndex, input: Seq<u8>)
    ensures
        reader_outcome(s, start, input).store == s,
{
}

/// A run writes as many bytes as it was given, if it succeeds.
pub proof fn lemma_writer_output_length(s: PadsetView, r: int, input: Seq<u8>)
    requires
        write_from(s, r, input).failure is None,
    ensures
        write_from(s, r, input).output.len() == input.len(),
    decreases s.bounds.line_count() - r,
{
    let (after, key) = s.taken(r);
    let k = key.unwrap();
    lemma_xor_twice(input, k);
    if input.len() >= k.len() {
        lemma_writer_output_length(after, r + 1, input.skip(k.len() as int));
    }
}

// ----- symmetry -----
/// Reader mode is its own inverse: what it makes of its own output, from the
/// same start, is its input.
pub proof fn lemma_reader_is_involution(s: PadsetView, r: int, input: Seq<u8>)
    requires
        read_from(s, r, input).failure is None,
    ensures
        read_from(s, r, read_from(s, r, input).output) == (Passage {
            store: s,
            output: input,
            failure: None,
        }),
    decreases s.bounds.line_count() - r,
{
    let key = s.peeked(r).unwrap();
    let head = xor_bytes(input, key);
    lemma_xor_twice(input, key);
    if input.len() < key.len() {
        assert(input.take(head.len() as int) =~= input);
    } else {
        let tail_in = input.skip(key.len() as int);
        let rest = read_from(s, r + 1, tail_in);
        lemma_reader_is_involution(s, r + 1, tail_in);
        lemma_xor_prefix(head, rest.output, key);
        assert(input.take(key.len() as int) + tail_in =~= input);
    }
}

/// Symmetry of the whole of reader mode.
pub proof fn lemma_reader_symmetry(s: PadsetView, start: PadIndex, input: Seq<u8>)
    requires
        reader_outcome(s, start, input).failure is None,
    ensures
        reader_outcome(s, start, reader_outcome(s, start, input).output) == (Passage {
            store: s,
            output: input,
            failure: None,
        }),
{
    lemma_reader_is_involution(s, start.rank(s.bounds), input);
}

// ----- pages and pads as ranges of ranks -----
/// Where the line at rank `r` lies: in a page and a pad of the padset, the
/// pad being that of the page.
pub proof fn lemma_scope_of_rank(s: PadsetView, r: int)
    requires
        s.wf(),
        0 <= r < s.lines.len(),
    ensures
        0 <= s.page_of(r) < s.page_digests.len(),
        0 <= s.pad_of(r) < s.pad_digests.len(),
        s.pad_of(r) == s.page_of(r) / (s.bounds.page + 1),
        s.pad_of(r) == r / s.bounds.lines_per_pad(),
{
    lemma_at_rank(r, s.bounds);
    vstd::arithmetic::div_mod::lemma_div_denominator(r, s.bounds.line + 1, s.bounds.page + 1);
    assert((s.bounds.line + 1) * (s.bounds.page + 1) == s.bounds.lines_per_pad())
        by (nonlinear_arith);
}

/// The lines of a page are unchanged by a change to a line of another page.
pub proof fn lemma_other_page_untouched(s: PadsetView, r: int, line: Option<Seq<u8>>, p: int)
    requires
        s.wf(),
        0 <= r < s.lines.len(),
        0 <= p < s.page_digests.len(),
        p != s.page_of(r),
    ensures
        s.with_line(r, line).page_content(p) == s.page_content(p),
{
    let n = s.bounds.line + 1;
    lemma_block_of(r, p, n);
    assert((p + 1) * n <= s.bounds.page_count() * n) by (nonlinear_arith)
        requires
            p + 1 <= s.bounds.page_count(),
            0 < n,
    ;
    assert(0 <= p * n) by (nonlinear_arith)
        requires
            0 <= p,
            0 < n,
    ;
    lemma_joined_untouched(s.lines, r, line, p * n, (p + 1) * n);
}

/// The lines of a pad are unchanged by a change to a line of another pad.
pub proof fn lemma_other_pad_untouched(s: PadsetView, r: int, line: Option<Seq<u8>>, d: int)
    requires
        s.wf(),
        0 <= r < s.lines.len(),
        0 <= d < s.pad_digests.len(),
        d != s.pad_of(r),
    ensures
        s.with_line(r, line).pad_content(d) == s.pad_content(d),
{
    let n = s.bounds.lines_per_pad();
    crate::index::lemma_counts_positive(s.bounds);
    lemma_scope_of_rank(s, r);
    lemma_block_of(r, d, n);
    assert((d + 1) * n <= s.bounds.pad_count() * n) by (nonlinear_arith)
        requires
            d + 1 <= s.bounds.pad_count(),
            0 < n,
    ;
    assert(0 <= d * n) by (nonlinear_arith)
        requires
            0 <= d,
            0 < n,
    ;
    lemma_joined_untouched(s.lines, r, line, d * n, (d + 1) * n);
}

// ----- round trip -----
/// No pad has both a digest of its own and a page that has a digest.
pub open spec fn single_level(s: PadsetView) -> bool {
    forall|p: int|
        0 <= p < s.page_digests.len() ==> !(#[trigger] s.page_digests[p] is Some
            && s.pad_digests[p / (s.bounds.page + 1)] is Some)
}

/// `w` is what a writer run on `s` has left when it comes to rank `r`: the
/// lines from `r` on are those of `s`, and each digest is either still there,
/// over the same lines as in `s`, or was found valid and consumed.
pub open spec fn partly_consumed(w: PadsetView, s: PadsetView, r: int) -> bool {
    &&& w.wf()
    &&& s.wf()
    &&& w.bounds == s.bounds
    &&& forall|j: int| r <= j < s.lines.len() ==> #[trigger] w.lines[j] == s.lines[j]
    &&& forall|p: int|
        0 <= p < s.page_digests.len() ==> if #[trigger] w.page_digests[p] is Some {
            w.page_digests[p] == s.page_digests[p] && w.page_content(p) == s.page_content(p)
        } else {
            s.page_valid(p)
        }
    &&& forall|d: int|
        0 <= d < s.pad_digests.len() ==> if #[trigger] w.pad_digests[d] is Some {
            w.pad_digests[d] == s.pad_digests[d] && w.pad_content(d) == s.pad_content(d)
        } else {
            s.pad_valid(d)
        }
}

/// Taking the line at rank `r` keeps a writer run in step with the padset
/// it started from.
pub proof fn lemma_partly_consumed_step(w: PadsetView, s: PadsetView, r: int)
    requires
        partly_consumed(w, s, r),
        single_level(s),
        0 <= r < s.lines.len(),
        w.guard_holds(r),
    ensures
        s.guard_holds(r),
        w.guard_released(r).lines[r] == s.lines[r],
        partly_consumed(w.taken(r).0, s, r + 1),
{
    lemma_scope_of_rank(s, r);
    lemma_scope_of_rank(w, r);
    let pr = s.page_of(r);
    let dr = s.pad_of(r);
    assert(w.lines[r] == s.lines[r]);
    let released = w.guard_released(r);
    let after = w.taken(r).0;
    assert(after.lines =~= released.lines.update(r, None) || after.lines =~= released.lines);
    assert(w.page_digests[pr] is Some ==> s.page_digests[pr] is Some);
    assert(w.pad_digests[dr] is Some ==> s.pad_digests[dr] is Some);
    assert forall|p: int| 0 <= p < s.page_digests.len() implies if #[trigger] after.page_digests[p]
        is Some {
        after.page_digests[p] == s.page_digests[p] && after.page_content(p) == s.page_content(p)
    } else {
        s.page_valid(p)
    } by {
        if after.page_digests[p] is Some {
            assert(w.page_digests[p] is Some);
            assert(p != pr);
            lemma_other_page_untouched(released, r, None, p);
        }
    }
    assert forall|d: int| 0 <= d < s.pad_digests.len() implies if #[trigger] after.pad_digests[d]
        is Some {
        after.pad_digests[d] == s.pad_digests[d] && after.pad_content(d) == s.pad_content(d)
    } else {
        s.pad_valid(d)
    } by {
        if after.pad_digests[d] is Some {
            assert(w.pad_digests[d] is Some);
            assert(d != dr) by {
                if d == dr {
                    assert(w.page_digests[pr] is Some);
                    assert(s.page_digests[pr] is Some);
                }
            }
            lemma_other_pad_untouched(released, r, None, d);
        }
    }
}

/// On a padset that a writer run has partly consumed, the reader on the
/// padset as it was does what the writer does: where the writer succeeds from
/// rank `r`, so does the reader, with the same output.
pub proof fn lemma_reader_mirrors_writer(w: PadsetView, s: PadsetView, r: int, input: Seq<u8>)
    requires
        partly_consumed(w, s, r),
        single_level(s),
        0 <= r < s.lines.len(),
        write_from(w, r, input).failure is None,
    ensures
        read_from(s, r, input).failure is None,
        read_from(s, r, input).output == write_from(w, r, input).output,
    decreases s.bounds.line_count() - r,
{
    lemma_partly_consumed_step(w, s, r);
    let (after, key) = w.taken(r);
    let k = key.unwrap();
    if input.len() >= k.len() {
        lemma_reader_mirrors_writer(after, s, r + 1, input.skip(k.len() as int));
    }
}

/// Round trip. Where writer mode succeeds on a padset, reader mode on a copy
/// of the padset as it was before, from the index that the writer started
/// at, turns the ciphertext back into the plaintext.
pub proof fn lemma_round_trip(s: PadsetView, plaintext: Seq<u8>)
    requires
        s.wf(),
        single_level(s),
        writer_outcome(s, plaintext).failure is None,
    ensures
        s.first_present(0) is Some,
        reader_outcome(
            s,
            PadIndex::at_rank(s.first_present(0).unwrap(), s.bounds),
            writer_outcome(s, plaintext).output,
        ) == (Passage { store: s, output: plaintext, failure: None }),
{
    lemma_first_present(s, 0);
    let r = s.first_present(0).unwrap();
    lemma_at_rank(r, s.bounds);
    lemma_reader_mirrors_writer(s, s, r, plaintext);
    lemma_reader_is_involution(s, r, plaintext);
}

// ----- the cursor -----
/// The cursor never goes back: after a writer run, whether it succeeded or
/// failed, the first line left does not come before the first line that was
/// left before the run; and where none was left before, none is left after.
pub proof fn lemma_cursor_never_goes_back(s: PadsetView, input: Seq<u8>, width: PadIndexMaxSize)
    requires
        s.wf(),
    ensures
        match first_available(writer_outcome(s, input).store, width) {
            Some(later) => first_available(s, width) is Some && !later.lex_lt(
                first_available(s, width).unwrap(),
            ),
            None => true,
        },
{
    let after = writer_outcome(s, input).store;
    lemma_first_present(s, 0);
    if s.first_present(0) is Some {
        lemma_writer_only_removes(s, s.first_present(0).unwrap(), input);
    }
    lemma_first_present(after, 0);
    if first_available(after, width) is Some {
        let kb = after.first_present(0).unwrap();
        assert(after.lines[kb] == s.lines[kb]);
        let ka = s.first_present(0).unwrap();
        lemma_at_rank(ka, s.bounds);
        lemma_at_rank(kb, s.bounds);
        lemma_lex_is_rank_order(
            PadIndex::at_rank(kb, s.bounds),
            PadIndex::at_rank(ka, s.bounds),
            s.bounds,
        );
    }
}

// ----- consumption -----
/// Every line from rank `r` on that exists has `line_length` bytes.
pub open spec fn uniform_from(s: PadsetView, r: int, line_length: nat) -> bool {
    forall|j: int|
        r <= j < s.lines.len() && #[trigger] s.lines[j] is Some ==> s.lines[j].unwrap().len()
            == line_length
}

/// The number of lines that serve `count` bytes of input: one for every
/// `line_length` bytes, and one for what is left, be it nothing.
pub open spec fn lines_used(count: nat, line_length: nat) -> int {
    count as int / line_length as int + 1
}

/// Unless the line length divides the byte count, the lines used are the
/// byte count divided by the line length, rounded up.
pub proof fn lemma_lines_used_is_ceiling(count: nat, line_length: nat)
    requires
        line_length > 0,
        count % line_length != 0,
    ensures
        lines_used(count, line_length) == (count + line_length - 1) / line_length as int,
{
    let n = count as int;
    let l = line_length as int;
    vstd::arithmetic::div_mod::lemma_fundamental_div_mod(n, l);
    vstd::arithmetic::div_mod::lemma_mod_bound(n, l);
    let q = n / l;
    let m = n % l;
    assert(n + l - 1 == (q + 1) * l + (m - 1)) by (nonlinear_arith)
        requires
            n == l * q + m,
    ;
    vstd::arithmetic::div_mod::lemma_fundamental_div_mod_converse(n + l - 1, l, q + 1, m - 1);
}

/// At-most-once, contiguous consumption. Where every line has
/// `line_length` bytes, a writer run that succeeds from rank `r` on `input`
/// removes the lines at the ranks `r .. r + lines_used`, which all existed,
/// and leaves every other line as it was.
pub proof fn lemma_writer_consumes_contiguously(
    s: PadsetView,
    r: int,
    input: Seq<u8>,
    line_length: nat,
)
    requires
        s.wf(),
        0 <= r < s.lines.len(),
        line_length > 0,
        uniform_from(s, r, line_length),
        write_from(s, r, input).failure is None,
    ensures
        r + lines_used(input.len(), line_length) <= s.lines.len(),
        forall|j: int|
            r <= j < r + lines_used(input.len(), line_length) ==> s.lines[j] is Some
                && #[trigger] write_from(s, r, input).store.lines[j] is None,
        forall|j: int|
            0 <= j < s.lines.len() && !(r <= j < r + lines_used(input.len(), line_length))
                ==> #[trigger] write_from(s, r, input).store.lines[j] == s.lines[j],
    decreases s.bounds.line_count() - r,
{
    lemma_taken_only_removes(s, r);
    lemma_scope_of_rank(s, r);
    let (after, key) = s.taken(r);
    let k = key.unwrap();
    let l = line_length as int;
    let n = input.len() as int;
    assert(s.lines[r] is Some);
    assert(k.len() == line_length);
    if n < l {
        vstd::arithmetic::div_mod::lemma_basic_div(n, l);
    } else {
        let rest = input.skip(l);
        vstd::arithmetic::div_mod::lemma_fundamental_div_mod(n, l);
        vstd::arithmetic::div_mod::lemma_mod_bound(n, l);
        assert(n - l == (n / l - 1) * l + n % l) by (nonlinear_arith)
            requires
                n == l * (n / l) + n % l,
        ;
        vstd::arithmetic::div_mod::lemma_fundamental_div_mod_converse(
            n - l,
            l,
            n / l - 1,
            n % l,
        );
        assert(lines_used(rest.len(), line_length) == lines_used(input.len(), line_length) - 1);
        lemma_writer_consumes_contiguously(after, r + 1, rest, line_length);
        lemma_writer_only_removes(after, r + 1, rest);
    }
}

/// At-most-once consumption for the whole of writer mode: a run that
/// writes `N` bytes removes the `lines_used(N)` lines from the one it started
/// at, and no other.
pub proof fn lemma_writer_consumption(s: PadsetView, input: Seq<u8>, line_length: nat)
    requires
        s.wf(),
        line_length > 0,
        uniform_from(s, 0, line_length),
        writer_outcome(s, input).failure is None,
    ensures
        s.first_present(0) is Some,
        ({
            let start = s.first_present(0).unwrap();
            let used = lines_used(input.len(), line_length);
            let after = writer_outcome(s, input).store;
            &&& 0 <= start
            &&& start + used <= s.lines.len()
            &&& forall|j: int|
                start <= j < start + used ==> s.lines[j] is Some && #[trigger] after.lines[j]
                    is None
            &&& forall|j: int|
                0 <= j < s.lines.len() && !(start <= j < start + used) ==> #[trigger] after.lines[j]
                    == s.lines[j]
        }),
{
    lemma_first_present(s, 0);
    lemma_writer_consumes_contiguously(s, s.first_present(0).unwrap(), input, line_length);
}

// ----- digests -----
/// Digest removal. Where the guard of a line holds, taking the line
/// consumes the guard: the page of the line has no digest afterwards. In a
/// padset of a single level, no digest guards the line any more, so a
/// second validation finds none and passes without a check.
pub proof fn lemma_guard_is_consumed(s: PadsetView, r: int)
    requires
        s.wf(),
        0 <= r < s.lines.len(),
        s.guard_holds(r),
    ensures
        s.taken(r).0.page_digests[s.page_of(r)] is None,
        single_level(s) ==> {
            &&& s.taken(r).0.pad_digests[s.pad_of(r)] is None
            &&& s.taken(r).0.guard_holds(r)
            &&& s.taken(r).0.guard_released(r) == s.taken(r).0
        },
{
    lemma_scope_of_rank(s, r);
    let after = s.taken(r).0;
    if single_level(s) {
        assert(s.page_digests[s.page_of(r)] is Some ==> s.pad_digests[s.pad_of(r)] is None);
        assert(after.guard_released(r).pad_digests =~= after.pad_digests);
    }
}

/// Every line that a writer run consumed lies in a page that has no digest
/// any more.
pub proof fn lemma_writer_consumes_guards(s: PadsetView, r: int, input: Seq<u8>)
    requires
        s.wf(),
        0 <= r < s.lines.len(),
    ensures
        forall|j: int|
            r <= j < s.lines.len() && s.lines[j] is Some && #[trigger] write_from(
                s,
                r,
                input,
            ).store.lines[j] is None ==> write_from(s, r, input).store.page_digests[s.page_of(j)]
                is None,
    decreases s.bounds.line_count() - r,
{
    lemma_taken_only_removes(s, r);
    lemma_scope_of_rank(s, r);
    let (after, key) = s.taken(r);
    if key is Ok && input.len() >= key.unwrap().len() && r + 1 < s.bounds.line_count() {
        let rest = input.skip(key.unwrap().len() as int);
        lemma_writer_consumes_guards(after, r + 1, rest);
        lemma_writer_only_removes(after, r + 1, rest);
    }
}

/// All-or-nothing, at the page: where the digest of the page of the line
/// at rank `r` does not match the lines of the page, a writer run from `r`
/// fails with `IntegrityFailure` for that page, writes nothing, and leaves
/// every line and every digest in place.
pub proof fn lemma_tampered_page_is_refused(s: PadsetView, r: int, input: Seq<u8>)
    requires
        s.guarded_by_page(r),
        !s.page_valid(s.page_of(r)),
    ensures
        write_from(s, r, input) == (Passage {
            store: s,
            output: Seq::empty(),
            failure: Some(PadError::IntegrityFailure(s.guard_scope(r))),
        }),
        s.guard_scope(r) is Page,
{
}

/// All-or-nothing, over a run: a page whose digest does not match its
/// lines keeps its digest and all its lines through any writer run.
pub proof fn lemma_tampered_page_is_kept(s: PadsetView, p: int, r: int, input: Seq<u8>)
    requires
        s.wf(),
        0 <= p < s.page_digests.len(),
        s.page_digests[p] is Some,
        !s.page_valid(p),
        0 <= r < s.lines.len(),
    ensures
        write_from(s, r, input).store.page_digests[p] == s.page_digests[p],
        forall|j: int|
            0 <= j < s.lines.len() && s.page_of(j) == p ==> #[trigger] write_from(
                s,
                r,
                input,
            ).store.lines[j] == s.lines[j],
    decreases s.bounds.line_count() - r,
{
    lemma_scope_of_rank(s, r);
    lemma_taken_only_removes(s, r);
    let (after, key) = s.taken(r);
    if s.page_of(r) != p {
        let released = s.guard_released(r);
        lemma_other_page_untouched(released, r, None, p);
        assert(after.page_content(p) == s.page_content(p));
        if key is Ok && input.len() >= key.unwrap().len() && r + 1 < s.bounds.line_count() {
            lemma_tampered_page_is_kept(after, p, r + 1, input.skip(key.unwrap().len() as int));
        }
    }
}

} // verus!
