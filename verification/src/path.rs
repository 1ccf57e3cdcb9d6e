//! The mapping between indices and the names of the files that hold them.
//!
//! Below the root of a padset, the line at `[n, p, g, l]` of the standard
//! width class lives at `padnest_0_NNN/pad_PPP/page_GGG/line_LLL`, the digest
//! of its page at `padnest_0_NNN/pad_PPP/hash_page_GGG` and the digest of its
//! pad at `padnest_0_NNN/hash_pad_PPP`, every number in zero-padded decimal.
//! The digit after `padnest_` counts generations of a nest and is always 0.

use crate::index::{PadIndex, PadIndexMaxSize};
use crate::integrity::append_bytes;
use vstd::prelude::*;

verus! {

/// What a path names.
#[derive(Clone, Copy, Debug, PartialEq, Eq, Structural)]
pub enum PathTarget {
    /// The line at an index.
    Line(PadIndex),
    /// The digest of the page of an index; the line component is 0.
    PageDigest(PadIndex),
    /// The digest of the pad of an index; page and line components are 0.
    PadDigest(PadIndex),
}

// ----- the model -----
/// Ten to the power `d`.
pub open spec fn pow10(d: nat) -> nat
    decreases d,
{
    if d == 0 {
        1
    } else {
        10 * pow10((d - 1) as nat)
    }
}

/// The last `d` decimal digits of `n` in ASCII, zero-padded.
pub open spec fn decimal(n: nat, d: nat) -> Seq<u8>
    decreases d,
{
    if d == 0 {
        Seq::empty()
    } else {
        decimal(n / 10, (d - 1) as nat).push((48 + n % 10) as u8)
    }
}

/// The number of decimal digits of `n`.
pub open spec fn digit_count(n: nat) -> nat
    decreases n,
{
    if n < 10 {
        1
    } else {
        1 + digit_count(n / 10)
    }
}

/// `n` in decimal, zero-padded to `d` digits; longer where `n` needs more.
pub open spec fn numeral(n: nat, d: nat) -> Seq<u8> {
    if digit_count(n) <= d {
        decimal(n, d)
    } else {
        decimal(n, digit_count(n))
    }
}

/// `padnest_0_`
pub open spec fn nest_prefix() -> Seq<u8> {
    seq![112u8, 97u8, 100u8, 110u8, 101u8, 115u8, 116u8, 95u8, 48u8, 95u8]
}

/// `/pad_`
pub open spec fn pad_prefix() -> Seq<u8> {
    seq![47u8, 112u8, 97u8, 100u8, 95u8]
}

/// `/page_`
pub open spec fn page_prefix() -> Seq<u8> {
    seq![47u8, 112u8, 97u8, 103u8, 101u8, 95u8]
}

/// `/line_`
pub open spec fn line_prefix() -> Seq<u8> {
    seq![47u8, 108u8, 105u8, 110u8, 101u8, 95u8]
}

/// `/hash_page_`
pub open spec fn page_digest_prefix() -> Seq<u8> {
    seq![47u8, 104u8, 97u8, 115u8, 104u8, 95u8, 112u8, 97u8, 103u8, 101u8, 95u8]
}

/// `/hash_pad_`
pub open spec fn pad_digest_prefix() -> Seq<u8> {
    seq![47u8, 104u8, 97u8, 115u8, 104u8, 95u8, 112u8, 97u8, 100u8, 95u8]
}

/// The directory of the pad of `idx`, relative to the root.
pub open spec fn pad_dir(idx: PadIndex) -> Seq<u8> {
    let d = idx.width.spec_digits() as nat;
    nest_prefix() + numeral(idx.nest as nat, d) + pad_prefix() + numeral(idx.pad as nat, d)
}

/// The path of the line at `idx`, relative to the root.
pub open spec fn line_path(idx: PadIndex) -> Seq<u8> {
    let d = idx.width.spec_digits() as nat;
    pad_dir(idx) + page_prefix() + numeral(idx.page as nat, d) + line_prefix() + numeral(
        idx.line as nat,
        d,
    )
}

/// The path of the digest of the page of `idx`, relative to the root.
pub open spec fn page_digest_path(idx: PadIndex) -> Seq<u8> {
    let d = idx.width.spec_digits() as nat;
    pad_dir(idx) + page_digest_prefix() + numeral(idx.page as nat, d)
}

/// The path of the digest of the pad of `idx`, relative to the root.
pub open spec fn pad_digest_path(idx: PadIndex) -> Seq<u8> {
    let d = idx.width.spec_digits() as nat;
    nest_prefix() + numeral(idx.nest as nat, d) + pad_digest_prefix() + numeral(
        idx.pad as nat,
        d,
    )
}

/// The path of what `target` names, relative to the root.
pub open spec fn target_path(target: PathTarget) -> Seq<u8> {
    match target {
        PathTarget::Line(idx) => line_path(idx),
        PathTarget::PageDigest(idx) => page_digest_path(idx),
        PathTarget::PadDigest(idx) => pad_digest_path(idx),
    }
}

/// `target` is one that a path can name: its index fits its width class,
/// and the components that the path does not hold are 0.
pub open spec fn nameable(target: PathTarget) -> bool {
    match target {
        PathTarget::Line(idx) => idx.spec_fits_width(),
        PathTarget::PageDigest(idx) => idx.spec_fits_width() && idx.line == 0,
        PathTarget::PadDigest(idx) => idx.spec_fits_width() && idx.line == 0 && idx.page == 0,
    }
}

/// The width class of the index of `target`.
pub open spec fn target_width(target: PathTarget) -> PadIndexMaxSize {
    match target {
        PathTarget::Line(idx) => idx.width,
        PathTarget::PageDigest(idx) => idx.width,
        PathTarget::PadDigest(idx) => idx.width,
    }
}

/// `root`, a slash, and `relative`.
pub open spec fn under_root(root: Seq<u8>, relative: Seq<u8>) -> Seq<u8> {
    root.push(47u8) + relative
}

// ----- facts about decimals -----
/// A decimal of `d` digits has `d` bytes, each an ASCII digit.
pub proof fn lemma_decimal_digits(n: nat, d: nat)
    ensures
        decimal(n, d).len() == d,
        forall|i: int| 0 <= i < d ==> 48 <= #[trigger] decimal(n, d)[i] <= 57,
    decreases d,
{
    if d > 0 {
        lemma_decimal_digits(n / 10, (d - 1) as nat);
    }
}

/// Numbers below ten to the `d` with the same `d` digits are equal.
pub proof fn lemma_decimal_injective(n: nat, m: nat, d: nat)
    requires
        n < pow10(d),
        m < pow10(d),
        decimal(n, d) == decimal(m, d),
    ensures
        n == m,
    decreases d,
{
    if d > 0 {
        let a = decimal(n / 10, (d - 1) as nat);
        let b = decimal(m / 10, (d - 1) as nat);
        lemma_decimal_digits(n / 10, (d - 1) as nat);
        lemma_decimal_digits(m / 10, (d - 1) as nat);
        assert(decimal(n, d).drop_last() =~= a);
        assert(decimal(m, d).drop_last() =~= b);
        assert(decimal(n, d).last() == (48 + n % 10) as u8);
        assert(decimal(m, d).last() == (48 + m % 10) as u8);
        lemma_decimal_injective(n / 10, m / 10, (d - 1) as nat);
    }
}

/// The largest component of a width class is one below ten to the number of
/// its digits.
pub proof fn lemma_limit_is_power(width: PadIndexMaxSize)
    ensures
        width.spec_limit() + 1 == pow10(width.spec_digits() as nat),
        width.spec_digits() == 3 || width.spec_digits() == 6,
{
    assert(pow10(0) == 1);
    assert(pow10(1) == 10);
    assert(pow10(2) == 100);
    assert(pow10(3) == 1000);
    assert(pow10(4) == 10000);
    assert(pow10(5) == 100000);
    assert(pow10(6) == 1000000);
}

/// A number of more than `k` digits is at least ten to the `k`; in a
/// `u32` that leaves room for ten digits at most.
pub proof fn lemma_pow10_step(k: nat, rest: nat, n: nat)
    requires
        rest >= 10,
        rest * pow10(k) <= n,
        n <= u32::MAX,
    ensures
        (rest / 10) * pow10(k + 1) <= n,
        k + 1 <= 9,
{
    assert(pow10(k + 1) == 10 * pow10(k));
    assert((rest / 10) * (10 * pow10(k)) <= rest * pow10(k)) by (nonlinear_arith)
        requires
            (rest / 10) * 10 <= rest,
    ;
    if k >= 9 {
        lemma_pow10_grows(9, k);
        assert(pow10(9) == 1000000000) by {
            assert(pow10(0) == 1);
            assert(pow10(1) == 10);
            assert(pow10(2) == 100);
            assert(pow10(3) == 1000);
            assert(pow10(4) == 10000);
            assert(pow10(5) == 100000);
            assert(pow10(6) == 1000000);
            assert(pow10(7) == 10000000);
            assert(pow10(8) == 100000000);
        }
        assert(rest * pow10(k) >= 10 * pow10(9)) by (nonlinear_arith)
            requires
                rest >= 10,
                pow10(k) >= pow10(9),
        ;
    }
}

/// The powers of ten grow.
pub proof fn lemma_pow10_grows(a: nat, b: nat)
    requires
        a <= b,
    ensures
        1 <= pow10(a) <= pow10(b),
    decreases b,
{
    if b == 0 {
    } else if a == b {
        lemma_pow10_grows((a - 1) as nat, (b - 1) as nat);
    } else {
        lemma_pow10_grows(a, (b - 1) as nat);
    }
}

/// A number that fits in `d` digits is below ten to the `d`, and the other
/// way round.
pub proof fn lemma_digit_count(n: nat, d: nat)
    ensures
        digit_count(n) <= d <==> (n < pow10(d) && d >= 1),
    decreases d,
{
    if d == 0 {
    } else if n < 10 {
        lemma_pow10_grows(1, d);
        assert(pow10(1) == 10) by {
            assert(pow10(0) == 1);
        }
    } else {
        lemma_digit_count(n / 10, (d - 1) as nat);
        assert(pow10(0) == 1);
    }
}

// ----- rendering -----
fn push_decimal(out: &mut Vec<u8>, n: u32, d: usize)
    ensures
        final(out)@ == old(out)@ + decimal(n as nat, d as nat),
    decreases d,
{
    if d == 0 {
        assert(out@ =~= old(out)@ + decimal(n as nat, 0));
    } else {
        push_decimal(out, n / 10, d - 1);
        let digit: u8 = (n % 10) as u8;
        out.push(48 + digit);
        assert(out@ =~= old(out)@ + decimal(n as nat, d as nat));
    }
}

fn push_numeral(out: &mut Vec<u8>, n: u32, d: usize)
    ensures
        final(out)@ == old(out)@ + numeral(n as nat, d as nat),
{
    let mut count: usize = 1;
    let mut rest: u32 = n;
    assert(pow10(0) == 1);
    assert(rest * pow10(0) == rest) by (nonlinear_arith)
        requires
            pow10(0) == 1,
    ;
    while rest >= 10
        invariant
            1 <= count <= 10,
            digit_count(n as nat) == count - 1 + digit_count(rest as nat),
            rest * pow10((count - 1) as nat) <= n,
        decreases rest,
    {
        proof {
            lemma_pow10_step((count - 1) as nat, rest as nat, n as nat);
        }
        rest = rest / 10;
        count += 1;
    }
    if count <= d {
        push_decimal(out, n, d);
    } else {
        push_decimal(out, n, count);
    }
}

fn push_nest_prefix(out: &mut Vec<u8>)
    ensures
        final(out)@ == old(out)@ + nest_prefix(),
{
    let lit: [u8; 10] = [112, 97, 100, 110, 101, 115, 116, 95, 48, 95];
    assert(lit@ =~= nest_prefix());
    append_bytes(out, lit.as_slice());
}

fn push_pad_prefix(out: &mut Vec<u8>)
    ensures
        final(out)@ == old(out)@ + pad_prefix(),
{
    let lit: [u8; 5] = [47, 112, 97, 100, 95];
    assert(lit@ =~= pad_prefix());
    append_bytes(out, lit.as_slice());
}

fn push_page_prefix(out: &mut Vec<u8>)
    ensures
        final(out)@ == old(out)@ + page_prefix(),
{
    let lit: [u8; 6] = [47, 112, 97, 103, 101, 95];
    assert(lit@ =~= page_prefix());
    append_bytes(out, lit.as_slice());
}

fn push_line_prefix(out: &mut Vec<u8>)
    ensures
        final(out)@ == old(out)@ + line_prefix(),
{
    let lit: [u8; 6] = [47, 108, 105, 110, 101, 95];
    assert(lit@ =~= line_prefix());
    append_bytes(out, lit.as_slice());
}

fn push_page_digest_prefix(out: &mut Vec<u8>)
    ensures
        final(out)@ == old(out)@ + page_digest_prefix(),
{
    let lit: [u8; 11] = [47, 104, 97, 115, 104, 95, 112, 97, 103, 101, 95];
    assert(lit@ =~= page_digest_prefix());
    append_bytes(out, lit.as_slice());
}

fn push_pad_digest_prefix(out: &mut Vec<u8>)
    ensures
        final(out)@ == old(out)@ + pad_digest_prefix(),
{
    let lit: [u8; 10] = [47, 104, 97, 115, 104, 95, 112, 97, 100, 95];
    assert(lit@ =~= pad_digest_prefix());
    append_bytes(out, lit.as_slice());
}

fn push_pad_dir(out: &mut Vec<u8>, idx: &PadIndex)
    ensures
        final(out)@ == old(out)@ + pad_dir(*idx),
{
    let d: usize = idx.width.digits();
    push_nest_prefix(out);
    push_numeral(out, idx.nest, d);
    push_pad_prefix(out);
    push_numeral(out, idx.pad, d);
    assert(out@ =~= old(out)@ + pad_dir(*idx));
}

/// The path of the line at `idx`, relative to the root of the padset.
pub fn relative_line_path(idx: &PadIndex) -> (path: Vec<u8>)
    ensures
        path@ == line_path(*idx),
{
    let d: usize = idx.width.digits();
    let mut out: Vec<u8> = Vec::new();
    push_pad_dir(&mut out, idx);
    push_page_prefix(&mut out);
    push_numeral(&mut out, idx.page, d);
    push_line_prefix(&mut out);
    push_numeral(&mut out, idx.line, d);
    assert(out@ =~= line_path(*idx));
    out
}

/// The path of the digest of the page of `idx`, relative to the root.
pub fn relative_page_digest_path(idx: &PadIndex) -> (path: Vec<u8>)
    ensures
        path@ == page_digest_path(*idx),
{
    let d: usize = idx.width.digits();
    let mut out: Vec<u8> = Vec::new();
    push_pad_dir(&mut out, idx);
    push_page_digest_prefix(&mut out);
    push_numeral(&mut out, idx.page, d);
    assert(out@ =~= page_digest_path(*idx));
    out
}

/// The path of the digest of the pad of `idx`, relative to the root.
pub fn relative_pad_digest_path(idx: &PadIndex) -> (path: Vec<u8>)
    ensures
        path@ == pad_digest_path(*idx),
{
    let d: usize = idx.width.digits();
    let mut out: Vec<u8> = Vec::new();
    push_nest_prefix(&mut out);
    push_numeral(&mut out, idx.nest, d);
    push_pad_digest_prefix(&mut out);
    push_numeral(&mut out, idx.pad, d);
    assert(out@ =~= pad_digest_path(*idx));
    out
}

/// The path of what `target` names, relative to the root.
pub fn relative_path(target: &PathTarget) -> (path: Vec<u8>)
    ensures
        path@ == target_path(*target),
{
    match target {
        PathTarget::Line(idx) => relative_line_path(idx),
        PathTarget::PageDigest(idx) => relative_page_digest_path(idx),
        PathTarget::PadDigest(idx) => relative_pad_digest_path(idx),
    }
}

impl PadIndex {
    /// The path of the line at this index in the padset at `root`.
    pub fn to_path(&self, root: &[u8]) -> (path: Vec<u8>)
        ensures
            path@ == under_root(root@, line_path(*self)),
    {
        let mut out: Vec<u8> = Vec::new();
        append_bytes(&mut out, root);
        out.push(47u8);
        let relative = relative_line_path(self);
        append_bytes(&mut out, relative.as_slice());
        assert(out@ =~= under_root(root@, line_path(*self)));
        out
    }
}

} // verus!
