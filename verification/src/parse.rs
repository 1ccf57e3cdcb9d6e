//! Reading paths back into what they name.
//!
//! A path is accepted only where it is, byte for byte, the path of some
//! target whose index fits the width class asked for.

use crate::index::{PadIndex, PadIndexMaxSize};
use crate::path::{
    decimal,
    lemma_decimal_digits,
    lemma_decimal_injective,
    lemma_digit_count,
    lemma_limit_is_power,
    line_path,
    line_prefix,
    nameable,
    nest_prefix,
    numeral,
    pad_digest_path,
    pad_digest_prefix,
    pad_dir,
    pad_prefix,
    page_digest_path,
    page_digest_prefix,
    page_prefix,
    pow10,
    target_path,
    target_width,
    PathTarget,
};
use vstd::prelude::*;

verus! {

// ----- the parts of a path -----
/// The components of an index that fits its width class are rendered with
/// exactly the digits of the class.
pub proof fn lemma_fitting_numerals(idx: PadIndex)
    requires
        idx.spec_fits_width(),
    ensures
        ({
            let d = idx.width.spec_digits() as nat;
            &&& numeral(idx.nest as nat, d) == decimal(idx.nest as nat, d)
            &&& numeral(idx.pad as nat, d) == decimal(idx.pad as nat, d)
            &&& numeral(idx.page as nat, d) == decimal(idx.page as nat, d)
            &&& numeral(idx.line as nat, d) == decimal(idx.line as nat, d)
        }),
{
    let d = idx.width.spec_digits() as nat;
    lemma_limit_is_power(idx.width);
    lemma_digit_count(idx.nest as nat, d);
    lemma_digit_count(idx.pad as nat, d);
    lemma_digit_count(idx.page as nat, d);
    lemma_digit_count(idx.line as nat, d);
}

/// The parts of the directory of a pad, by position.
pub proof fn lemma_pad_dir_parts(idx: PadIndex)
    requires
        idx.spec_fits_width(),
    ensures
        ({
            let d = idx.width.spec_digits() as int;
            let p = pad_dir(idx);
            &&& p.len() == 15 + 2 * d
            &&& p.subrange(0, 10) == nest_prefix()
            &&& p.subrange(10, 10 + d) == decimal(idx.nest as nat, d as nat)
            &&& p.subrange(10 + d, 15 + d) == pad_prefix()
            &&& p.subrange(15 + d, 15 + 2 * d) == decimal(idx.pad as nat, d as nat)
        }),
{
    let d = idx.width.spec_digits() as int;
    let p = pad_dir(idx);
    lemma_fitting_numerals(idx);
    lemma_decimal_digits(idx.nest as nat, d as nat);
    lemma_decimal_digits(idx.pad as nat, d as nat);
    assert(p.subrange(0, 10) =~= nest_prefix());
    assert(p.subrange(10, 10 + d) =~= decimal(idx.nest as nat, d as nat));
    assert(p.subrange(10 + d, 15 + d) =~= pad_prefix());
    assert(p.subrange(15 + d, 15 + 2 * d) =~= decimal(idx.pad as nat, d as nat));
}

/// The parts of the path of a line, by position.
pub proof fn lemma_line_path_parts(idx: PadIndex)
    requires
        idx.spec_fits_width(),
    ensures
        ({
            let d = idx.width.spec_digits() as int;
            let p = line_path(idx);
            &&& p.len() == 27 + 4 * d
            &&& p.subrange(0, 15 + 2 * d) == pad_dir(idx)
            &&& p.subrange(15 + 2 * d, 21 + 2 * d) == page_prefix()
            &&& p.subrange(21 + 2 * d, 21 + 3 * d) == decimal(idx.page as nat, d as nat)
            &&& p.subrange(21 + 3 * d, 27 + 3 * d) == line_prefix()
            &&& p.subrange(27 + 3 * d, 27 + 4 * d) == decimal(idx.line as nat, d as nat)
        }),
{
    let d = idx.width.spec_digits() as int;
    let p = line_path(idx);
    lemma_fitting_numerals(idx);
    lemma_pad_dir_parts(idx);
    lemma_decimal_digits(idx.page as nat, d as nat);
    lemma_decimal_digits(idx.line as nat, d as nat);
    assert(p.subrange(0, 15 + 2 * d) =~= pad_dir(idx));
    assert(p.subrange(15 + 2 * d, 21 + 2 * d) =~= page_prefix());
    assert(p.subrange(21 + 2 * d, 21 + 3 * d) =~= decimal(idx.page as nat, d as nat));
    assert(p.subrange(21 + 3 * d, 27 + 3 * d) =~= line_prefix());
    assert(p.subrange(27 + 3 * d, 27 + 4 * d) =~= decimal(idx.line as nat, d as nat));
}

/// The parts of the path of a page digest, by position.
pub proof fn lemma_page_digest_path_parts(idx: PadIndex)
    requires
        idx.spec_fits_width(),
    ensures
        ({
            let d = idx.width.spec_digits() as int;
            let p = page_digest_path(idx);
            &&& p.len() == 26 + 3 * d
            &&& p.subrange(0, 15 + 2 * d) == pad_dir(idx)
            &&& p.subrange(15 + 2 * d, 26 + 2 * d) == page_digest_prefix()
            &&& p.subrange(26 + 2 * d, 26 + 3 * d) == decimal(idx.page as nat, d as nat)
        }),
{
    let d = idx.width.spec_digits() as int;
    let p = page_digest_path(idx);
    lemma_fitting_numerals(idx);
    lemma_pad_dir_parts(idx);
    lemma_decimal_digits(idx.page as nat, d as nat);
    assert(p.subrange(0, 15 + 2 * d) =~= pad_dir(idx));
    assert(p.subrange(15 + 2 * d, 26 + 2 * d) =~= page_digest_prefix());
    assert(p.subrange(26 + 2 * d, 26 + 3 * d) =~= decimal(idx.page as nat, d as nat));
}

/// The parts of the path of a pad digest, by position.
pub proof fn lemma_pad_digest_path_parts(idx: PadIndex)
    requires
        idx.spec_fits_width(),
    ensures
        ({
            let d = idx.width.spec_digits() as int;
            let p = pad_digest_path(idx);
            &&& p.len() == 20 + 2 * d
            &&& p.subrange(0, 10) == nest_prefix()
            &&& p.subrange(10, 10 + d) == decimal(idx.nest as nat, d as nat)
            &&& p.subrange(10 + d, 20 + d) == pad_digest_prefix()
            &&& p.subrange(20 + d, 20 + 2 * d) == decimal(idx.pad as nat, d as nat)
        }),
{
    let d = idx.width.spec_digits() as int;
    let p = pad_digest_path(idx);
    lemma_fitting_numerals(idx);
    lemma_decimal_digits(idx.nest as nat, d as nat);
    lemma_decimal_digits(idx.pad as nat, d as nat);
    assert(p.subrange(0, 10) =~= nest_prefix());
    assert(p.subrange(10, 10 + d) =~= decimal(idx.nest as nat, d as nat));
    assert(p.subrange(10 + d, 20 + d) =~= pad_digest_prefix());
    assert(p.subrange(20 + d, 20 + 2 * d) =~= decimal(idx.pad as nat, d as nat));
}

/// A part of a part: taking a range of a range.
pub proof fn lemma_subrange_of_subrange(s: Seq<u8>, a: int, b: int, c: int, e: int)
    requires
        0 <= a <= b <= s.len(),
        0 <= c <= e <= b - a,
    ensures
        s.subrange(a, b).subrange(c, e) == s.subrange(a + c, a + e),
{
    assert(s.subrange(a, b).subrange(c, e) =~= s.subrange(a + c, a + e));
}

// ----- the codec is one to one -----
/// Two indices of one width class whose pads have the same directory have
/// the same nest and pad.
pub proof fn lemma_pad_dir_injective(a: PadIndex, b: PadIndex)
    requires
        a.width == b.width,
        a.spec_fits_width(),
        b.spec_fits_width(),
        pad_dir(a) == pad_dir(b),
    ensures
        a.nest == b.nest,
        a.pad == b.pad,
{
    let d = a.width.spec_digits() as nat;
    lemma_limit_is_power(a.width);
    lemma_pad_dir_parts(a);
    lemma_pad_dir_parts(b);
    lemma_decimal_injective(a.nest as nat, b.nest as nat, d);
    lemma_decimal_injective(a.pad as nat, b.pad as nat, d);
}

/// No two targets that a path can name, of one width class, have the same
/// path.
pub proof fn lemma_target_path_injective(a: PathTarget, b: PathTarget)
    requires
        nameable(a),
        nameable(b),
        target_width(a) == target_width(b),
        target_path(a) == target_path(b),
    ensures
        a == b,
{
    let w = target_width(a);
    let d = w.spec_digits() as nat;
    lemma_limit_is_power(w);
    match (a, b) {
        (PathTarget::Line(x), PathTarget::Line(y)) => {
            lemma_line_path_parts(x);
            lemma_line_path_parts(y);
            lemma_pad_dir_injective(x, y);
            lemma_decimal_injective(x.page as nat, y.page as nat, d);
            lemma_decimal_injective(x.line as nat, y.line as nat, d);
        },
        (PathTarget::PageDigest(x), PathTarget::PageDigest(y)) => {
            lemma_page_digest_path_parts(x);
            lemma_page_digest_path_parts(y);
            lemma_pad_dir_injective(x, y);
            lemma_decimal_injective(x.page as nat, y.page as nat, d);
        },
        (PathTarget::PadDigest(x), PathTarget::PadDigest(y)) => {
            lemma_pad_digest_path_parts(x);
            lemma_pad_digest_path_parts(y);
            lemma_decimal_injective(x.nest as nat, y.nest as nat, d);
            lemma_decimal_injective(x.pad as nat, y.pad as nat, d);
        },
        (PathTarget::Line(x), PathTarget::PageDigest(y)) => {
            lemma_line_path_parts(x);
            lemma_page_digest_path_parts(y);
        },
        (PathTarget::Line(x), PathTarget::PadDigest(y)) => {
            lemma_line_path_parts(x);
            lemma_pad_digest_path_parts(y);
        },
        (PathTarget::PageDigest(x), PathTarget::Line(y)) => {
            lemma_page_digest_path_parts(x);
            lemma_line_path_parts(y);
        },
        (PathTarget::PageDigest(x), PathTarget::PadDigest(y)) => {
            lemma_page_digest_path_parts(x);
            lemma_pad_digest_path_parts(y);
        },
        (PathTarget::PadDigest(x), PathTarget::Line(y)) => {
            lemma_pad_digest_path_parts(x);
            lemma_line_path_parts(y);
        },
        (PathTarget::PadDigest(x), PathTarget::PageDigest(y)) => {
            lemma_pad_digest_path_parts(x);
            lemma_page_digest_path_parts(y);
        },
    }
}

// ----- reading -----
/// The powers of ten up to a million.
pub proof fn lemma_pow10_values()
    ensures
        pow10(0) == 1,
        pow10(1) == 10,
        pow10(2) == 100,
        pow10(3) == 1000,
        pow10(4) == 10000,
        pow10(5) == 100000,
        pow10(6) == 1000000,
{
    assert(pow10(0) == 1);
    assert(pow10(1) == 10);
    assert(pow10(2) == 100);
    assert(pow10(3) == 1000);
    assert(pow10(4) == 10000);
    assert(pow10(5) == 100000);
    assert(pow10(6) == 1000000);
}

/// Reads the bytes `lit` at `pos`; gives the position after them.
fn eat_literal(path: &[u8], pos: usize, lit: &[u8]) -> (r: Option<usize>)
    requires
        pos <= path@.len(),
    ensures
        match r {
            Some(next) => {
                &&& next == pos + lit@.len()
                &&& next <= path@.len()
                &&& path@.subrange(pos as int, next as int) == lit@
            },
            None => pos + lit@.len() > path@.len() || path@.subrange(
                pos as int,
                pos + lit@.len(),
            ) != lit@,
        },
{
    let n: usize = lit.len();
    let total: usize = path.len();
    if total - pos < n {
        return None;
    }
    let mut i: usize = 0;
    while i < n
        invariant
            i <= n,
            n == lit@.len(),
            total == path@.len(),
            pos + n <= path@.len(),
            forall|j: int| 0 <= j < i ==> path@[pos + j] == lit@[j],
        decreases n - i,
    {
        if path[pos + i] != lit[i] {
            assert(path@.subrange(pos as int, pos + n)[i as int] != lit@[i as int]);
            return None;
        }
        i += 1;
    }
    assert(path@.subrange(pos as int, pos + n) =~= lit@);
    Some(pos + n)
}

/// Reads `d` decimal digits at `pos`; gives their value and the position
/// after them.
fn eat_number(path: &[u8], pos: usize, d: usize) -> (r: Option<(u32, usize)>)
    requires
        pos <= path@.len(),
        d <= 6,
    ensures
        match r {
            Some((n, next)) => {
                &&& next == pos + d
                &&& next <= path@.len()
                &&& path@.subrange(pos as int, next as int) == decimal(n as nat, d as nat)
                &&& n < pow10(d as nat)
            },
            None => pos + d > path@.len() || forall|n: nat|
                path@.subrange(pos as int, pos + d) != decimal(n, d as nat),
        },
{
    let total: usize = path.len();
    if total - pos < d {
        return None;
    }
    let mut value: u32 = 0;
    let mut i: usize = 0;
    assert(path@.subrange(pos as int, pos as int) =~= decimal(0, 0));
    while i < d
        invariant
            i <= d <= 6,
            total == path@.len(),
            pos + d <= path@.len(),
            value < pow10(i as nat),
            pow10(i as nat) <= 1000000,
            path@.subrange(pos as int, pos + i) == decimal(value as nat, i as nat),
        decreases d - i,
    {
        let c: u8 = path[pos + i];
        if c < 48 || c > 57 {
            assert forall|n: nat| path@.subrange(pos as int, pos + d) != decimal(n, d as nat) by {
                lemma_decimal_digits(n, d as nat);
                assert(path@.subrange(pos as int, pos + d)[i as int] == c);
            }
            return None;
        }
        let ghost before = value;
        assert(pow10((i + 1) as nat) == 10 * pow10(i as nat));
        proof {
            lemma_pow10_values();
        }
        value = value * 10 + (c - 48) as u32;
        i += 1;
        assert(path@.subrange(pos as int, pos + i) =~= path@.subrange(pos as int, pos + i - 1).push(
            c,
        ));
        assert(value as nat / 10 == before);
        assert(value as nat % 10 == c - 48);
    }
    Some((value, pos + d))
}

fn eat_nest_prefix(path: &[u8], pos: usize) -> (r: Option<usize>)
    requires
        pos <= path@.len(),
    ensures
        match r {
            Some(next) => {
                &&& next == pos + 10
                &&& next <= path@.len()
                &&& path@.subrange(pos as int, next as int) == nest_prefix()
            },
            None => pos + 10 > path@.len() || path@.subrange(pos as int, pos + 10)
                != nest_prefix(),
        },
{
    let lit: [u8; 10] = [112, 97, 100, 110, 101, 115, 116, 95, 48, 95];
    assert(lit@ =~= nest_prefix());
    eat_literal(path, pos, lit.as_slice())
}

fn eat_pad_prefix(path: &[u8], pos: usize) -> (r: Option<usize>)
    requires
        pos <= path@.len(),
    ensures
        match r {
            Some(next) => {
                &&& next == pos + 5
                &&& next <= path@.len()
                &&& path@.subrange(pos as int, next as int) == pad_prefix()
            },
            None => pos + 5 > path@.len() || path@.subrange(pos as int, pos + 5) != pad_prefix(),
        },
{
    let lit: [u8; 5] = [47, 112, 97, 100, 95];
    assert(lit@ =~= pad_prefix());
    eat_literal(path, pos, lit.as_slice())
}

fn eat_page_prefix(path: &[u8], pos: usize) -> (r: Option<usize>)
    requires
        pos <= path@.len(),
    ensures
        match r {
            Some(next) => {
                &&& next == pos + 6
                &&& next <= path@.len()
                &&& path@.subrange(pos as int, next as int) == page_prefix()
            },
            None => pos + 6 > path@.len() || path@.subrange(pos as int, pos + 6) != page_prefix(),
        },
{
    let lit: [u8; 6] = [47, 112, 97, 103, 101, 95];
    assert(lit@ =~= page_prefix());
    eat_literal(path, pos, lit.as_slice())
}

fn eat_line_prefix(path: &[u8], pos: usize) -> (r: Option<usize>)
    requires
        pos <= path@.len(),
    ensures
        match r {
            Some(next) => {
                &&& next == pos + 6
                &&& next <= path@.len()
                &&& path@.subrange(pos as int, next as int) == line_prefix()
            },
            None => pos + 6 > path@.len() || path@.subrange(pos as int, pos + 6) != line_prefix(),
        },
{
    let lit: [u8; 6] = [47, 108, 105, 110, 101, 95];
    assert(lit@ =~= line_prefix());
    eat_literal(path, pos, lit.as_slice())
}

fn eat_page_digest_prefix(path: &[u8], pos: usize) -> (r: Option<usize>)
    requires
        pos <= path@.len(),
    ensures
        match r {
            Some(next) => {
                &&& next == pos + 11
                &&& next <= path@.len()
                &&& path@.subrange(pos as int, next as int) == page_digest_prefix()
            },
            None => pos + 11 > path@.len() || path@.subrange(pos as int, pos + 11)
                != page_digest_prefix(),
        },
{
    let lit: [u8; 11] = [47, 104, 97, 115, 104, 95, 112, 97, 103, 101, 95];
    assert(lit@ =~= page_digest_prefix());
    eat_literal(path, pos, lit.as_slice())
}

fn eat_pad_digest_prefix(path: &[u8], pos: usize) -> (r: Option<usize>)
    requires
        pos <= path@.len(),
    ensures
        match r {
            Some(next) => {
                &&& next == pos + 10
                &&& next <= path@.len()
                &&& path@.subrange(pos as int, next as int) == pad_digest_prefix()
            },
            None => pos + 10 > path@.len() || path@.subrange(pos as int, pos + 10)
                != pad_digest_prefix(),
        },
{
    let lit: [u8; 10] = [47, 104, 97, 115, 104, 95, 112, 97, 100, 95];
    assert(lit@ =~= pad_digest_prefix());
    eat_literal(path, pos, lit.as_slice())
}

/// Reads the directory of a pad at the start of `path`; gives nest, pad
/// and the position after the directory.
fn eat_pad_dir(path: &[u8], width: PadIndexMaxSize) -> (r: Option<(u32, u32, usize)>)
    ensures
        match r {
            Some((nest, pad, next)) => {
                let idx = PadIndex { nest, pad, page: 0, line: 0, width };
                &&& next == 15 + 2 * width.spec_digits()
                &&& next <= path@.len()
                &&& path@.subrange(0, next as int) == pad_dir(idx)
                &&& idx.spec_fits_width()
            },
            None => forall|idx: PadIndex|
                idx.width == width && idx.spec_fits_width() && 15 + 2 * width.spec_digits()
                    <= path@.len() ==> path@.subrange(0, 15 + 2 * width.spec_digits())
                    != #[trigger] pad_dir(idx),
        },
{
    let d: usize = width.digits();
    proof {
        lemma_limit_is_power(width);
    }
    let ghost whole = 15 + 2 * d;
    let nest_at: usize = match eat_nest_prefix(path, 0) {
        Some(p) => p,
        None => {
            assert forall|idx: PadIndex|
                idx.width == width && idx.spec_fits_width() && whole <= path@.len() implies path@.subrange(
                0,
                whole,
            ) != #[trigger] pad_dir(idx) by {
                lemma_pad_dir_parts(idx);
                lemma_subrange_of_subrange(path@, 0, whole, 0, 10);
            }
            return None;
        },
    };
    let (nest, nest_end) = match eat_number(path, nest_at, d) {
        Some(x) => x,
        None => {
            assert forall|idx: PadIndex|
                idx.width == width && idx.spec_fits_width() && whole <= path@.len() implies path@.subrange(
                0,
                whole,
            ) != #[trigger] pad_dir(idx) by {
                lemma_pad_dir_parts(idx);
                lemma_subrange_of_subrange(path@, 0, whole, 10, 10 + d);
            }
            return None;
        },
    };
    let pad_at: usize = match eat_pad_prefix(path, nest_end) {
        Some(p) => p,
        None => {
            assert forall|idx: PadIndex|
                idx.width == width && idx.spec_fits_width() && whole <= path@.len() implies path@.subrange(
                0,
                whole,
            ) != #[trigger] pad_dir(idx) by {
                lemma_pad_dir_parts(idx);
                lemma_subrange_of_subrange(path@, 0, whole, 10 + d, 15 + d);
            }
            return None;
        },
    };
    let (pad, pad_end) = match eat_number(path, pad_at, d) {
        Some(x) => x,
        None => {
            assert forall|idx: PadIndex|
                idx.width == width && idx.spec_fits_width() && whole <= path@.len() implies path@.subrange(
                0,
                whole,
            ) != #[trigger] pad_dir(idx) by {
                lemma_pad_dir_parts(idx);
                lemma_subrange_of_subrange(path@, 0, whole, 15 + d, 15 + 2 * d);
            }
            return None;
        },
    };
    proof {
        let idx = PadIndex { nest, pad, page: 0, line: 0, width };
        lemma_fitting_numerals(idx);
        lemma_decimal_digits(nest as nat, d as nat);
        lemma_decimal_digits(pad as nat, d as nat);
        assert(path@.subrange(0, pad_end as int) =~= path@.subrange(0, 10) + path@.subrange(
            10,
            nest_end as int,
        ) + path@.subrange(nest_end as int, pad_at as int) + path@.subrange(pad_at as int, pad_end as int));
    }
    Some((nest, pad, pad_end))
}

/// The index of the line that `path` names, relative to the root of a
/// padset, where it names one of width class `width`.
pub fn parse_line_path(path: &[u8], width: PadIndexMaxSize) -> (r: Option<PadIndex>)
    ensures
        match r {
            Some(idx) => idx.width == width && idx.spec_fits_width() && path@ == line_path(idx),
            None => forall|idx: PadIndex|
                idx.width == width && idx.spec_fits_width() ==> path@ != #[trigger] line_path(idx),
        },
{
    let d: usize = width.digits();
    proof {
        lemma_limit_is_power(width);
    }
    let ghost whole = 27 + 4 * d;
    let ghost dir = 15 + 2 * d;
    if path.len() != 27 + 4 * d {
        assert forall|idx: PadIndex| idx.width == width && idx.spec_fits_width() implies path@ != #[trigger] line_path(
            idx,
        ) by {
            lemma_line_path_parts(idx);
        }
        return None;
    }
    let (nest, pad, pad_end) = match eat_pad_dir(path, width) {
        Some(x) => x,
        None => {
            assert forall|idx: PadIndex| idx.width == width && idx.spec_fits_width() implies path@ != #[trigger] line_path(
                idx,
            ) by {
                lemma_line_path_parts(idx);
                assert(pad_dir(idx) == pad_dir(idx));
            }
            return None;
        },
    };
    let page_at: usize = match eat_page_prefix(path, pad_end) {
        Some(p) => p,
        None => {
            assert forall|idx: PadIndex| idx.width == width && idx.spec_fits_width() implies path@ != #[trigger] line_path(
                idx,
            ) by {
                lemma_line_path_parts(idx);
            }
            return None;
        },
    };
    let (page, page_end) = match eat_number(path, page_at, d) {
        Some(x) => x,
        None => {
            assert forall|idx: PadIndex| idx.width == width && idx.spec_fits_width() implies path@ != #[trigger] line_path(
                idx,
            ) by {
                lemma_line_path_parts(idx);
            }
            return None;
        },
    };
    let line_at: usize = match eat_line_prefix(path, page_end) {
        Some(p) => p,
        None => {
            assert forall|idx: PadIndex| idx.width == width && idx.spec_fits_width() implies path@ != #[trigger] line_path(
                idx,
            ) by {
                lemma_line_path_parts(idx);
            }
            return None;
        },
    };
    let (line, line_end) = match eat_number(path, line_at, d) {
        Some(x) => x,
        None => {
            assert forall|idx: PadIndex| idx.width == width && idx.spec_fits_width() implies path@ != #[trigger] line_path(
                idx,
            ) by {
                lemma_line_path_parts(idx);
            }
            return None;
        },
    };
    let idx = PadIndex { nest, pad, page, line, width };
    proof {
        let head = PadIndex { nest, pad, page: 0, line: 0, width };
        lemma_fitting_numerals(idx);
        assert(pad_dir(idx) == pad_dir(head));
        assert(path@ =~= path@.subrange(0, pad_end as int) + path@.subrange(pad_end as int, page_at as int)
            + path@.subrange(page_at as int, page_end as int) + path@.subrange(page_end as int, line_at as int)
            + path@.subrange(line_at as int, line_end as int));
    }
    Some(idx)
}

/// The index of the page whose digest `path` names, relative to the root
/// of a padset, where it names one of width class `width`; the line
/// component is 0.
pub fn parse_page_digest_path(path: &[u8], width: PadIndexMaxSize) -> (r: Option<PadIndex>)
    ensures
        match r {
            Some(idx) => {
                &&& idx.width == width
                &&& idx.spec_fits_width()
                &&& idx.line == 0
                &&& path@ == page_digest_path(idx)
            },
            None => forall|idx: PadIndex|
                idx.width == width && idx.spec_fits_width() ==> path@
                    != #[trigger] page_digest_path(idx),
        },
{
    let d: usize = width.digits();
    proof {
        lemma_limit_is_power(width);
    }
    if path.len() != 26 + 3 * d {
        assert forall|idx: PadIndex| idx.width == width && idx.spec_fits_width() implies path@
            != #[trigger] page_digest_path(idx) by {
            lemma_page_digest_path_parts(idx);
        }
        return None;
    }
    let (nest, pad, pad_end) = match eat_pad_dir(path, width) {
        Some(x) => x,
        None => {
            assert forall|idx: PadIndex| idx.width == width && idx.spec_fits_width() implies path@
                != #[trigger] page_digest_path(idx) by {
                lemma_page_digest_path_parts(idx);
                assert(pad_dir(idx) == pad_dir(idx));
            }
            return None;
        },
    };
    let page_at: usize = match eat_page_digest_prefix(path, pad_end) {
        Some(p) => p,
        None => {
            assert forall|idx: PadIndex| idx.width == width && idx.spec_fits_width() implies path@
                != #[trigger] page_digest_path(idx) by {
                lemma_page_digest_path_parts(idx);
            }
            return None;
        },
    };
    let (page, page_end) = match eat_number(path, page_at, d) {
        Some(x) => x,
        None => {
            assert forall|idx: PadIndex| idx.width == width && idx.spec_fits_width() implies path@
                != #[trigger] page_digest_path(idx) by {
                lemma_page_digest_path_parts(idx);
            }
            return None;
        },
    };
    let idx = PadIndex { nest, pad, page, line: 0, width };
    proof {
        let head = PadIndex { nest, pad, page: 0, line: 0, width };
        lemma_fitting_numerals(idx);
        assert(pad_dir(idx) == pad_dir(head));
        assert(path@ =~= path@.subrange(0, pad_end as int) + path@.subrange(pad_end as int, page_at as int)
            + path@.subrange(page_at as int, page_end as int));
    }
    Some(idx)
}

/// The index of the pad whose digest `path` names, relative to the root of
/// a padset, where it names one of width class `width`; the page and line
/// components are 0.
pub fn parse_pad_digest_path(path: &[u8], width: PadIndexMaxSize) -> (r: Option<PadIndex>)
    ensures
        match r {
            Some(idx) => {
                &&& idx.width == width
                &&& idx.spec_fits_width()
                &&& idx.line == 0
                &&& idx.page == 0
                &&& path@ == pad_digest_path(idx)
            },
            None => forall|idx: PadIndex|
                idx.width == width && idx.spec_fits_width() ==> path@
                    != #[trigger] pad_digest_path(idx),
        },
{
    let d: usize = width.digits();
    proof {
        lemma_limit_is_power(width);
    }
    if path.len() != 20 + 2 * d {
        assert forall|idx: PadIndex| idx.width == width && idx.spec_fits_width() implies path@
            != #[trigger] pad_digest_path(idx) by {
            lemma_pad_digest_path_parts(idx);
        }
        return None;
    }
    let nest_at: usize = match eat_nest_prefix(path, 0) {
        Some(p) => p,
        None => {
            assert forall|idx: PadIndex| idx.width == width && idx.spec_fits_width() implies path@
                != #[trigger] pad_digest_path(idx) by {
                lemma_pad_digest_path_parts(idx);
            }
            return None;
        },
    };
    let (nest, nest_end) = match eat_number(path, nest_at, d) {
        Some(x) => x,
        None => {
            assert forall|idx: PadIndex| idx.width == width && idx.spec_fits_width() implies path@
                != #[trigger] pad_digest_path(idx) by {
                lemma_pad_digest_path_parts(idx);
            }
            return None;
        },
    };
    let pad_at: usize = match eat_pad_digest_prefix(path, nest_end) {
        Some(p) => p,
        None => {
            assert forall|idx: PadIndex| idx.width == width && idx.spec_fits_width() implies path@
                != #[trigger] pad_digest_path(idx) by {
                lemma_pad_digest_path_parts(idx);
            }
            return None;
        },
    };
    let (pad, pad_end) = match eat_number(path, pad_at, d) {
        Some(x) => x,
        None => {
            assert forall|idx: PadIndex| idx.width == width && idx.spec_fits_width() implies path@
                != #[trigger] pad_digest_path(idx) by {
                lemma_pad_digest_path_parts(idx);
            }
            return None;
        },
    };
    let idx = PadIndex { nest, pad, page: 0, line: 0, width };
    proof {
        lemma_fitting_numerals(idx);
        assert(path@ =~= path@.subrange(0, nest_at as int) + path@.subrange(nest_at as int, nest_end as int)
            + path@.subrange(nest_end as int, pad_at as int) + path@.subrange(pad_at as int, pad_end as int));
    }
    Some(idx)
}

/// What `path` names, relative to the root of a padset: a line, the digest
/// of a page or the digest of a pad of width class `width`. `None` where
/// it is the path of none of them.
pub fn parse_relative_path(path: &[u8], width: PadIndexMaxSize) -> (r: Option<PathTarget>)
    ensures
        match r {
            Some(target) => {
                &&& nameable(target)
                &&& target_width(target) == width
                &&& path@ == target_path(target)
            },
            None => forall|target: PathTarget|
                target_width(target) == width && nameable(target) ==> path@
                    != #[trigger] target_path(target),
        },
{
    match parse_line_path(path, width) {
        Some(idx) => {
            return Some(PathTarget::Line(idx));
        },
        None => {},
    }
    match parse_page_digest_path(path, width) {
        Some(idx) => {
            return Some(PathTarget::PageDigest(idx));
        },
        None => {},
    }
    match parse_pad_digest_path(path, width) {
        Some(idx) => Some(PathTarget::PadDigest(idx)),
        None => {
            assert forall|target: PathTarget|
                target_width(target) == width && nameable(target) implies path@
                != #[trigger] target_path(target) by {
                match target {
                    PathTarget::Line(idx) => {
                        assert(path@ != line_path(idx));
                    },
                    PathTarget::PageDigest(idx) => {
                        assert(path@ != page_digest_path(idx));
                    },
                    PathTarget::PadDigest(idx) => {
                        assert(path@ != pad_digest_path(idx));
                    },
                }
            }
            None
        },
    }
}

} // verus!
