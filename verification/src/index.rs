//! The compound index `[nest, pad, page, line]` and its arithmetic.

use vstd::prelude::*;

verus! {

/// The width class of an index: how many decimal digits each component may
/// take, and so the largest value a component can have.
#[derive(Clone, Copy, Debug, PartialEq, Eq, Structural)]
pub enum PadIndexMaxSize {
    /// Three decimal digits per component, 0 to 999.
    Standard4Byte,
    /// Six decimal digits per component, 0 to 999999.
    Extended8Byte,
}

impl PadIndexMaxSize {
    /// Number of decimal digits of a rendered component.
    pub open spec fn spec_digits(self) -> usize {
        match self {
            PadIndexMaxSize::Standard4Byte => 3,
            PadIndexMaxSize::Extended8Byte => 6,
        }
    }

    /// Largest value of a component.
    pub open spec fn spec_limit(self) -> u32 {
        match self {
            PadIndexMaxSize::Standard4Byte => 999,
            PadIndexMaxSize::Extended8Byte => 999_999,
        }
    }

    #[verifier::when_used_as_spec(spec_digits)]
    pub fn digits(self) -> (d: usize)
        ensures
            d == self.spec_digits(),
    {
        match self {
            PadIndexMaxSize::Standard4Byte => 3,
            PadIndexMaxSize::Extended8Byte => 6,
        }
    }

    #[verifier::when_used_as_spec(spec_limit)]
    pub fn limit(self) -> (m: u32)
        ensures
            m == self.spec_limit(),
    {
        match self {
            PadIndexMaxSize::Standard4Byte => 999,
            PadIndexMaxSize::Extended8Byte => 999_999,
        }
    }
}

/// Raised by [`PadIndex::increment`] when there is no next index.
#[derive(Clone, Copy, Debug, PartialEq, Eq, Structural)]
pub struct Overflow;

/// An index into a padset, or the bounds of one (the inclusive maximum of
/// each component).
#[derive(Clone, Copy, Debug, PartialEq, Eq, Structural)]
pub struct PadIndex {
    pub nest: u32,
    pub pad: u32,
    pub page: u32,
    pub line: u32,
    pub width: PadIndexMaxSize,
}

impl PadIndex {
    // ----- the mathematical model -----
    /// Every component is representable in the index's width class.
    pub open spec fn spec_fits_width(self) -> bool {
        &&& self.nest <= self.width.spec_limit()
        &&& self.pad <= self.width.spec_limit()
        &&& self.page <= self.width.spec_limit()
        &&& self.line <= self.width.spec_limit()
    }

    /// `self` lies inside the box whose inclusive maxima are `bounds`.
    pub open spec fn spec_is_within(self, bounds: PadIndex) -> bool {
        &&& self.width == bounds.width
        &&& self.nest <= bounds.nest
        &&& self.pad <= bounds.pad
        &&& self.page <= bounds.page
        &&& self.line <= bounds.line
    }

    /// Strict lexicographic order by (nest, pad, page, line).
    pub open spec fn lex_lt(self, other: PadIndex) -> bool {
        self.nest < other.nest || (self.nest == other.nest && (self.pad < other.pad || (self.pad
            == other.pad && (self.page < other.page || (self.page == other.page && self.line
            < other.line)))))
    }

    /// Lexicographic order by (nest, pad, page, line).
    pub open spec fn lex_le(self, other: PadIndex) -> bool {
        self.lex_lt(other) || (self.nest == other.nest && self.pad == other.pad && self.page
            == other.page && self.line == other.line)
    }

    /// With `self` as bounds: the number of pads.
    pub open spec fn pad_count(self) -> int {
        (self.nest + 1) * (self.pad + 1)
    }

    /// With `self` as bounds: the number of pages.
    pub open spec fn page_count(self) -> int {
        self.pad_count() * (self.page + 1)
    }

    /// With `self` as bounds: the number of lines.
    pub open spec fn line_count(self) -> int {
        self.page_count() * (self.line + 1)
    }

    /// With `self` as bounds: the number of lines of one pad.
    pub open spec fn lines_per_pad(self) -> int {
        (self.page + 1) * (self.line + 1)
    }

    /// Position of the pad of `self` among all pads under `bounds`, in index order.
    pub open spec fn pad_rank(self, bounds: PadIndex) -> int {
        self.nest * (bounds.pad + 1) + self.pad
    }

    /// Position of the page of `self` among all pages under `bounds`, in index order.
    pub open spec fn page_rank(self, bounds: PadIndex) -> int {
        self.pad_rank(bounds) * (bounds.page + 1) + self.page
    }

    /// Position of `self` among all indices under `bounds`, in index order.
    pub open spec fn rank(self, bounds: PadIndex) -> int {
        self.page_rank(bounds) * (bounds.line + 1) + self.line
    }

    /// The index at position `r` under `bounds`.
    pub open spec fn at_rank(r: int, bounds: PadIndex) -> PadIndex {
        let line_n = bounds.line + 1;
        let page_n = bounds.page + 1;
        let pad_n = bounds.pad + 1;
        PadIndex {
            nest: (r / line_n / page_n / pad_n) as u32,
            pad: ((r / line_n / page_n) % pad_n) as u32,
            page: ((r / line_n) % page_n) as u32,
            line: (r % line_n) as u32,
            width: bounds.width,
        }
    }

    /// The index after `self` under `bounds`: the line advances fastest and
    /// carries into page, pad and nest. `None` when the nest would pass its bound.
    pub open spec fn successor(self, bounds: PadIndex) -> Option<PadIndex> {
        if self.line < bounds.line {
            Some(PadIndex { line: (self.line + 1) as u32, ..self })
        } else if self.page < bounds.page {
            Some(PadIndex { line: 0, page: (self.page + 1) as u32, ..self })
        } else if self.pad < bounds.pad {
            Some(PadIndex { line: 0, page: 0, pad: (self.pad + 1) as u32, ..self })
        } else if self.nest < bounds.nest {
            Some(PadIndex { line: 0, page: 0, pad: 0, nest: (self.nest + 1) as u32, ..self })
        } else {
            None
        }
    }

    // ----- construction and access -----
    /// An index of the standard width class with components `[nest, pad, page, line]`.
    pub fn new_standard(components: [u32; 4]) -> (idx: PadIndex)
        ensures
            idx == (PadIndex {
                nest: components[0],
                pad: components[1],
                page: components[2],
                line: components[3],
                width: PadIndexMaxSize::Standard4Byte,
            }),
    {
        PadIndex {
            nest: components[0],
            pad: components[1],
            page: components[2],
            line: components[3],
            width: PadIndexMaxSize::Standard4Byte,
        }
    }

    /// An index of the extended width class with components `[nest, pad, page, line]`.
    pub fn new_extended(components: [u32; 4]) -> (idx: PadIndex)
        ensures
            idx == (PadIndex {
                nest: components[0],
                pad: components[1],
                page: components[2],
                line: components[3],
                width: PadIndexMaxSize::Extended8Byte,
            }),
    {
        PadIndex {
            nest: components[0],
            pad: components[1],
            page: components[2],
            line: components[3],
            width: PadIndexMaxSize::Extended8Byte,
        }
    }

    /// The components as `[nest, pad, page, line]`.
    pub fn components(&self) -> (c: [u32; 4])
        ensures
            c[0] == self.nest,
            c[1] == self.pad,
            c[2] == self.page,
            c[3] == self.line,
    {
        [self.nest, self.pad, self.page, self.line]
    }

    #[verifier::when_used_as_spec(spec_fits_width)]
    pub fn fits_width(self) -> (b: bool)
        ensures
            b == self.spec_fits_width(),
    {
        let m: u32 = self.width.limit();
        self.nest <= m && self.pad <= m && self.page <= m && self.line <= m
    }

    #[verifier::when_used_as_spec(spec_is_within)]
    pub fn is_within(self, bounds: PadIndex) -> (b: bool)
        ensures
            b == self.spec_is_within(bounds),
    {
        self.width == bounds.width && self.nest <= bounds.nest && self.pad <= bounds.pad
            && self.page <= bounds.page && self.line <= bounds.line
    }

    /// Advances to the next index under `bounds`, carrying from line to page
    /// to pad to nest; `Overflow` when the nest would pass its bound.
    pub fn increment(&self, bounds: &PadIndex) -> (r: Result<PadIndex, Overflow>)
        ensures
            match self.successor(*bounds) {
                Some(next) => r == Ok::<PadIndex, Overflow>(next),
                None => r.is_err(),
            },
    {
        if self.line < bounds.line {
            Ok(PadIndex { line: self.line + 1, ..*self })
        } else if self.page < bounds.page {
            Ok(PadIndex { line: 0, page: self.page + 1, ..*self })
        } else if self.pad < bounds.pad {
            Ok(PadIndex { line: 0, page: 0, pad: self.pad + 1, ..*self })
        } else if self.nest < bounds.nest {
            Ok(PadIndex { line: 0, page: 0, pad: 0, nest: self.nest + 1, ..*self })
        } else {
            Err(Overflow)
        }
    }

    /// Strict lexicographic comparison by (nest, pad, page, line).
    pub fn precedes(&self, other: &PadIndex) -> (b: bool)
        ensures
            b == self.lex_lt(*other),
    {
        self.nest < other.nest || (self.nest == other.nest && (self.pad < other.pad || (self.pad
            == other.pad && (self.page < other.page || (self.page == other.page && self.line
            < other.line)))))
    }

    /// The number of lines under `self` as bounds, where it fits in `usize`.
    pub fn checked_line_count(&self) -> (n: Option<usize>)
        ensures
            match n {
                Some(n) => n == self.line_count(),
                None => self.line_count() > usize::MAX,
            },
    {
        proof {
            lemma_counts_positive(*self);
        }
        let nests: usize = self.nest as usize;
        let pads: usize = self.pad as usize;
        let pages: usize = self.page as usize;
        let lines: usize = self.line as usize;
        let a: usize = match nests.checked_add(1) {
            Some(a) => a,
            None => { return None; },
        };
        let b: usize = match pads.checked_add(1) {
            Some(b) => b,
            None => { return None; },
        };
        let c: usize = match pages.checked_add(1) {
            Some(c) => c,
            None => { return None; },
        };
        let d: usize = match lines.checked_add(1) {
            Some(d) => d,
            None => { return None; },
        };
        let ab: usize = match a.checked_mul(b) {
            Some(ab) => ab,
            None => { return None; },
        };
        let abc: usize = match ab.checked_mul(c) {
            Some(abc) => abc,
            None => { return None; },
        };
        abc.checked_mul(d)
    }

    /// The position of `self` among the indices under `bounds`.
    pub fn rank_in(&self, bounds: &PadIndex) -> (r: usize)
        requires
            self.spec_is_within(*bounds),
            bounds.line_count() <= usize::MAX,
        ensures
            r == self.rank(*bounds),
            r < bounds.line_count(),
    {
        proof {
            lemma_counts_positive(*bounds);
            lemma_rank_in_range(*self, *bounds);
        }
        let pad_n: usize = bounds.pad as usize + 1;
        let page_n: usize = bounds.page as usize + 1;
        let line_n: usize = bounds.line as usize + 1;
        let pad_r: usize = self.nest as usize * pad_n + self.pad as usize;
        let page_r: usize = pad_r * page_n + self.page as usize;
        page_r * line_n + self.line as usize
    }

    /// The position of the page of `self` among the pages under `bounds`.
    pub fn page_rank_in(&self, bounds: &PadIndex) -> (r: usize)
        requires
            self.spec_is_within(*bounds),
            bounds.line_count() <= usize::MAX,
        ensures
            r == self.page_rank(*bounds),
            r < bounds.page_count(),
    {
        proof {
            lemma_counts_positive(*bounds);
            lemma_rank_in_range(*self, *bounds);
        }
        let pad_n: usize = bounds.pad as usize + 1;
        let page_n: usize = bounds.page as usize + 1;
        let pad_r: usize = self.nest as usize * pad_n + self.pad as usize;
        pad_r * page_n + self.page as usize
    }

    /// The position of the pad of `self` among the pads under `bounds`.
    pub fn pad_rank_in(&self, bounds: &PadIndex) -> (r: usize)
        requires
            self.spec_is_within(*bounds),
            bounds.line_count() <= usize::MAX,
        ensures
            r == self.pad_rank(*bounds),
            r < bounds.pad_count(),
    {
        proof {
            lemma_counts_positive(*bounds);
            lemma_rank_in_range(*self, *bounds);
        }
        let pad_n: usize = bounds.pad as usize + 1;
        self.nest as usize * pad_n + self.pad as usize
    }

    /// The index at position `r` under `bounds`.
    pub fn from_rank(r: usize, bounds: &PadIndex) -> (idx: PadIndex)
        requires
            r < bounds.line_count(),
            bounds.line_count() <= usize::MAX,
        ensures
            idx == PadIndex::at_rank(r as int, *bounds),
            idx.spec_is_within(*bounds),
            idx.rank(*bounds) == r,
    {
        proof {
            lemma_counts_positive(*bounds);
            lemma_at_rank(r as int, *bounds);
        }
        let pad_n: usize = bounds.pad as usize + 1;
        let page_n: usize = bounds.page as usize + 1;
        let line_n: usize = bounds.line as usize + 1;
        let by_page: usize = r / line_n;
        let by_pad: usize = by_page / page_n;
        PadIndex {
            nest: (by_pad / pad_n) as u32,
            pad: (by_pad % pad_n) as u32,
            page: (by_page % page_n) as u32,
            line: (r % line_n) as u32,
            width: bounds.width,
        }
    }
}

/// `0 <= q < outer` and `0 <= b < n` give `0 <= q * n + b < outer * n`.
pub proof fn lemma_mixed_radix(q: int, outer: int, b: int, n: int)
    requires
        0 <= q < outer,
        0 <= b < n,
    ensures
        0 <= q * n <= q * n + b < outer * n,
        (q * n + b) / n == q,
        (q * n + b) % n == b,
{
    assert(0 <= q * n) by (nonlinear_arith)
        requires
            0 <= q,
            0 <= n,
    ;
    assert((q + 1) * n <= outer * n) by (nonlinear_arith)
        requires
            q + 1 <= outer,
            0 <= n,
    ;
    assert((q + 1) * n == q * n + n) by (nonlinear_arith);
    vstd::arithmetic::div_mod::lemma_fundamental_div_mod_converse(q * n + b, n, q, b);
}

/// Under any bounds, every count is at least one and each divides into the next.
pub proof fn lemma_counts_positive(bounds: PadIndex)
    ensures
        bounds.nest + 1 <= bounds.pad_count(),
        bounds.pad + 1 <= bounds.pad_count(),
        bounds.pad_count() <= bounds.page_count(),
        bounds.page + 1 <= bounds.page_count(),
        bounds.page_count() <= bounds.line_count(),
        bounds.line + 1 <= bounds.line_count(),
        bounds.line + 1 <= bounds.lines_per_pad(),
        bounds.lines_per_pad() <= bounds.line_count(),
        bounds.line_count() == bounds.pad_count() * bounds.lines_per_pad(),
{
    let a = bounds.nest + 1;
    let b = bounds.pad + 1;
    let c = bounds.page + 1;
    let d = bounds.line + 1;
    assert(a <= a * b && b <= a * b) by (nonlinear_arith)
        requires
            a >= 1,
            b >= 1,
    ;
    assert(a * b <= (a * b) * c && c <= (a * b) * c) by (nonlinear_arith)
        requires
            a * b >= 1,
            c >= 1,
    ;
    assert((a * b) * c <= ((a * b) * c) * d && d <= ((a * b) * c) * d) by (nonlinear_arith)
        requires
            (a * b) * c >= 1,
            d >= 1,
    ;
    assert(d <= c * d && c * d <= ((a * b) * c) * d && ((a * b) * c) * d == (a * b) * (c * d))
        by (nonlinear_arith)
        requires
            a * b >= 1,
            c >= 1,
            d >= 1,
    ;
}

/// An index within its bounds has each of its ranks below the matching count.
pub proof fn lemma_rank_in_range(idx: PadIndex, bounds: PadIndex)
    requires
        idx.spec_is_within(bounds),
    ensures
        0 <= idx.nest * (bounds.pad + 1) <= idx.pad_rank(bounds) < bounds.pad_count(),
        0 <= idx.pad_rank(bounds) * (bounds.page + 1) <= idx.page_rank(bounds)
            < bounds.page_count(),
        0 <= idx.page_rank(bounds) * (bounds.line + 1) <= idx.rank(bounds) < bounds.line_count(),
        PadIndex::at_rank(idx.rank(bounds), bounds) == idx,
{
    lemma_mixed_radix(idx.nest as int, bounds.nest + 1, idx.pad as int, bounds.pad + 1);
    lemma_mixed_radix(idx.pad_rank(bounds), bounds.pad_count(), idx.page as int, bounds.page + 1);
    lemma_mixed_radix(idx.page_rank(bounds), bounds.page_count(), idx.line as int, bounds.line + 1);
}

/// Every position below the line count is the rank of exactly one index
/// within the bounds.
pub proof fn lemma_at_rank(r: int, bounds: PadIndex)
    requires
        0 <= r < bounds.line_count(),
    ensures
        PadIndex::at_rank(r, bounds).spec_is_within(bounds),
        PadIndex::at_rank(r, bounds).rank(bounds) == r,
        PadIndex::at_rank(r, bounds).page_rank(bounds) == r / (bounds.line + 1),
        PadIndex::at_rank(r, bounds).pad_rank(bounds) == r / (bounds.line + 1) / (bounds.page + 1),
        0 <= r / (bounds.line + 1) < bounds.page_count(),
        0 <= r / (bounds.line + 1) / (bounds.page + 1) < bounds.pad_count(),
{
    let line_n = bounds.line + 1;
    let page_n = bounds.page + 1;
    let pad_n = bounds.pad + 1;
    let nest_n = bounds.nest + 1;
    lemma_split(r, bounds.page_count(), line_n);
    let q1 = r / line_n;
    lemma_split(q1, bounds.pad_count(), page_n);
    let q2 = q1 / page_n;
    lemma_split(q2, nest_n, pad_n);
}

/// Division with remainder of a value below `outer * n`.
pub proof fn lemma_split(r: int, outer: int, n: int)
    requires
        0 <= r < outer * n,
        0 < n,
    ensures
        0 <= r / n < outer,
        0 <= r % n < n,
        r == (r / n) * n + r % n,
{
    vstd::arithmetic::div_mod::lemma_fundamental_div_mod(r, n);
    vstd::arithmetic::div_mod::lemma_mod_bound(r, n);
    vstd::arithmetic::div_mod::lemma_div_pos_is_pos(r, n);
    let q = r / n;
    assert(n * q == q * n) by (nonlinear_arith);
    if q >= outer {
        assert(q * n >= outer * n) by (nonlinear_arith)
            requires
                q >= outer,
                n > 0,
        ;
    }
}

/// The successor of an index within its bounds is the index of the next
/// rank; there is none exactly at the last rank, which is that of the bounds.
pub proof fn lemma_successor_rank(idx: PadIndex, bounds: PadIndex)
    requires
        idx.spec_is_within(bounds),
    ensures
        match idx.successor(bounds) {
            Some(next) => {
                &&& next.spec_is_within(bounds)
                &&& next.rank(bounds) == idx.rank(bounds) + 1
                &&& idx.lex_lt(next)
            },
            None => idx.rank(bounds) == bounds.line_count() - 1 && idx == bounds,
        },
{
    let pad_n = bounds.pad + 1;
    let page_n = bounds.page + 1;
    let line_n = bounds.line + 1;
    if idx.line < bounds.line {
    } else if idx.page < bounds.page {
        assert((idx.pad_rank(bounds) * page_n + idx.page + 1) * line_n == (idx.pad_rank(bounds)
            * page_n + idx.page) * line_n + line_n) by (nonlinear_arith);
    } else if idx.pad < bounds.pad {
        let q = idx.nest * pad_n + idx.pad;
        assert((q + 1) * page_n == q * page_n + page_n) by (nonlinear_arith);
        assert((q * page_n + page_n) * line_n == (q * page_n + bounds.page) * line_n + line_n)
            by (nonlinear_arith)
            requires
                page_n == bounds.page + 1,
        ;
    } else if idx.nest < bounds.nest {
        let q = idx.nest * pad_n + idx.pad;
        assert((idx.nest + 1) * pad_n == q + 1) by (nonlinear_arith)
            requires
                q == idx.nest * pad_n + idx.pad,
                idx.pad + 1 == pad_n,
        ;
        assert((q + 1) * page_n == q * page_n + page_n) by (nonlinear_arith);
        assert((q * page_n + page_n) * line_n == (q * page_n + bounds.page) * line_n + line_n)
            by (nonlinear_arith)
            requires
                page_n == bounds.page + 1,
        ;
    } else {
        let a = bounds.nest + 1;
        assert(bounds.nest * pad_n + bounds.pad == a * pad_n - 1) by (nonlinear_arith)
            requires
                a == bounds.nest + 1,
                pad_n == bounds.pad + 1,
        ;
        let pc = a * pad_n;
        assert((pc - 1) * page_n + bounds.page == pc * page_n - 1) by (nonlinear_arith)
            requires
                page_n == bounds.page + 1,
        ;
        let gc = pc * page_n;
        assert((gc - 1) * line_n + bounds.line == gc * line_n - 1) by (nonlinear_arith)
            requires
                line_n == bounds.line + 1,
        ;
    }
}

/// Within one set of bounds, the lexicographic order is the order of ranks.
pub proof fn lemma_lex_is_rank_order(a: PadIndex, b: PadIndex, bounds: PadIndex)
    requires
        a.spec_is_within(bounds),
        b.spec_is_within(bounds),
    ensures
        a.lex_lt(b) <==> a.rank(bounds) < b.rank(bounds),
        a == b <==> a.rank(bounds) == b.rank(bounds),
{
    lemma_rank_in_range(a, bounds);
    lemma_rank_in_range(b, bounds);
    let pad_n = bounds.pad + 1;
    let page_n = bounds.page + 1;
    let line_n = bounds.line + 1;
    lemma_radix_order(a.nest as int, a.pad as int, b.nest as int, b.pad as int, pad_n);
    lemma_radix_order(a.pad_rank(bounds), a.page as int, b.pad_rank(bounds), b.page as int, page_n);
    lemma_radix_order(
        a.page_rank(bounds),
        a.line as int,
        b.page_rank(bounds),
        b.line as int,
        line_n,
    );
}

/// Two-digit numbers in radix `n` are ordered by the high digit first.
pub proof fn lemma_radix_order(q1: int, b1: int, q2: int, b2: int, n: int)
    requires
        0 <= b1 < n,
        0 <= b2 < n,
    ensures
        q1 * n + b1 < q2 * n + b2 <==> (q1 < q2 || (q1 == q2 && b1 < b2)),
        q1 * n + b1 == q2 * n + b2 <==> (q1 == q2 && b1 == b2),
{
    if q1 < q2 {
        assert(q1 * n + n <= q2 * n) by (nonlinear_arith)
            requires
                q1 + 1 <= q2,
                n > 0,
        ;
    } else if q2 < q1 {
        assert(q2 * n + n <= q1 * n) by (nonlinear_arith)
            requires
                q2 + 1 <= q1,
                n > 0,
        ;
    }
}

} // verus!
