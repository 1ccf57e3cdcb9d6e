//! Building a padset from random bytes.

use crate::error::PadError;
use crate::index::{lemma_counts_positive, PadIndex};
use crate::integrity::{digest_of, seal_pad, seal_page, ValidationLevel};
use crate::store::{Padset, PadsetView};
use vstd::prelude::*;
use vstd::slice::{slice_subrange, slice_to_vec};

verus! {

/// Why a padset cannot be built, if it cannot.
///
/// The bounds must fit their width class and describe a number of lines that
/// can be addressed; the random bytes must suffice for every line.
pub open spec fn build_refusal(bounds: PadIndex, line_length: nat, supplied: nat) -> Option<
    PadError,
> {
    if !(bounds.spec_fits_width() && bounds.line_count() <= usize::MAX) {
        Some(PadError::InvalidBounds)
    } else if supplied < bounds.line_count() * line_length {
        Some(PadError::Rng)
    } else {
        None
    }
}

/// The padset under `bounds` whose line at rank `r` is the `r`-th run of
/// `line_length` bytes of `entropy`, without digests.
pub open spec fn drawn_padset(bounds: PadIndex, line_length: nat, entropy: Seq<u8>) -> PadsetView {
    PadsetView {
        lines: Seq::new(
            bounds.line_count() as nat,
            |r: int| Some(entropy.subrange(r * line_length, (r + 1) * line_length)),
        ),
        ..PadsetView::blank(bounds)
    }
}

/// The padset that [`padnet_make_one_pad_set`] builds: every line under
/// `bounds` drawn from `entropy` in index order, and a digest over each page
/// or each pad as `level` asks.
pub open spec fn built_padset(
    bounds: PadIndex,
    line_length: nat,
    level: ValidationLevel,
    entropy: Seq<u8>,
) -> PadsetView {
    let drawn = drawn_padset(bounds, line_length, entropy);
    PadsetView {
        page_digests: Seq::new(
            bounds.page_count() as nat,
            |r: int|
                if level == ValidationLevel::PageLevel {
                    Some(digest_of(drawn.page_content(r)))
                } else {
                    None
                },
        ),
        pad_digests: Seq::new(
            bounds.pad_count() as nat,
            |r: int|
                if level == ValidationLevel::PadLevel {
                    Some(digest_of(drawn.pad_content(r)))
                } else {
                    None
                },
        ),
        ..drawn
    }
}

/// Builds a padset with one line of `line_length` bytes at every index from
/// `[0, 0, 0, 0]` to `bounds`, taking the bytes from `entropy` in index order,
/// and with the digests that `level` asks for.
///
/// Fails with `InvalidBounds` where `bounds` does not fit its width class or
/// describes more lines than can be addressed, and otherwise with `Rng`
/// where `entropy` is too short.
pub fn padnet_make_one_pad_set(
    bounds: &PadIndex,
    line_length: usize,
    level: ValidationLevel,
    entropy: &[u8],
) -> (r: Result<Padset, PadError>)
    ensures
        match r {
            Ok(p) => {
                &&& build_refusal(*bounds, line_length as nat, entropy@.len()) is None
                &&& p@ == built_padset(*bounds, line_length as nat, level, entropy@)
                &&& p@.wf()
            },
            Err(e) => build_refusal(*bounds, line_length as nat, entropy@.len()) == Some(e),
        },
{
    let mut padset = match Padset::blank(bounds) {
        Ok(p) => p,
        Err(e) => {
            return Err(e);
        },
    };
    let n: usize = padset.line_slots();
    assert(n == bounds.line_count());
    let have: usize = entropy.len();
    let need: usize = match n.checked_mul(line_length) {
        Some(need) => need,
        None => {
            return Err(PadError::Rng);
        },
    };
    if have < need {
        return Err(PadError::Rng);
    }
    let ghost drawn = drawn_padset(*bounds, line_length as nat, entropy@);
    let mut r: usize = 0;
    assert(padset@.lines =~= Seq::new(
        n as nat,
        |j: int|
            if j < 0 {
                drawn.lines[j]
            } else {
                None
            },
    ));
    while r < n
        invariant
            r <= n,
            n == bounds.line_count(),
            need == n * line_length,
            need <= entropy@.len(),
            drawn == drawn_padset(*bounds, line_length as nat, entropy@),
            padset@.wf(),
            padset@ == (PadsetView {
                lines: Seq::new(
                    n as nat,
                    |j: int|
                        if j < r {
                            drawn.lines[j]
                        } else {
                            None
                        },
                ),
                ..PadsetView::blank(*bounds)
            }),
        decreases n - r,
    {
        proof {
            assert(r * line_length + line_length == (r + 1) * line_length) by (nonlinear_arith);
            assert((r + 1) * line_length <= n * line_length) by (nonlinear_arith)
                requires
                    r + 1 <= n,
            ;
        }
        let lo: usize = r * line_length;
        let line = slice_to_vec(slice_subrange(entropy, lo, lo + line_length));
        let ghost before = padset@;
        padset.put_line(r, line);
        r += 1;
        assert(padset@.lines =~= Seq::new(
            n as nat,
            |j: int|
                if j < r {
                    drawn.lines[j]
                } else {
                    None
                },
        ));
    }
    assert(padset@.lines =~= drawn.lines);
    assert(padset@ == drawn);
    proof {
        lemma_counts_positive(*bounds);
    }
    match level {
        ValidationLevel::NoneLevel => {
            assert(padset@.page_digests =~= built_padset(
                *bounds,
                line_length as nat,
                level,
                entropy@,
            ).page_digests);
            assert(padset@.pad_digests =~= built_padset(
                *bounds,
                line_length as nat,
                level,
                entropy@,
            ).pad_digests);
        },
        ValidationLevel::PageLevel => {
            let pages: usize = (bounds.nest as usize + 1) * (bounds.pad as usize + 1) * (
            bounds.page as usize + 1);
            let mut k: usize = 0;
            assert(padset@.page_digests =~= Seq::new(
                pages as nat,
                |j: int|
                    if j < 0 {
                        Some(digest_of(drawn.page_content(j)))
                    } else {
                        None
                    },
            ));
            while k < pages
                invariant
                    k <= pages,
                    pages == bounds.page_count(),
                    drawn == drawn_padset(*bounds, line_length as nat, entropy@),
                    padset@.wf(),
                    padset@ == (PadsetView {
                        page_digests: Seq::new(
                            pages as nat,
                            |j: int|
                                if j < k {
                                    Some(digest_of(drawn.page_content(j)))
                                } else {
                                    None
                                },
                        ),
                        ..drawn
                    }),
                decreases pages - k,
            {
                seal_page(&mut padset, k);
                k += 1;
                assert(padset@.page_digests =~= Seq::new(
                    pages as nat,
                    |j: int|
                        if j < k {
                            Some(digest_of(drawn.page_content(j)))
                        } else {
                            None
                        },
                ));
            }
            assert(padset@.page_digests =~= built_padset(
                *bounds,
                line_length as nat,
                level,
                entropy@,
            ).page_digests);
            assert(padset@.pad_digests =~= built_padset(
                *bounds,
                line_length as nat,
                level,
                entropy@,
            ).pad_digests);
        },
        ValidationLevel::PadLevel => {
            let pads: usize = (bounds.nest as usize + 1) * (bounds.pad as usize + 1);
            let mut k: usize = 0;
            assert(padset@.pad_digests =~= Seq::new(
                pads as nat,
                |j: int|
                    if j < 0 {
                        Some(digest_of(drawn.pad_content(j)))
                    } else {
                        None
                    },
            ));
            while k < pads
                invariant
                    k <= pads,
                    pads == bounds.pad_count(),
                    drawn == drawn_padset(*bounds, line_length as nat, entropy@),
                    padset@.wf(),
                    padset@ == (PadsetView {
                        pad_digests: Seq::new(
                            pads as nat,
                            |j: int|
                                if j < k {
                                    Some(digest_of(drawn.pad_content(j)))
                                } else {
                                    None
                                },
                        ),
                        ..drawn
                    }),
                decreases pads - k,
            {
                seal_pad(&mut padset, k);
                k += 1;
                assert(padset@.pad_digests =~= Seq::new(
                    pads as nat,
                    |j: int|
                        if j < k {
                            Some(digest_of(drawn.pad_content(j)))
                        } else {
                            None
                        },
                ));
            }
            assert(padset@.page_digests =~= built_padset(
                *bounds,
                line_length as nat,
                level,
                entropy@,
            ).page_digests);
            assert(padset@.pad_digests =~= built_padset(
                *bounds,
                line_length as nat,
                level,
                entropy@,
            ).pad_digests);
        },
    }
    Ok(padset)
}

} // verus!
