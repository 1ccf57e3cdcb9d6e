//! A padset as a set of files: how one is written out and read back.
//!
//! A file is a path relative to the root of the padset, and the bytes at that
//! path. Reading back gives the smallest padset that has room for every file
//! read, so a padset comes back with the lines and digests it had, under
//! bounds that may be narrower.

use crate::error::PadError;
use crate::index::{lemma_counts_positive, PadIndex, PadIndexMaxSize};
use crate::integrity::{pad_span, page_span};
use crate::parse::{lemma_target_path_injective, parse_relative_path};
use crate::path::{
    line_path,
    nameable,
    pad_digest_path,
    page_digest_path,
    relative_line_path,
    relative_pad_digest_path,
    relative_page_digest_path,
    target_path,
    target_width,
    PathTarget,
};
use crate::store::{Padset, PadsetView};
use vstd::prelude::*;
use vstd::slice::slice_to_vec;

verus! {

/// One file of a padset.
#[derive(Clone, Debug, PartialEq, Eq)]
pub struct PadFile {
    /// The path relative to the root of the padset.
    pub path: Vec<u8>,
    /// The bytes of the file.
    pub content: Vec<u8>,
}

// ----- the model -----
/// `target` is what `path` names in the width class `width`.
pub open spec fn names(target: PathTarget, path: Seq<u8>, width: PadIndexMaxSize) -> bool {
    nameable(target) && target_width(target) == width && target_path(target) == path
}

/// What `path` names in the width class `width`, if it names anything.
pub open spec fn named(path: Seq<u8>, width: PadIndexMaxSize) -> Option<PathTarget> {
    if exists|target: PathTarget| names(target, path, width) {
        Some(choose|target: PathTarget| names(target, path, width))
    } else {
        None
    }
}

/// The index that `target` holds.
pub open spec fn target_index(target: PathTarget) -> PadIndex {
    match target {
        PathTarget::Line(idx) => idx,
        PathTarget::PageDigest(idx) => idx,
        PathTarget::PadDigest(idx) => idx,
    }
}

/// The larger of two components.
pub open spec fn larger(a: u32, b: u32) -> u32 {
    if a >= b {
        a
    } else {
        b
    }
}

/// The least bounds, of the width class of `a`, that hold both `a` and the
/// components of `b`.
pub open spec fn cover(a: PadIndex, b: PadIndex) -> PadIndex {
    PadIndex {
        nest: larger(a.nest, b.nest),
        pad: larger(a.pad, b.pad),
        page: larger(a.page, b.page),
        line: larger(a.line, b.line),
        width: a.width,
    }
}

/// The least bounds that hold what every file names.
pub open spec fn frame(files: Seq<PadFile>, width: PadIndexMaxSize) -> PadIndex
    decreases files.len(),
{
    if files.len() == 0 {
        PadIndex { nest: 0, pad: 0, page: 0, line: 0, width }
    } else {
        cover(
            frame(files.drop_last(), width),
            target_index(named(files.last().path@, width).unwrap()),
        )
    }
}

/// The padset with `content` put where `target` says.
pub open spec fn placed(s: PadsetView, target: PathTarget, content: Seq<u8>) -> PadsetView {
    match target {
        PathTarget::Line(idx) => s.with_line(idx.rank(s.bounds), Some(content)),
        PathTarget::PageDigest(idx) => s.with_page_digest(idx.page_rank(s.bounds), Some(content)),
        PathTarget::PadDigest(idx) => s.with_pad_digest(idx.pad_rank(s.bounds), Some(content)),
    }
}

/// The padset with every file put where its path says, in order; a later
/// file replaces an earlier one of the same path.
pub open spec fn filled(s: PadsetView, files: Seq<PadFile>, width: PadIndexMaxSize) -> PadsetView
    decreases files.len(),
{
    if files.len() == 0 {
        s
    } else {
        placed(
            filled(s, files.drop_last(), width),
            named(files.last().path@, width).unwrap(),
            files.last().content@,
        )
    }
}

/// Every file has a path that names a line or a digest.
pub open spec fn all_named(files: Seq<PadFile>, width: PadIndexMaxSize) -> bool {
    forall|i: int| 0 <= i < files.len() ==> named(#[trigger] files[i].path@, width) is Some
}

/// Why a set of files cannot be read as a padset, if it cannot.
pub open spec fn load_refusal(files: Seq<PadFile>, width: PadIndexMaxSize) -> Option<PadError> {
    if !all_named(files, width) {
        Some(PadError::InvalidIndex)
    } else if frame(files, width).line_count() > usize::MAX {
        Some(PadError::InvalidBounds)
    } else {
        None
    }
}

/// The padset that a set of files is read as.
pub open spec fn loaded(files: Seq<PadFile>, width: PadIndexMaxSize) -> PadsetView {
    filled(PadsetView::blank(frame(files, width)), files, width)
}

/// The files of the lines with ranks below `n`, in rank order.
pub open spec fn line_files(s: PadsetView, n: int) -> Seq<(Seq<u8>, Seq<u8>)>
    decreases n,
{
    if n <= 0 {
        Seq::empty()
    } else {
        match s.lines[n - 1] {
            Some(content) => line_files(s, n - 1).push(
                (line_path(PadIndex::at_rank(n - 1, s.bounds)), content),
            ),
            None => line_files(s, n - 1),
        }
    }
}

/// The digest files of the pages with ranks below `n`, in rank order.
pub open spec fn page_digest_files(s: PadsetView, n: int) -> Seq<(Seq<u8>, Seq<u8>)>
    decreases n,
{
    if n <= 0 {
        Seq::empty()
    } else {
        match s.page_digests[n - 1] {
            Some(content) => page_digest_files(s, n - 1).push(
                (
                    page_digest_path(PadIndex::at_rank((n - 1) * (s.bounds.line + 1), s.bounds)),
                    content,
                ),
            ),
            None => page_digest_files(s, n - 1),
        }
    }
}

/// The digest files of the pads with ranks below `n`, in rank order.
pub open spec fn pad_digest_files(s: PadsetView, n: int) -> Seq<(Seq<u8>, Seq<u8>)>
    decreases n,
{
    if n <= 0 {
        Seq::empty()
    } else {
        match s.pad_digests[n - 1] {
            Some(content) => pad_digest_files(s, n - 1).push(
                (
                    pad_digest_path(
                        PadIndex::at_rank((n - 1) * s.bounds.lines_per_pad(), s.bounds),
                    ),
                    content,
                ),
            ),
            None => pad_digest_files(s, n - 1),
        }
    }
}

/// All files of a padset: its lines, then the digests of its pages, then the
/// digests of its pads, each in index order.
pub open spec fn all_files(s: PadsetView) -> Seq<(Seq<u8>, Seq<u8>)> {
    line_files(s, s.lines.len() as int) + page_digest_files(s, s.page_digests.len() as int)
        + pad_digest_files(s, s.pad_digests.len() as int)
}

/// Path and bytes of every file.
pub open spec fn file_views(files: Seq<PadFile>) -> Seq<(Seq<u8>, Seq<u8>)> {
    Seq::new(files.len(), |i: int| (files[i].path@, files[i].content@))
}

// ----- facts -----
/// A path names at most one target, so what a path is parsed as is what it
/// names.
pub proof fn lemma_named_is_unique(target: PathTarget, path: Seq<u8>, width: PadIndexMaxSize)
    requires
        names(target, path, width),
    ensures
        named(path, width) == Some(target),
{
    let chosen = choose|t: PathTarget| names(t, path, width);
    lemma_target_path_injective(chosen, target);
}

/// The frame of a set of files holds the index of each of them.
pub proof fn lemma_frame_holds_all(files: Seq<PadFile>, width: PadIndexMaxSize, i: int)
    requires
        all_named(files, width),
        0 <= i < files.len(),
    ensures
        target_index(named(files[i].path@, width).unwrap()).spec_is_within(frame(files, width)),
        frame(files, width).width == width,
        frame(files, width).spec_fits_width(),
    decreases files.len(),
{
    let rest = files.drop_last();
    assert forall|j: int| 0 <= j < rest.len() implies named(#[trigger] rest[j].path@, width)
        is Some by {
        assert(rest[j] == files[j]);
    }
    lemma_frame_fits(files, width);
    if i < files.len() - 1 {
        lemma_frame_holds_all(rest, width, i);
        assert(rest[i] == files[i]);
    } else {
        lemma_frame_fits(rest, width);
    }
}

/// The frame of a set of files is of the width class asked for and fits it.
pub proof fn lemma_frame_fits(files: Seq<PadFile>, width: PadIndexMaxSize)
    requires
        all_named(files, width),
    ensures
        frame(files, width).width == width,
        frame(files, width).spec_fits_width(),
    decreases files.len(),
{
    if files.len() > 0 {
        let rest = files.drop_last();
        assert forall|j: int| 0 <= j < rest.len() implies named(#[trigger] rest[j].path@, width)
            is Some by {
            assert(rest[j] == files[j]);
        }
        lemma_frame_fits(rest, width);
        let last = named(files.last().path@, width);
        assert(files[files.len() - 1] == files.last());
        assert(last is Some);
        assert(names(last.unwrap(), files.last().path@, width));
    }
}

// ----- reading back -----
/// The index that `target` holds.
pub fn index_of_target(target: &PathTarget) -> (idx: PadIndex)
    ensures
        idx == target_index(*target),
{
    match target {
        PathTarget::Line(idx) => *idx,
        PathTarget::PageDigest(idx) => *idx,
        PathTarget::PadDigest(idx) => *idx,
    }
}

fn larger_of(a: u32, b: u32) -> (m: u32)
    ensures
        m == larger(a, b),
{
    if a >= b {
        a
    } else {
        b
    }
}

/// The least bounds, of the width class of `a`, that hold both `a` and the
/// components of `b`.
pub fn cover_of(a: &PadIndex, b: &PadIndex) -> (c: PadIndex)
    ensures
        c == cover(*a, *b),
{
    PadIndex {
        nest: larger_of(a.nest, b.nest),
        pad: larger_of(a.pad, b.pad),
        page: larger_of(a.page, b.page),
        line: larger_of(a.line, b.line),
        width: a.width,
    }
}

/// Puts `content` into the padset where `target` says, in place of what is
/// there.
///
/// Fails with `InvalidIndex`, and changes nothing, where the index of
/// `target` lies outside the bounds of the padset.
pub fn place_file(padset: &mut Padset, target: &PathTarget, content: Vec<u8>) -> (r: Result<
    (),
    PadError,
>)
    requires
        old(padset)@.wf(),
    ensures
        final(padset)@.wf(),
        if target_index(*target).spec_is_within(old(padset)@.bounds) {
            r is Ok && final(padset)@ == placed(old(padset)@, *target, content@)
        } else {
            r == Err::<(), PadError>(PadError::InvalidIndex) && final(padset)@ == old(padset)@
        },
{
    let bounds = padset.bounds();
    let _n: usize = padset.line_slots();
    let idx = index_of_target(target);
    if !idx.is_within(bounds) {
        return Err(PadError::InvalidIndex);
    }
    proof {
        crate::stream::lemma_scope_ranks(padset@, idx);
    }
    match target {
        PathTarget::Line(_) => {
            let r: usize = idx.rank_in(&bounds);
            padset.put_line(r, content);
        },
        PathTarget::PageDigest(_) => {
            let r: usize = idx.page_rank_in(&bounds);
            padset.set_page_digest(r, Some(content));
        },
        PathTarget::PadDigest(_) => {
            let r: usize = idx.pad_rank_in(&bounds);
            padset.set_pad_digest(r, Some(content));
        },
    }
    Ok(())
}

/// Reads a set of files as a padset of the width class `width`: the
/// smallest padset with room for all of them, holding each file where its
/// path says.
///
/// Fails with `InvalidIndex` where the path of a file names neither a line
/// nor a digest of that width class, and otherwise with `InvalidBounds`
/// where the padset would have more lines than can be addressed.
pub fn padset_from_files(files: &Vec<PadFile>, width: PadIndexMaxSize) -> (r: Result<
    Padset,
    PadError,
>)
    ensures
        match r {
            Ok(p) => {
                &&& load_refusal(files@, width) is None
                &&& p@ == loaded(files@, width)
                &&& p@.wf()
            },
            Err(e) => load_refusal(files@, width) == Some(e),
        },
{
    let n: usize = files.len();
    let mut targets: Vec<PathTarget> = Vec::new();
    let mut bounds = PadIndex { nest: 0, pad: 0, page: 0, line: 0, width };
    let mut i: usize = 0;
    assert(files@.take(0) =~= Seq::<PadFile>::empty());
    while i < n
        invariant
            i <= n,
            n == files@.len(),
            targets@.len() == i,
            all_named(files@.take(i as int), width),
            bounds == frame(files@.take(i as int), width),
            forall|j: int|
                0 <= j < i ==> named(files@[j].path@, width) == Some(#[trigger] targets@[j]),
        decreases n - i,
    {
        let target = match parse_relative_path(files[i].path.as_slice(), width) {
            Some(target) => target,
            None => {
                proof {
                    let path = files@[i as int].path@;
                    assert(named(path, width) is None) by {
                        if exists|t: PathTarget| names(t, path, width) {
                            let t = choose|t: PathTarget| names(t, path, width);
                            assert(path != target_path(t));
                        }
                    }
                    assert(!all_named(files@, width));
                }
                return Err(PadError::InvalidIndex);
            },
        };
        proof {
            lemma_named_is_unique(target, files@[i as int].path@, width);
            let next = files@.take(i + 1);
            assert(next.drop_last() =~= files@.take(i as int));
            assert(next.last() == files@[i as int]);
            assert forall|j: int| 0 <= j < next.len() implies named(
                #[trigger] next[j].path@,
                width,
            ) is Some by {
                if j < i {
                    assert(files@.take(i as int)[j] == next[j]);
                }
            }
        }
        bounds = cover_of(&bounds, &index_of_target(&target));
        targets.push(target);
        i += 1;
    }
    assert(files@.take(n as int) =~= files@);
    let mut padset = match Padset::blank(&bounds) {
        Ok(p) => p,
        Err(e) => {
            proof {
                lemma_frame_fits(files@, width);
            }
            return Err(e);
        },
    };
    let mut k: usize = 0;
    while k < n
        invariant
            k <= n,
            n == files@.len(),
            targets@.len() == n,
            all_named(files@, width),
            bounds == frame(files@, width),
            forall|j: int|
                0 <= j < n ==> named(files@[j].path@, width) == Some(#[trigger] targets@[j]),
            padset@.wf(),
            padset@.bounds == bounds,
            padset@ == filled(PadsetView::blank(bounds), files@.take(k as int), width),
        decreases n - k,
    {
        proof {
            lemma_frame_holds_all(files@, width, k as int);
            let next = files@.take(k + 1);
            assert(next.drop_last() =~= files@.take(k as int));
            assert(next.last() == files@[k as int]);
        }
        let content = slice_to_vec(files[k].content.as_slice());
        let target = targets[k];
        let placed = place_file(&mut padset, &target, content);
        assert(placed is Ok);
        k += 1;
    }
    Ok(padset)
}

// ----- writing out -----
fn push_file(out: &mut Vec<PadFile>, path: Vec<u8>, content: &Vec<u8>)
    ensures
        file_views(final(out)@) == file_views(old(out)@).push((path@, content@)),
{
    let copy = slice_to_vec(content.as_slice());
    out.push(PadFile { path, content: copy });
    assert(file_views(out@) =~= file_views(old(out)@).push((path@, content@)));
}

/// All files of a padset: its lines, then the digests of its pages, then
/// the digests of its pads, each in index order.
pub fn padset_files(padset: &Padset) -> (files: Vec<PadFile>)
    requires
        padset@.wf(),
    ensures
        file_views(files@) == all_files(padset@),
{
    let bounds = padset.bounds();
    let lines: usize = padset.line_slots();
    proof {
        lemma_counts_positive(bounds);
    }
    let pads: usize = (bounds.nest as usize + 1) * (bounds.pad as usize + 1);
    let pages: usize = pads * (bounds.page as usize + 1);
    let mut out: Vec<PadFile> = Vec::new();
    assert(file_views(out@) =~= line_files(padset@, 0));
    let mut r: usize = 0;
    while r < lines
        invariant
            r <= lines,
            lines == padset@.lines.len(),
            padset@.wf(),
            bounds == padset@.bounds,
            file_views(out@) == line_files(padset@, r as int),
        decreases lines - r,
    {
        match padset.peek_line(r) {
            Some(content) => {
                let idx = PadIndex::from_rank(r, &bounds);
                push_file(&mut out, relative_line_path(&idx), content);
            },
            None => {},
        }
        r += 1;
    }
    let ghost listed = file_views(out@);
    assert(listed + page_digest_files(padset@, 0) =~= listed);
    let mut r: usize = 0;
    while r < pages
        invariant
            r <= pages,
            pages == padset@.page_digests.len(),
            lines == padset@.lines.len(),
            padset@.wf(),
            bounds == padset@.bounds,
            listed == line_files(padset@, padset@.lines.len() as int),
            file_views(out@) == listed + page_digest_files(padset@, r as int),
        decreases pages - r,
    {
        match padset.peek_page_digest(r) {
            Some(content) => {
                let (lo, _hi) = page_span(padset, r);
                let idx = PadIndex::from_rank(lo, &bounds);
                push_file(&mut out, relative_page_digest_path(&idx), content);
                assert(file_views(out@) =~= listed + page_digest_files(padset@, r + 1));
            },
            None => {},
        }
        r += 1;
    }
    let ghost listed = file_views(out@);
    assert(listed + pad_digest_files(padset@, 0) =~= listed);
    let mut r: usize = 0;
    while r < pads
        invariant
            r <= pads,
            pads == padset@.pad_digests.len(),
            lines == padset@.lines.len(),
            padset@.wf(),
            bounds == padset@.bounds,
            listed == line_files(padset@, padset@.lines.len() as int) + page_digest_files(
                padset@,
                padset@.page_digests.len() as int,
            ),
            file_views(out@) == listed + pad_digest_files(padset@, r as int),
        decreases pads - r,
    {
        match padset.peek_pad_digest(r) {
            Some(content) => {
                let (lo, _hi) = pad_span(padset, r);
                let idx = PadIndex::from_rank(lo, &bounds);
                push_file(&mut out, relative_pad_digest_path(&idx), content);
                assert(file_views(out@) =~= listed + pad_digest_files(padset@, r + 1));
            },
            None => {},
        }
        r += 1;
    }
    out
}

} // verus!
