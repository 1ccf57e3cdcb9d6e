use padnet_otp::index::{Overflow, PadIndex, PadIndexMaxSize};
use padnet_otp::parse::{
    parse_line_path, parse_pad_digest_path, parse_page_digest_path, parse_relative_path,
};
use padnet_otp::path::{
    relative_line_path, relative_pad_digest_path, relative_page_digest_path, relative_path,
    PathTarget,
};

fn standard(c: [u32; 4]) -> PadIndex {
    PadIndex::new_standard(c)
}

#[test]
fn new_standard_keeps_the_components_in_order() {
    let idx = standard([1, 2, 3, 4]);
    assert_eq!(idx.nest, 1);
    assert_eq!(idx.pad, 2);
    assert_eq!(idx.page, 3);
    assert_eq!(idx.line, 4);
    assert_eq!(idx.width, PadIndexMaxSize::Standard4Byte);
    assert_eq!(idx.components(), [1, 2, 3, 4]);
    assert_eq!(PadIndex::new_extended([1, 2, 3, 4]).width, PadIndexMaxSize::Extended8Byte);
    assert_ne!(idx, PadIndex::new_extended([1, 2, 3, 4]));
}

#[test]
fn width_classes_have_three_and_six_digits() {
    assert_eq!(PadIndexMaxSize::Standard4Byte.digits(), 3);
    assert_eq!(PadIndexMaxSize::Standard4Byte.limit(), 999);
    assert_eq!(PadIndexMaxSize::Extended8Byte.digits(), 6);
    assert_eq!(PadIndexMaxSize::Extended8Byte.limit(), 999_999);
    assert!(standard([999, 999, 999, 999]).fits_width());
    assert!(!standard([0, 0, 1000, 0]).fits_width());
    assert!(PadIndex::new_extended([0, 0, 1000, 0]).fits_width());
    assert!(!PadIndex::new_extended([1_000_000, 0, 0, 0]).fits_width());
}

#[test]
fn increment_carries_from_line_to_nest() {
    let bounds = standard([1, 2, 3, 4]);
    assert_eq!(standard([0, 0, 0, 0]).increment(&bounds), Ok(standard([0, 0, 0, 1])));
    assert_eq!(standard([0, 0, 0, 4]).increment(&bounds), Ok(standard([0, 0, 1, 0])));
    assert_eq!(standard([0, 0, 3, 4]).increment(&bounds), Ok(standard([0, 1, 0, 0])));
    assert_eq!(standard([0, 2, 3, 4]).increment(&bounds), Ok(standard([1, 0, 0, 0])));
    assert_eq!(standard([1, 2, 3, 3]).increment(&bounds), Ok(standard([1, 2, 3, 4])));
    assert_eq!(standard([1, 2, 3, 4]).increment(&bounds), Err(Overflow));
    assert_eq!(standard([0, 0, 0, 0]).increment(&standard([0, 0, 0, 0])), Err(Overflow));
    // A component beyond its bound carries like one at its bound.
    assert_eq!(standard([0, 0, 0, 9]).increment(&bounds), Ok(standard([0, 0, 1, 0])));
    assert_eq!(
        standard([0, 0, 0, u32::MAX]).increment(&bounds),
        Ok(standard([0, 0, 1, 0]))
    );
}

#[test]
fn increment_visits_every_index_once_in_rank_order() {
    let bounds = standard([1, 2, 1, 2]);
    assert_eq!(bounds.checked_line_count(), Some(36));
    let mut current = standard([0, 0, 0, 0]);
    for r in 0..36usize {
        assert_eq!(current.rank_in(&bounds), r);
        assert_eq!(PadIndex::from_rank(r, &bounds), current);
        assert!(current.is_within(bounds));
        match current.increment(&bounds) {
            Ok(next) => {
                assert!(current.precedes(&next));
                assert!(!next.precedes(&current));
                current = next;
            }
            Err(Overflow) => {
                assert_eq!(r, 35);
                assert_eq!(current, bounds);
            }
        }
    }
}

#[test]
fn ranks_follow_the_mixed_radix_formula() {
    let bounds = standard([2, 3, 4, 5]);
    let idx = standard([1, 2, 3, 4]);
    // ((1 * 4 + 2) * 5 + 3) * 6 + 4
    assert_eq!(idx.pad_rank_in(&bounds), 6);
    assert_eq!(idx.page_rank_in(&bounds), 33);
    assert_eq!(idx.rank_in(&bounds), 202);
    assert_eq!(bounds.checked_line_count(), Some(3 * 4 * 5 * 6));
    assert_eq!(bounds.rank_in(&bounds), 359);
    assert_eq!(PadIndex::from_rank(202, &bounds), idx);
    assert_eq!(standard([999, 999, 999, 999]).checked_line_count(), Some(1_000_000_000_000));
}

#[test]
fn order_is_lexicographic_by_nest_pad_page_line() {
    assert!(standard([0, 9, 9, 9]).precedes(&standard([1, 0, 0, 0])));
    assert!(standard([1, 0, 9, 9]).precedes(&standard([1, 1, 0, 0])));
    assert!(standard([1, 1, 0, 9]).precedes(&standard([1, 1, 1, 0])));
    assert!(standard([1, 1, 1, 0]).precedes(&standard([1, 1, 1, 1])));
    assert!(!standard([1, 1, 1, 1]).precedes(&standard([1, 1, 1, 1])));
    assert!(!standard([1, 0, 0, 0]).precedes(&standard([0, 9, 9, 9])));
    assert!(standard([0, 0, 0, 0]) < standard([0, 0, 0, 1]));
    assert!(standard([0, 2, 0, 0]) > standard([0, 1, 9, 9]));
    assert!(standard([3, 2, 1, 0]) <= standard([3, 2, 1, 0]));
    assert!(standard([3, 2, 1, 0]) == standard([3, 2, 1, 0]));
}

#[test]
fn within_compares_every_component_and_the_width() {
    let bounds = standard([1, 2, 3, 4]);
    assert!(standard([1, 2, 3, 4]).is_within(bounds));
    assert!(standard([0, 0, 0, 0]).is_within(bounds));
    assert!(!standard([2, 0, 0, 0]).is_within(bounds));
    assert!(!standard([0, 3, 0, 0]).is_within(bounds));
    assert!(!standard([0, 0, 4, 0]).is_within(bounds));
    assert!(!standard([0, 0, 0, 5]).is_within(bounds));
    assert!(!PadIndex::new_extended([0, 0, 0, 0]).is_within(bounds));
}

#[test]
fn paths_are_zero_padded_decimals_below_the_nest() {
    let idx = standard([1, 23, 456, 7]);
    assert_eq!(
        relative_line_path(&idx),
        b"padnest_0_001/pad_023/page_456/line_007".to_vec()
    );
    assert_eq!(
        relative_page_digest_path(&idx),
        b"padnest_0_001/pad_023/hash_page_456".to_vec()
    );
    assert_eq!(relative_pad_digest_path(&idx), b"padnest_0_001/hash_pad_023".to_vec());
    assert_eq!(
        idx.to_path(b"/tmp/pads"),
        b"/tmp/pads/padnest_0_001/pad_023/page_456/line_007".to_vec()
    );
    assert_eq!(
        relative_line_path(&PadIndex::new_extended([1, 23, 456, 7])),
        b"padnest_0_000001/pad_000023/page_000456/line_000007".to_vec()
    );
    // A component that does not fit is written out in full.
    assert_eq!(
        relative_line_path(&standard([0, 0, 0, 1000])),
        b"padnest_0_000/pad_000/page_000/line_1000".to_vec()
    );
    assert_eq!(
        relative_line_path(&standard([u32::MAX, 0, 0, 0])),
        b"padnest_0_4294967295/pad_000/page_000/line_000".to_vec()
    );
}

#[test]
fn parsing_a_path_gives_the_index_back() {
    for c in [[0, 0, 0, 0], [1, 23, 456, 7], [999, 999, 999, 999], [10, 100, 9, 90]] {
        let idx = standard(c);
        let w = PadIndexMaxSize::Standard4Byte;
        assert_eq!(parse_line_path(&relative_line_path(&idx), w), Some(idx));
        let page = standard([c[0], c[1], c[2], 0]);
        assert_eq!(parse_page_digest_path(&relative_page_digest_path(&idx), w), Some(page));
        let pad = standard([c[0], c[1], 0, 0]);
        assert_eq!(parse_pad_digest_path(&relative_pad_digest_path(&idx), w), Some(pad));
        for target in [
            PathTarget::Line(idx),
            PathTarget::PageDigest(page),
            PathTarget::PadDigest(pad),
        ] {
            assert_eq!(parse_relative_path(&relative_path(&target), w), Some(target));
        }
    }
    let wide = PadIndex::new_extended([1, 23, 456, 999_999]);
    assert_eq!(
        parse_line_path(&relative_line_path(&wide), PadIndexMaxSize::Extended8Byte),
        Some(wide)
    );
}

#[test]
fn paths_that_do_not_conform_are_rejected() {
    let w = PadIndexMaxSize::Standard4Byte;
    let bad: [&[u8]; 16] = [
        b"",
        b"padnest_0_000/pad_000/page_000/line_00",
        b"padnest_0_000/pad_000/page_000/line_0000",
        b"padnest_0_000/pad_000/page_000/line_00a",
        b"padnest_0_000/pad_000/page_000/line_0-1",
        b"padnest_1_000/pad_000/page_000/line_000",
        b"padnest_0_000/pad_000/page_000/LINE_000",
        b"padnest_0_000/pad_000/page_000/line_000/",
        b"/padnest_0_000/pad_000/page_000/line_000",
        b"padnest_0_000\\pad_000\\page_000\\line_000",
        b"padnest_0_000/pad_000/page_000",
        b"padnest_0_000/pad_000/hash_page_00",
        b"padnest_0_000/hash_pad_0000",
        b"padnest_0_000/hash_pad_00x",
        b"padnest_0_000001/pad_000001/page_000001/line_000001",
        b"padnest_0_000/pad_000/page_000/line_000\n",
    ];
    for path in bad {
        assert_eq!(parse_relative_path(path, w), None);
        assert_eq!(parse_line_path(path, w), None);
    }
    // A path of the other width class only parses in that class.
    let wide = b"padnest_0_000001/pad_000001/page_000001/line_000001";
    assert_eq!(
        parse_line_path(wide, PadIndexMaxSize::Extended8Byte),
        Some(PadIndex::new_extended([1, 1, 1, 1]))
    );
    assert_eq!(
        parse_line_path(b"padnest_0_000/pad_000/page_000/line_000", PadIndexMaxSize::Extended8Byte),
        None
    );
    // Each kind of path is told from the others.
    assert_eq!(parse_line_path(b"padnest_0_000/pad_000/hash_page_000", w), None);
    assert_eq!(parse_page_digest_path(b"padnest_0_000/hash_pad_000", w), None);
    assert_eq!(parse_pad_digest_path(b"padnest_0_000/pad_000/page_000/line_000", w), None);
}
