use padnet_otp::builder::padnet_make_one_pad_set;
use padnet_otp::error::{IntegrityScope, PadError};
use padnet_otp::index::{PadIndex, PadIndexMaxSize};
use padnet_otp::integrity::{
    build_pad_digest, build_page_digest, content_digest, validate_and_consume_pad,
    validate_and_consume_page, ValidationLevel,
};
use padnet_otp::lines::{
    find_first_available_line, padnet_load_delete_read_one_byteline, read_padset_one_byteline,
};
use padnet_otp::path::relative_line_path;
use padnet_otp::store::Padset;

/// A fixed stream of bytes that stands for the random source.
fn entropy(len: usize, seed: u64) -> Vec<u8> {
    let mut state = seed;
    let mut out = Vec::with_capacity(len);
    for _ in 0..len {
        state = state
            .wrapping_mul(6364136223846793005)
            .wrapping_add(1442695040888963407);
        out.push((state >> 33) as u8);
    }
    out
}

fn standard(c: [u32; 4]) -> PadIndex {
    PadIndex::new_standard(c)
}

#[test]
fn minimal_padset_has_three_lines_of_32_bytes() {
    let bounds = standard([0, 0, 0, 2]);
    let bytes = entropy(96, 1);
    let padset = padnet_make_one_pad_set(&bounds, 32, ValidationLevel::NoneLevel, &bytes).unwrap();
    assert_eq!(padset.line_slots(), 3);
    assert_eq!(padset.bounds(), bounds);
    let names = [
        "padnest_0_000/pad_000/page_000/line_000",
        "padnest_0_000/pad_000/page_000/line_001",
        "padnest_0_000/pad_000/page_000/line_002",
    ];
    for l in 0..3u32 {
        let idx = standard([0, 0, 0, l]);
        let line = read_padset_one_byteline(&padset, &idx).unwrap();
        assert_eq!(line.len(), 32);
        let at = l as usize * 32;
        assert_eq!(line, bytes[at..at + 32].to_vec());
        assert_eq!(relative_line_path(&idx), names[l as usize].as_bytes().to_vec());
    }
    assert_eq!(
        read_padset_one_byteline(&padset, &standard([0, 0, 0, 3])),
        Err(PadError::InvalidIndex)
    );
    assert!(padset.peek_page_digest(0).is_none());
    assert!(padset.peek_pad_digest(0).is_none());
    assert_eq!(
        find_first_available_line(&padset, PadIndexMaxSize::Standard4Byte),
        Some(standard([0, 0, 0, 0]))
    );
}

#[test]
fn consumed_line_is_not_found_again() {
    let bounds = standard([0, 0, 0, 2]);
    let bytes = entropy(96, 2);
    let mut padset =
        padnet_make_one_pad_set(&bounds, 32, ValidationLevel::NoneLevel, &bytes).unwrap();
    let at = standard([0, 0, 0, 1]);
    let line = padnet_load_delete_read_one_byteline(&mut padset, &at).unwrap();
    assert_eq!(line, bytes[32..64].to_vec());
    assert_eq!(
        find_first_available_line(&padset, PadIndexMaxSize::Standard4Byte),
        Some(standard([0, 0, 0, 0]))
    );
    assert_eq!(
        padnet_load_delete_read_one_byteline(&mut padset, &at),
        Err(PadError::NotFound(at))
    );
    assert_eq!(read_padset_one_byteline(&padset, &at), Err(PadError::NotFound(at)));
}

#[test]
fn reading_a_line_leaves_every_line_in_place() {
    let bounds = standard([0, 0, 0, 3]);
    let bytes = entropy(128, 3);
    let padset = padnet_make_one_pad_set(&bounds, 32, ValidationLevel::NoneLevel, &bytes).unwrap();
    let before = padset.clone();
    let at = standard([0, 0, 0, 0]);
    let first = read_padset_one_byteline(&padset, &at).unwrap();
    let second = read_padset_one_byteline(&padset, &at).unwrap();
    assert_eq!(first, second);
    for l in 0..4u32 {
        assert!(read_padset_one_byteline(&padset, &standard([0, 0, 0, l])).is_ok());
    }
    assert_eq!(padset, before);
}

#[test]
fn cursor_walks_nest_major_and_line_minor() {
    let bounds = standard([1, 1, 1, 1]);
    let bytes = entropy(16 * 4, 4);
    let mut padset =
        padnet_make_one_pad_set(&bounds, 4, ValidationLevel::NoneLevel, &bytes).unwrap();
    let order = [
        [0, 0, 0, 0],
        [0, 0, 0, 1],
        [0, 0, 1, 0],
        [0, 0, 1, 1],
        [0, 1, 0, 0],
        [0, 1, 0, 1],
        [0, 1, 1, 0],
        [0, 1, 1, 1],
        [1, 0, 0, 0],
        [1, 0, 0, 1],
        [1, 0, 1, 0],
        [1, 0, 1, 1],
        [1, 1, 0, 0],
        [1, 1, 0, 1],
        [1, 1, 1, 0],
        [1, 1, 1, 1],
    ];
    for (r, c) in order.iter().enumerate() {
        let idx = standard(*c);
        assert_eq!(
            find_first_available_line(&padset, PadIndexMaxSize::Standard4Byte),
            Some(idx)
        );
        let line = padnet_load_delete_read_one_byteline(&mut padset, &idx).unwrap();
        assert_eq!(line, bytes[r * 4..r * 4 + 4].to_vec());
    }
    assert_eq!(find_first_available_line(&padset, PadIndexMaxSize::Standard4Byte), None);
}

#[test]
fn cursor_of_another_width_class_finds_nothing() {
    let bounds = standard([0, 0, 0, 1]);
    let padset =
        padnet_make_one_pad_set(&bounds, 2, ValidationLevel::NoneLevel, &entropy(4, 5)).unwrap();
    assert_eq!(find_first_available_line(&padset, PadIndexMaxSize::Extended8Byte), None);
}

#[test]
fn bounds_beyond_the_width_class_are_invalid() {
    let r = padnet_make_one_pad_set(
        &standard([0, 0, 0, 1000]),
        1,
        ValidationLevel::NoneLevel,
        &entropy(2000, 6),
    );
    assert_eq!(r.err(), Some(PadError::InvalidBounds));
    let r = padnet_make_one_pad_set(
        &standard([1000, 0, 0, 0]),
        1,
        ValidationLevel::NoneLevel,
        &entropy(2000, 6),
    );
    assert_eq!(r.err(), Some(PadError::InvalidBounds));
    assert!(Padset::blank(&standard([0, 0, 0, 999])).is_ok());
    assert_eq!(Padset::blank(&standard([0, 1000, 0, 0])).err(), Some(PadError::InvalidBounds));
    assert!(Padset::blank(&PadIndex::new_extended([0, 0, 0, 1000])).is_ok());
}

#[test]
fn too_few_random_bytes_is_an_rng_error() {
    let bounds = standard([0, 0, 1, 3]);
    let r = padnet_make_one_pad_set(&bounds, 64, ValidationLevel::NoneLevel, &entropy(511, 7));
    assert_eq!(r.err(), Some(PadError::Rng));
    let r = padnet_make_one_pad_set(&bounds, 64, ValidationLevel::NoneLevel, &entropy(512, 7));
    assert!(r.is_ok());
    let r = padnet_make_one_pad_set(&bounds, usize::MAX, ValidationLevel::NoneLevel, &[]);
    assert_eq!(r.err(), Some(PadError::Rng));
}

#[test]
fn lines_of_no_bytes_need_no_random_bytes() {
    let bounds = standard([0, 0, 0, 1]);
    let padset = padnet_make_one_pad_set(&bounds, 0, ValidationLevel::PageLevel, &[]).unwrap();
    assert_eq!(read_padset_one_byteline(&padset, &standard([0, 0, 0, 1])), Ok(vec![]));
    assert_eq!(padset.peek_page_digest(0).cloned(), Some(content_digest(b"")));
}

#[test]
fn index_of_another_width_class_is_invalid() {
    let bounds = standard([0, 0, 0, 1]);
    let mut padset =
        padnet_make_one_pad_set(&bounds, 2, ValidationLevel::NoneLevel, &entropy(4, 8)).unwrap();
    let other = PadIndex::new_extended([0, 0, 0, 0]);
    assert_eq!(read_padset_one_byteline(&padset, &other), Err(PadError::InvalidIndex));
    assert_eq!(
        padnet_load_delete_read_one_byteline(&mut padset, &other),
        Err(PadError::InvalidIndex)
    );
    assert_eq!(
        padnet_load_delete_read_one_byteline(&mut padset, &standard([0, 0, 1, 0])),
        Err(PadError::InvalidIndex)
    );
    assert_eq!(padset.line_slots(), 2);
    assert!(padset.peek_line(0).is_some());
    assert!(padset.peek_line(1).is_some());
}

#[test]
fn page_level_builds_one_digest_per_page() {
    let bounds = standard([0, 0, 1, 3]);
    let bytes = entropy(8 * 64, 9);
    let padset = padnet_make_one_pad_set(&bounds, 64, ValidationLevel::PageLevel, &bytes).unwrap();
    assert_eq!(
        padset.peek_page_digest(0).cloned(),
        Some(content_digest(&bytes[0..256]))
    );
    assert_eq!(
        padset.peek_page_digest(1).cloned(),
        Some(content_digest(&bytes[256..512]))
    );
    assert_eq!(padset.peek_page_digest(0).unwrap().len(), 64);
    assert!(padset.peek_pad_digest(0).is_none());
}

#[test]
fn pad_level_builds_one_digest_per_pad() {
    let bounds = standard([0, 1, 1, 3]);
    let bytes = entropy(16 * 64, 10);
    let padset = padnet_make_one_pad_set(&bounds, 64, ValidationLevel::PadLevel, &bytes).unwrap();
    assert_eq!(
        padset.peek_pad_digest(0).cloned(),
        Some(content_digest(&bytes[0..512]))
    );
    assert_eq!(
        padset.peek_pad_digest(1).cloned(),
        Some(content_digest(&bytes[512..1024]))
    );
    for page in 0..4 {
        assert!(padset.peek_page_digest(page).is_none());
    }
}

#[test]
fn validating_a_page_consumes_its_digest_once() {
    let bounds = standard([0, 0, 1, 3]);
    let bytes = entropy(8 * 16, 11);
    let mut padset =
        padnet_make_one_pad_set(&bounds, 16, ValidationLevel::PageLevel, &bytes).unwrap();
    assert_eq!(validate_and_consume_page(&mut padset, 0, 0, 1), Ok(()));
    assert!(padset.peek_page_digest(1).is_none());
    assert!(padset.peek_page_digest(0).is_some());
    let after_first = padset.clone();
    // No digest is left: the page passes without a check and nothing changes.
    assert_eq!(validate_and_consume_page(&mut padset, 0, 0, 1), Ok(()));
    assert_eq!(padset, after_first);
    assert_eq!(
        validate_and_consume_page(&mut padset, 0, 0, 2),
        Err(PadError::InvalidIndex)
    );
    assert_eq!(
        validate_and_consume_page(&mut padset, 0, 1, 0),
        Err(PadError::InvalidIndex)
    );
}

#[test]
fn a_changed_line_fails_its_page_and_changes_nothing() {
    let bounds = standard([0, 0, 1, 3]);
    let bytes = entropy(8 * 16, 12);
    let mut padset =
        padnet_make_one_pad_set(&bounds, 16, ValidationLevel::PageLevel, &bytes).unwrap();
    let mut line = padset.peek_line(6).unwrap().clone();
    line[3] ^= 0x01;
    padset.put_line(6, line);
    let before = padset.clone();
    assert_eq!(
        validate_and_consume_page(&mut padset, 0, 0, 1),
        Err(PadError::IntegrityFailure(IntegrityScope::Page { nest: 0, pad: 0, page: 1 }))
    );
    assert_eq!(padset, before);
    assert_eq!(validate_and_consume_page(&mut padset, 0, 0, 0), Ok(()));
}

#[test]
fn a_missing_line_fails_its_pad() {
    let bounds = standard([0, 1, 1, 1]);
    let bytes = entropy(8 * 8, 13);
    let mut padset =
        padnet_make_one_pad_set(&bounds, 8, ValidationLevel::PadLevel, &bytes).unwrap();
    assert!(padnet_load_delete_read_one_byteline(&mut padset, &standard([0, 1, 0, 1])).is_ok());
    let before = padset.clone();
    assert_eq!(
        validate_and_consume_pad(&mut padset, 0, 1),
        Err(PadError::IntegrityFailure(IntegrityScope::Pad { nest: 0, pad: 1 }))
    );
    assert_eq!(padset, before);
    assert_eq!(validate_and_consume_pad(&mut padset, 0, 0), Ok(()));
    assert!(padset.peek_pad_digest(0).is_none());
    assert!(padset.peek_pad_digest(1).is_some());
    assert_eq!(validate_and_consume_pad(&mut padset, 0, 2), Err(PadError::InvalidIndex));
}

#[test]
fn digests_can_be_built_after_the_lines() {
    let bounds = standard([0, 0, 1, 1]);
    let bytes = entropy(4 * 8, 14);
    let mut padset =
        padnet_make_one_pad_set(&bounds, 8, ValidationLevel::NoneLevel, &bytes).unwrap();
    assert_eq!(build_page_digest(&mut padset, 0, 0, 1), Ok(()));
    assert_eq!(
        padset.peek_page_digest(1).cloned(),
        Some(content_digest(&bytes[16..32]))
    );
    assert!(padset.peek_page_digest(0).is_none());
    assert_eq!(build_pad_digest(&mut padset, 0, 0), Ok(()));
    assert_eq!(padset.peek_pad_digest(0).cloned(), Some(content_digest(&bytes)));
    assert_eq!(build_page_digest(&mut padset, 0, 0, 2), Err(PadError::InvalidIndex));
    assert_eq!(build_pad_digest(&mut padset, 1, 0), Err(PadError::InvalidIndex));
}

#[test]
fn a_digest_file_with_a_trailing_newline_validates() {
    let bounds = standard([0, 0, 0, 1]);
    let bytes = entropy(2 * 8, 15);
    let mut padset =
        padnet_make_one_pad_set(&bounds, 8, ValidationLevel::PageLevel, &bytes).unwrap();
    let mut stored = padset.peek_page_digest(0).unwrap().clone();
    stored.push(b'\n');
    padset.set_page_digest(0, Some(stored));
    assert_eq!(validate_and_consume_page(&mut padset, 0, 0, 0), Ok(()));
    assert!(padset.peek_page_digest(0).is_none());
}
