use padnet_otp::builder::padnet_make_one_pad_set;
use padnet_otp::error::PadError;
use padnet_otp::files::{cover_of, index_of_target, padset_files, padset_from_files, place_file, PadFile};
use padnet_otp::index::{PadIndex, PadIndexMaxSize};
use padnet_otp::integrity::{content_digest, ValidationLevel};
use padnet_otp::lines::{padnet_load_delete_read_one_byteline, read_padset_one_byteline};
use padnet_otp::path::PathTarget;
use padnet_otp::store::Padset;
use padnet_otp::stream::padnet_writer_strict_cleanup_continuous_xor_file;

fn entropy(len: usize, seed: u64) -> Vec<u8> {
    let mut state = seed;
    let mut out = Vec::with_capacity(len);
    for _ in 0..len {
        state = state
            .wrapping_mul(6364136223846793005)
            .wrapping_add(1442695040888963407);
        out.push((state >> 33) as u8);
    }
    out
}

fn standard(c: [u32; 4]) -> PadIndex {
    PadIndex::new_standard(c)
}

fn file(path: &str, content: &[u8]) -> PadFile {
    PadFile { path: path.as_bytes().to_vec(), content: content.to_vec() }
}

fn paths(files: &[PadFile]) -> Vec<String> {
    files.iter().map(|f| String::from_utf8(f.path.clone()).unwrap()).collect()
}

const W: PadIndexMaxSize = PadIndexMaxSize::Standard4Byte;

#[test]
fn minimal_padset_is_three_files() {
    let bytes = entropy(96, 41);
    let padset =
        padnet_make_one_pad_set(&standard([0, 0, 0, 2]), 32, ValidationLevel::NoneLevel, &bytes)
            .unwrap();
    let files = padset_files(&padset);
    assert_eq!(
        paths(&files),
        vec![
            "padnest_0_000/pad_000/page_000/line_000",
            "padnest_0_000/pad_000/page_000/line_001",
            "padnest_0_000/pad_000/page_000/line_002",
        ]
    );
    for (l, f) in files.iter().enumerate() {
        assert_eq!(f.content.len(), 32);
        assert_eq!(f.content, bytes[l * 32..l * 32 + 32].to_vec());
    }
}

#[test]
fn page_level_padset_has_one_digest_file_per_page() {
    let bytes = entropy(8 * 64, 42);
    let mut padset =
        padnet_make_one_pad_set(&standard([0, 0, 1, 3]), 64, ValidationLevel::PageLevel, &bytes)
            .unwrap();
    let all = paths(&padset_files(&padset));
    assert_eq!(all.len(), 10);
    assert_eq!(all[0], "padnest_0_000/pad_000/page_000/line_000");
    assert_eq!(all[7], "padnest_0_000/pad_000/page_001/line_003");
    assert_eq!(all[8], "padnest_0_000/pad_000/hash_page_000");
    assert_eq!(all[9], "padnest_0_000/pad_000/hash_page_001");

    // After the writer used a line of page 000, that digest file is gone.
    let mut cipher = Vec::new();
    padnet_writer_strict_cleanup_continuous_xor_file(b"x", &mut cipher, &mut padset).unwrap();
    let all = paths(&padset_files(&padset));
    assert_eq!(all.len(), 8);
    assert_eq!(all[0], "padnest_0_000/pad_000/page_000/line_001");
    assert!(!all.contains(&"padnest_0_000/pad_000/hash_page_000".to_string()));
    assert_eq!(all[7], "padnest_0_000/pad_000/hash_page_001");
}

#[test]
fn pad_level_padset_has_one_digest_file_per_pad() {
    let bytes = entropy(8 * 4, 43);
    let padset =
        padnet_make_one_pad_set(&standard([1, 1, 0, 1]), 4, ValidationLevel::PadLevel, &bytes)
            .unwrap();
    let files = padset_files(&padset);
    let all = paths(&files);
    assert_eq!(all.len(), 12);
    assert_eq!(
        all[8..].to_vec(),
        vec![
            "padnest_0_000/hash_pad_000",
            "padnest_0_000/hash_pad_001",
            "padnest_0_001/hash_pad_000",
            "padnest_0_001/hash_pad_001",
        ]
    );
    assert_eq!(files[11].content, content_digest(&bytes[24..32]));
}

#[test]
fn a_padset_comes_back_from_its_files() {
    for level in [ValidationLevel::NoneLevel, ValidationLevel::PageLevel, ValidationLevel::PadLevel] {
        let bytes = entropy(24 * 5, 44);
        let padset = padnet_make_one_pad_set(&standard([1, 2, 1, 1]), 5, level, &bytes).unwrap();
        let back = padset_from_files(&padset_files(&padset), W).unwrap();
        assert_eq!(back, padset);
    }
}

#[test]
fn a_partly_consumed_padset_comes_back_with_what_is_left() {
    let bytes = entropy(8 * 4, 45);
    let mut padset =
        padnet_make_one_pad_set(&standard([0, 0, 1, 3]), 4, ValidationLevel::PageLevel, &bytes)
            .unwrap();
    let mut cipher = Vec::new();
    padnet_writer_strict_cleanup_continuous_xor_file(b"0123456", &mut cipher, &mut padset).unwrap();
    let back = padset_from_files(&padset_files(&padset), W).unwrap();
    assert_eq!(back, padset);
    // With the last lines gone the bounds come back narrower.
    padnet_load_delete_read_one_byteline(&mut padset, &standard([0, 0, 0, 3])).unwrap();
    padnet_load_delete_read_one_byteline(&mut padset, &standard([0, 0, 1, 3])).unwrap();
    let back = padset_from_files(&padset_files(&padset), W).unwrap();
    assert_eq!(back.bounds(), standard([0, 0, 1, 2]));
    for l in 0..3 {
        let at = standard([0, 0, 1, l]);
        assert_eq!(read_padset_one_byteline(&back, &at), read_padset_one_byteline(&padset, &at));
    }
    assert_eq!(
        read_padset_one_byteline(&back, &standard([0, 0, 0, 1])),
        Err(PadError::NotFound(standard([0, 0, 0, 1])))
    );
}

#[test]
fn files_in_any_order_give_the_same_padset() {
    let a = vec![
        file("padnest_0_000/pad_001/page_000/line_002", b"cc"),
        file("padnest_0_000/pad_000/hash_page_001", b"digest"),
        file("padnest_0_000/pad_000/page_000/line_000", b"aa"),
        file("padnest_0_000/hash_pad_001", b"other"),
    ];
    let mut b = a.clone();
    b.reverse();
    let first = padset_from_files(&a, W).unwrap();
    let second = padset_from_files(&b, W).unwrap();
    assert_eq!(first, second);
    assert_eq!(first.bounds(), standard([0, 1, 1, 2]));
    assert_eq!(first.line_slots(), 12);
    assert_eq!(read_padset_one_byteline(&first, &standard([0, 1, 0, 2])), Ok(b"cc".to_vec()));
    assert_eq!(read_padset_one_byteline(&first, &standard([0, 0, 0, 0])), Ok(b"aa".to_vec()));
    assert_eq!(first.peek_page_digest(1).cloned(), Some(b"digest".to_vec()));
    assert_eq!(first.peek_pad_digest(1).cloned(), Some(b"other".to_vec()));
    assert!(first.peek_pad_digest(0).is_none());
    assert_eq!(padset_files(&first).len(), 4);
}

#[test]
fn no_files_give_a_padset_without_lines() {
    let padset = padset_from_files(&Vec::new(), W).unwrap();
    assert_eq!(padset.bounds(), standard([0, 0, 0, 0]));
    assert_eq!(padset.line_slots(), 1);
    assert!(padset.peek_line(0).is_none());
    assert!(padset_files(&padset).is_empty());
}

#[test]
fn a_file_that_is_no_part_of_a_padset_is_refused() {
    for stray in ["notes.txt", "padnest_0_000/pad_000/page_000/line_0000", "padnest_0_000"] {
        let files = vec![file("padnest_0_000/pad_000/page_000/line_000", b"aa"), file(stray, b"")];
        assert_eq!(padset_from_files(&files, W).err(), Some(PadError::InvalidIndex));
    }
    let files = vec![file("padnest_0_000/pad_000/page_000/line_000", b"aa")];
    assert_eq!(
        padset_from_files(&files, PadIndexMaxSize::Extended8Byte).err(),
        Some(PadError::InvalidIndex)
    );
}

#[test]
fn a_later_file_replaces_an_earlier_one_of_the_same_path() {
    let files = vec![
        file("padnest_0_000/pad_000/page_000/line_000", b"old"),
        file("padnest_0_000/pad_000/page_000/line_000", b"new"),
    ];
    let padset = padset_from_files(&files, W).unwrap();
    assert_eq!(read_padset_one_byteline(&padset, &standard([0, 0, 0, 0])), Ok(b"new".to_vec()));
}

#[test]
fn placing_a_file_outside_the_bounds_is_refused() {
    let mut padset = Padset::blank(&standard([0, 0, 1, 1])).unwrap();
    let inside = PathTarget::Line(standard([0, 0, 1, 0]));
    assert_eq!(place_file(&mut padset, &inside, b"key".to_vec()), Ok(()));
    assert_eq!(read_padset_one_byteline(&padset, &standard([0, 0, 1, 0])), Ok(b"key".to_vec()));
    assert_eq!(
        place_file(&mut padset, &PathTarget::PageDigest(standard([0, 0, 1, 0])), b"d".to_vec()),
        Ok(())
    );
    assert_eq!(padset.peek_page_digest(1).cloned(), Some(b"d".to_vec()));
    assert_eq!(
        place_file(&mut padset, &PathTarget::PadDigest(standard([0, 0, 0, 0])), b"e".to_vec()),
        Ok(())
    );
    assert_eq!(padset.peek_pad_digest(0).cloned(), Some(b"e".to_vec()));
    let before = padset.clone();
    let outside = PathTarget::Line(standard([0, 0, 2, 0]));
    assert_eq!(place_file(&mut padset, &outside, b"key".to_vec()), Err(PadError::InvalidIndex));
    assert_eq!(padset, before);
    assert_eq!(index_of_target(&outside), standard([0, 0, 2, 0]));
}

#[test]
fn cover_takes_the_larger_of_each_component() {
    let a = standard([1, 5, 0, 9]);
    let b = standard([2, 3, 0, 10]);
    assert_eq!(cover_of(&a, &b), standard([2, 5, 0, 10]));
    assert_eq!(cover_of(&b, &a), standard([2, 5, 0, 10]));
    assert_eq!(cover_of(&a, &a), a);
    assert_eq!(cover_of(&a, &PadIndex::new_extended([9, 9, 9, 9])).width, W);
}
