use padnet_otp::builder::padnet_make_one_pad_set;
use padnet_otp::error::{IntegrityScope, PadError};
use padnet_otp::index::{PadIndex, PadIndexMaxSize};
use padnet_otp::integrity::ValidationLevel;
use padnet_otp::lines::{find_first_available_line, padnet_load_delete_read_one_byteline};
use padnet_otp::store::Padset;
use padnet_otp::stream::{
    padnet_reader_xor_file, padnet_writer_strict_cleanup_continuous_xor_file, reader_take_line,
    step_after, writer_take_line, xor_into, Validated,
};

const MESSAGE: &[u8] =
    b"This is a secret message that needs OTP encryption!\nLine 2 of data.\nLine 3 here.";

fn entropy(len: usize, seed: u64) -> Vec<u8> {
    let mut state = seed;
    let mut out = Vec::with_capacity(len);
    for _ in 0..len {
        state = state
            .wrapping_mul(6364136223846793005)
            .wrapping_add(1442695040888963407);
        out.push((state >> 33) as u8);
    }
    out
}

fn standard(c: [u32; 4]) -> PadIndex {
    PadIndex::new_standard(c)
}

fn build(bounds: [u32; 4], line_length: usize, level: ValidationLevel, seed: u64) -> Padset {
    let b = standard(bounds);
    let lines =
        (b.nest as usize + 1) * (b.pad as usize + 1) * (b.page as usize + 1) * (b.line as usize + 1);
    padnet_make_one_pad_set(&b, line_length, level, &entropy(lines * line_length, seed)).unwrap()
}

fn cursor(padset: &Padset) -> Option<PadIndex> {
    find_first_available_line(padset, PadIndexMaxSize::Standard4Byte)
}

fn lines_present(padset: &Padset) -> Vec<bool> {
    (0..padset.line_slots()).map(|r| padset.peek_line(r).is_some()).collect()
}

#[test]
fn xor_reaches_as_far_as_the_shorter_side() {
    let mut out = vec![0xee];
    xor_into(&mut out, &[0x0f, 0xf0, 0xaa], &[0xff, 0xff]);
    assert_eq!(out, vec![0xee, 0xf0, 0x0f]);
    xor_into(&mut out, &[0x01], &[0x03, 0x07]);
    assert_eq!(out, vec![0xee, 0xf0, 0x0f, 0x02]);
    xor_into(&mut out, &[], &[0x03]);
    assert_eq!(out.len(), 4);
}

#[test]
fn alice_encrypts_and_bob_decrypts() {
    let mut alice = build([0, 0, 0, 10], 64, ValidationLevel::NoneLevel, 21);
    let bob = alice.clone();
    assert_eq!(MESSAGE.len(), 80);

    let mut encrypted = vec![1, 2, 3];
    let (start, count) =
        padnet_writer_strict_cleanup_continuous_xor_file(MESSAGE, &mut encrypted, &mut alice)
            .unwrap();
    assert_eq!(start, standard([0, 0, 0, 0]));
    assert_eq!(count, 80);
    assert_eq!(encrypted.len(), 80);
    assert_ne!(encrypted, MESSAGE.to_vec());

    // The cipher is the XOR with the lines in order.
    let key = entropy(11 * 64, 21);
    let expected: Vec<u8> = MESSAGE.iter().zip(key.iter()).map(|(m, k)| m ^ k).collect();
    assert_eq!(encrypted, expected);

    // Lines 000 and 001 are gone, the rest is there.
    assert_eq!(cursor(&alice), Some(standard([0, 0, 0, 2])));
    let mut want = vec![true; 11];
    want[0] = false;
    want[1] = false;
    assert_eq!(lines_present(&alice), want);

    let mut decrypted = Vec::new();
    let read = padnet_reader_xor_file(&encrypted, &mut decrypted, &bob, &start).unwrap();
    assert_eq!(read, 80);
    assert_eq!(decrypted, MESSAGE.to_vec());
}

#[test]
fn eighty_one_bytes_use_two_lines_of_sixty_four() {
    let mut alice = build([0, 0, 0, 10], 64, ValidationLevel::NoneLevel, 38);
    let bob = alice.clone();
    let mut plain = MESSAGE.to_vec();
    plain.push(b'\n');
    assert_eq!(plain.len(), 81);
    let mut encrypted = Vec::new();
    let r = padnet_writer_strict_cleanup_continuous_xor_file(&plain, &mut encrypted, &mut alice);
    assert_eq!(r, Ok((standard([0, 0, 0, 0]), 81)));
    assert_eq!(cursor(&alice), Some(standard([0, 0, 0, 2])));
    let mut decrypted = Vec::new();
    let r = padnet_reader_xor_file(&encrypted, &mut decrypted, &bob, &standard([0, 0, 0, 0]));
    assert_eq!(r, Ok(81));
    assert_eq!(decrypted, plain);
}

#[test]
fn bob_decrypts_a_second_time() {
    let mut alice = build([0, 0, 0, 10], 64, ValidationLevel::NoneLevel, 22);
    let bob = alice.clone();
    let untouched = bob.clone();
    let mut encrypted = Vec::new();
    let (start, _) =
        padnet_writer_strict_cleanup_continuous_xor_file(MESSAGE, &mut encrypted, &mut alice)
            .unwrap();
    let mut first = Vec::new();
    let mut second = vec![9; 200];
    padnet_reader_xor_file(&encrypted, &mut first, &bob, &start).unwrap();
    padnet_reader_xor_file(&encrypted, &mut second, &bob, &start).unwrap();
    assert_eq!(first, MESSAGE.to_vec());
    assert_eq!(second, MESSAGE.to_vec());
    assert_eq!(bob, untouched);
}

#[test]
fn writer_consumes_the_page_digest_it_validated() {
    let mut alice = build([0, 0, 1, 3], 64, ValidationLevel::PageLevel, 23);
    let bob = alice.clone();
    let second_page = alice.peek_page_digest(1).cloned();
    assert!(alice.peek_page_digest(0).is_some());
    assert!(second_page.is_some());

    let plain = b"Testing page-level hash validation!";
    let mut encrypted = Vec::new();
    let (start, count) =
        padnet_writer_strict_cleanup_continuous_xor_file(plain, &mut encrypted, &mut alice)
            .unwrap();
    assert_eq!(start, standard([0, 0, 0, 0]));
    assert_eq!(count, plain.len());
    assert!(alice.peek_page_digest(0).is_none());
    assert_eq!(alice.peek_page_digest(1).cloned(), second_page);
    assert_eq!(
        lines_present(&alice),
        vec![false, true, true, true, true, true, true, true]
    );

    // Bob validates his own digest and keeps it.
    let mut decrypted = Vec::new();
    let read = padnet_reader_xor_file(&encrypted, &mut decrypted, &bob, &start).unwrap();
    assert_eq!(read, plain.len());
    assert_eq!(decrypted, plain.to_vec());
    assert!(bob.peek_page_digest(0).is_some());

    // The next run starts within the page, which has no digest any more.
    let mut more = Vec::new();
    let (start, _) =
        padnet_writer_strict_cleanup_continuous_xor_file(b"x", &mut more, &mut alice).unwrap();
    assert_eq!(start, standard([0, 0, 0, 1]));
}

#[test]
fn writer_refuses_a_page_with_a_flipped_bit() {
    for flipped in 0..4usize {
        let mut padset = build([0, 0, 1, 3], 64, ValidationLevel::PageLevel, 24);
        let mut line = padset.peek_line(flipped).unwrap().clone();
        line[17] ^= 0x10;
        padset.put_line(flipped, line);
        let before = padset.clone();
        let mut encrypted = vec![7];
        let r = padnet_writer_strict_cleanup_continuous_xor_file(b"x", &mut encrypted, &mut padset);
        assert_eq!(
            r,
            Err(PadError::IntegrityFailure(IntegrityScope::Page { nest: 0, pad: 0, page: 0 }))
        );
        assert!(encrypted.is_empty());
        assert!(padset.peek_page_digest(0).is_some());
        assert_eq!(lines_present(&padset), vec![true; 8]);
        assert_eq!(padset, before);
        // A second attempt is refused in the same way.
        let r = padnet_writer_strict_cleanup_continuous_xor_file(b"x", &mut encrypted, &mut padset);
        assert_eq!(
            r,
            Err(PadError::IntegrityFailure(IntegrityScope::Page { nest: 0, pad: 0, page: 0 }))
        );
        assert_eq!(padset, before);
    }
}

#[test]
fn writer_stops_at_a_tampered_later_page() {
    let mut padset = build([0, 0, 1, 1], 4, ValidationLevel::PageLevel, 25);
    let mut line = padset.peek_line(3).unwrap().clone();
    line[0] ^= 0xff;
    padset.put_line(3, line);
    // Ten bytes need three lines: two of page 0, one of page 1.
    let mut encrypted = Vec::new();
    let r = padnet_writer_strict_cleanup_continuous_xor_file(
        b"0123456789",
        &mut encrypted,
        &mut padset,
    );
    assert_eq!(
        r,
        Err(PadError::IntegrityFailure(IntegrityScope::Page { nest: 0, pad: 0, page: 1 }))
    );
    // What was written and consumed before the failure stays so.
    assert_eq!(encrypted.len(), 8);
    assert_eq!(lines_present(&padset), vec![false, false, true, true]);
    assert!(padset.peek_page_digest(0).is_none());
    assert!(padset.peek_page_digest(1).is_some());
    // A short message never reaches the tampered page.
    let mut padset = build([0, 0, 1, 1], 4, ValidationLevel::PageLevel, 25);
    let mut line = padset.peek_line(3).unwrap().clone();
    line[0] ^= 0xff;
    padset.put_line(3, line);
    let r = padnet_writer_strict_cleanup_continuous_xor_file(b"abc", &mut encrypted, &mut padset);
    assert_eq!(r, Ok((standard([0, 0, 0, 0]), 3)));
}

#[test]
fn pad_level_round_trip_across_pads_and_nests() {
    let mut alice = build([1, 1, 1, 1], 5, ValidationLevel::PadLevel, 26);
    let bob = alice.clone();
    let plain = entropy(5 * 13 + 2, 99);
    let mut encrypted = Vec::new();
    let (start, count) =
        padnet_writer_strict_cleanup_continuous_xor_file(&plain, &mut encrypted, &mut alice)
            .unwrap();
    assert_eq!(start, standard([0, 0, 0, 0]));
    assert_eq!(count, 67);
    // 67 bytes over lines of 5 use 14 lines; pads 0 to 3 were entered.
    assert_eq!(cursor(&alice), Some(standard([1, 1, 1, 0])));
    for pad in 0..4 {
        assert!(alice.peek_pad_digest(pad).is_none());
    }
    let mut decrypted = Vec::new();
    assert_eq!(padnet_reader_xor_file(&encrypted, &mut decrypted, &bob, &start), Ok(67));
    assert_eq!(decrypted, plain);
    for pad in 0..4 {
        assert!(bob.peek_pad_digest(pad).is_some());
    }
}

#[test]
fn second_message_starts_where_the_first_ended() {
    let mut alice = build([0, 1, 1, 2], 8, ValidationLevel::PageLevel, 27);
    let bob = alice.clone();
    let first = entropy(20, 100);
    let second = entropy(30, 101);
    let mut c1 = Vec::new();
    let mut c2 = Vec::new();
    let before = cursor(&alice).unwrap();
    let (s1, _) =
        padnet_writer_strict_cleanup_continuous_xor_file(&first, &mut c1, &mut alice).unwrap();
    let between = cursor(&alice).unwrap();
    let (s2, _) =
        padnet_writer_strict_cleanup_continuous_xor_file(&second, &mut c2, &mut alice).unwrap();
    let after = cursor(&alice).unwrap();
    assert_eq!(s1, standard([0, 0, 0, 0]));
    assert_eq!(between, standard([0, 0, 1, 0]));
    assert_eq!(s2, between);
    assert_eq!(after, standard([0, 1, 0, 1]));
    // The cursor never goes back.
    assert!(!between.precedes(&before));
    assert!(!after.precedes(&between));
    let mut p1 = Vec::new();
    let mut p2 = Vec::new();
    padnet_reader_xor_file(&c1, &mut p1, &bob, &s1).unwrap();
    padnet_reader_xor_file(&c2, &mut p2, &bob, &s2).unwrap();
    assert_eq!(p1, first);
    assert_eq!(p2, second);
}

#[test]
fn lines_used_are_one_more_than_the_whole_lines_of_input() {
    // (bytes, lines removed) for lines of 8 bytes.
    for (bytes, used) in [(0usize, 1usize), (1, 1), (7, 1), (8, 2), (9, 2), (16, 3), (23, 3)] {
        let mut padset = build([0, 0, 0, 5], 8, ValidationLevel::NoneLevel, 28);
        let plain = entropy(bytes, 102);
        let mut encrypted = Vec::new();
        let r = padnet_writer_strict_cleanup_continuous_xor_file(&plain, &mut encrypted, &mut padset);
        assert_eq!(r, Ok((standard([0, 0, 0, 0]), bytes)));
        let mut want = vec![true; 6];
        for slot in want.iter_mut().take(used) {
            *slot = false;
        }
        assert_eq!(lines_present(&padset), want);
    }
}

#[test]
fn writer_on_an_empty_padset_is_exhausted() {
    let mut padset = build([0, 0, 0, 0], 4, ValidationLevel::NoneLevel, 29);
    padnet_load_delete_read_one_byteline(&mut padset, &standard([0, 0, 0, 0])).unwrap();
    let mut encrypted = vec![1];
    let r = padnet_writer_strict_cleanup_continuous_xor_file(b"abc", &mut encrypted, &mut padset);
    assert_eq!(r, Err(PadError::PadExhausted));
    assert!(encrypted.is_empty());
}

#[test]
fn input_that_fills_the_last_line_exhausts_the_padset() {
    let mut padset = build([0, 0, 0, 1], 4, ValidationLevel::NoneLevel, 30);
    let mut encrypted = Vec::new();
    let r =
        padnet_writer_strict_cleanup_continuous_xor_file(b"12345678", &mut encrypted, &mut padset);
    assert_eq!(r, Err(PadError::PadExhausted));
    // All eight bytes were written and both lines consumed before the failure.
    assert_eq!(encrypted.len(), 8);
    assert_eq!(cursor(&padset), None);
    // One byte less fits.
    let mut padset = build([0, 0, 0, 1], 4, ValidationLevel::NoneLevel, 30);
    let r =
        padnet_writer_strict_cleanup_continuous_xor_file(b"1234567", &mut encrypted, &mut padset);
    assert_eq!(r, Ok((standard([0, 0, 0, 0]), 7)));
}

#[test]
fn writer_fails_at_a_hole_in_the_padset() {
    let mut padset = build([0, 0, 0, 3], 4, ValidationLevel::NoneLevel, 31);
    padnet_load_delete_read_one_byteline(&mut padset, &standard([0, 0, 0, 1])).unwrap();
    let mut encrypted = Vec::new();
    let r = padnet_writer_strict_cleanup_continuous_xor_file(b"12345", &mut encrypted, &mut padset);
    assert_eq!(r, Err(PadError::NotFound(standard([0, 0, 0, 1]))));
    assert_eq!(encrypted.len(), 4);
    assert_eq!(lines_present(&padset), vec![false, false, true, true]);
}

#[test]
fn reader_rejects_a_start_outside_the_bounds() {
    let padset = build([0, 0, 0, 3], 4, ValidationLevel::NoneLevel, 32);
    let mut out = vec![5];
    let r = padnet_reader_xor_file(b"abc", &mut out, &padset, &standard([0, 0, 0, 4]));
    assert_eq!(r, Err(PadError::InvalidIndex));
    assert!(out.is_empty());
    let r = padnet_reader_xor_file(b"abc", &mut out, &padset, &PadIndex::new_extended([0, 0, 0, 0]));
    assert_eq!(r, Err(PadError::InvalidIndex));
}

#[test]
fn reader_from_a_later_start_uses_the_lines_from_there() {
    let padset = build([0, 0, 1, 1], 4, ValidationLevel::NoneLevel, 33);
    let key = entropy(16, 33);
    let mut out = Vec::new();
    let r = padnet_reader_xor_file(&[0u8; 6], &mut out, &padset, &standard([0, 0, 0, 1]));
    assert_eq!(r, Ok(6));
    assert_eq!(out, key[4..10].to_vec());
    // Input that fills the last line runs out of lines.
    let r = padnet_reader_xor_file(&[0u8; 4], &mut out, &padset, &standard([0, 0, 1, 1]));
    assert_eq!(r, Err(PadError::PadExhausted));
    assert_eq!(out, key[12..16].to_vec());
}

#[test]
fn reader_fails_on_a_tampered_page_and_on_a_missing_line() {
    let mut padset = build([0, 0, 1, 1], 4, ValidationLevel::PageLevel, 34);
    let mut line = padset.peek_line(2).unwrap().clone();
    line[1] ^= 0x80;
    padset.put_line(2, line);
    let mut out = Vec::new();
    let r = padnet_reader_xor_file(&[0u8; 10], &mut out, &padset, &standard([0, 0, 0, 0]));
    assert_eq!(
        r,
        Err(PadError::IntegrityFailure(IntegrityScope::Page { nest: 0, pad: 0, page: 1 }))
    );
    assert_eq!(out.len(), 8);

    let mut padset = build([0, 0, 0, 2], 4, ValidationLevel::NoneLevel, 35);
    padset.take_line(1);
    let r = padnet_reader_xor_file(&[0u8; 10], &mut out, &padset, &standard([0, 0, 0, 0]));
    assert_eq!(r, Err(PadError::NotFound(standard([0, 0, 0, 1]))));
}

#[test]
fn reader_is_its_own_inverse() {
    let padset = build([0, 1, 1, 1], 6, ValidationLevel::PadLevel, 36);
    let start = standard([0, 0, 1, 0]);
    let input = entropy(25, 103);
    let mut once = Vec::new();
    let mut twice = Vec::new();
    assert_eq!(padnet_reader_xor_file(&input, &mut once, &padset, &start), Ok(25));
    assert_eq!(padnet_reader_xor_file(&once, &mut twice, &padset, &start), Ok(25));
    assert_ne!(once, input);
    assert_eq!(twice, input);
}

#[test]
fn single_steps_follow_the_same_order_as_a_whole_run() {
    let mut padset = build([0, 0, 1, 1], 4, ValidationLevel::PageLevel, 37);
    let bounds = padset.bounds();
    let copy = padset.clone();
    let key = entropy(16, 37);
    let current = standard([0, 0, 0, 1]);

    let mut seen = Validated::new();
    assert_eq!(reader_take_line(&copy, &current, &mut seen), Ok(key[4..8].to_vec()));
    assert_eq!(reader_take_line(&copy, &current, &mut seen), Ok(key[4..8].to_vec()));

    assert_eq!(writer_take_line(&mut padset, &current), Ok(key[4..8].to_vec()));
    assert!(padset.peek_page_digest(0).is_none());
    assert!(padset.peek_line(1).is_none());
    assert_eq!(
        writer_take_line(&mut padset, &current),
        Err(PadError::NotFound(current))
    );

    assert_eq!(step_after(&current, &bounds, 3, 4), Ok(None));
    assert_eq!(step_after(&current, &bounds, 4, 4), Ok(Some(standard([0, 0, 1, 0]))));
    assert_eq!(
        step_after(&standard([0, 0, 1, 1]), &bounds, 4, 4),
        Err(PadError::PadExhausted)
    );
    assert_eq!(step_after(&standard([0, 0, 1, 1]), &bounds, 0, 4), Ok(None));
}
