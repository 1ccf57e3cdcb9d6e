use padnet_otp::integrity::{bytes_equal, content_digest, digest_file_matches, to_hex};
use padnet_otp::sha256::sha256;

fn hex_string(bytes: &[u8]) -> String {
    String::from_utf8(to_hex(bytes)).unwrap()
}

#[test]
fn sha256_of_nothing() {
    assert_eq!(
        hex_string(&sha256(b"")),
        "e3b0c44298fc1c149afbf4c8996fb92427ae41e4649b934ca495991b7852b855"
    );
}

#[test]
fn sha256_of_abc() {
    assert_eq!(
        hex_string(&sha256(b"abc")),
        "ba7816bf8f01cfea414140de5dae2223b00361a396177a9cb410ff61f20015ad"
    );
}

#[test]
fn sha256_of_two_blocks() {
    assert_eq!(
        hex_string(&sha256(b"abcdbcdecdefdefgefghfghighijhijkijkljklmklmnlmnomnopnopq")),
        "248d6a61d20638b8e5c026930c3e6039a33ce45964ff2167f6ecedd419db06c1"
    );
}

#[test]
fn sha256_at_the_padding_edges() {
    // 55 bytes fill one block with the padding, 56 need a second block.
    assert_eq!(
        hex_string(&sha256(&[b'a'; 55])),
        "9f4390f8d30c2dd92ec9f095b65e2b9ae9b0a925a5258e241c9f1e910f734318"
    );
    assert_eq!(
        hex_string(&sha256(&[b'a'; 56])),
        "b35439a4ac6f0948b6d6f9e3c6af0f5f590ce20f1bde7090ef7970686ec6738a"
    );
    assert_eq!(
        hex_string(&sha256(&[b'a'; 64])),
        "ffe054fe7ae0cb6dc65c3af9b61d5209f439851db43d0ba5997337df154668eb"
    );
}

#[test]
fn sha256_of_a_long_message() {
    let message = vec![b'a'; 1_000_000];
    assert_eq!(
        hex_string(&sha256(&message)),
        "cdc76e5c9914fb9281a1c7e284d73e67f1809a48a497200e046d39ccc7112cd0"
    );
}

#[test]
fn hex_is_lowercase_and_high_digit_first() {
    assert_eq!(hex_string(&[0x00, 0x0f, 0xa0, 0xff, 0x9c]), "000fa0ff9c");
    assert_eq!(hex_string(&[]), "");
}

#[test]
fn digest_file_is_hex_of_sha256() {
    assert_eq!(
        content_digest(b"abc"),
        b"ba7816bf8f01cfea414140de5dae2223b00361a396177a9cb410ff61f20015ad".to_vec()
    );
}

#[test]
fn digest_file_may_end_in_one_newline() {
    let digest = content_digest(b"abc");
    assert!(digest_file_matches(&digest, b"abc"));
    let mut with_newline = digest.clone();
    with_newline.push(b'\n');
    assert!(digest_file_matches(&with_newline, b"abc"));
    let mut with_two = with_newline.clone();
    with_two.push(b'\n');
    assert!(!digest_file_matches(&with_two, b"abc"));
    assert!(!digest_file_matches(&digest, b"abd"));
    assert!(!digest_file_matches(b"", b"abc"));
}

#[test]
fn bytes_equal_compares_content() {
    assert!(bytes_equal(b"", b""));
    assert!(bytes_equal(b"pad", b"pad"));
    assert!(!bytes_equal(b"pad", b"pat"));
    assert!(!bytes_equal(b"pad", b"pads"));
}
