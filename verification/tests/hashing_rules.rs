use send2me::hashing::{blake3_hex, Blake3Stream};

#[test]
fn blake3_hex_of_empty_input() {
    assert_eq!(
        blake3_hex(b""),
        "af1349b9f5f9a1a6a0404dea36dcc9499bcb25c9adc112b7cc9a93cae41f3262"
    );
}

#[test]
fn blake3_hex_matches_the_crate() {
    let data = b"send2me chunk payload";
    assert_eq!(blake3_hex(data), blake3::hash(data).to_hex().to_string());
    assert_eq!(blake3_hex(data).len(), 64);
}

#[test]
fn stream_in_pieces_equals_whole() {
    let mut s = Blake3Stream::new();
    s.update(b"foo");
    s.update(b"");
    s.update(b"barbaz");
    assert_eq!(s.finalize_hex(), blake3_hex(b"foobarbaz"));
    let big: Vec<u8> = (0..200_000u32).map(|i| (i % 251) as u8).collect();
    let mut t = Blake3Stream::new();
    for piece in big.chunks(65536) {
        t.update(piece);
    }
    assert_eq!(t.finalize_hex(), blake3_hex(&big));
}

#[test]
fn stream_of_nothing_is_empty_digest() {
    assert_eq!(Blake3Stream::new().finalize_hex(), blake3_hex(b""));
}
