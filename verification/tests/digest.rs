use line_backup_native::digest::{sha256_hex, StreamDigest};

#[test]
fn a_digest_fed_in_pieces_equals_the_digest_of_the_whole() {
    let mut stream = StreamDigest::new();
    stream.update(b"ab");
    stream.update(b"");
    stream.update(b"c");
    let hex = stream.finish_hex();
    assert_eq!(hex, "ba7816bf8f01cfea414140de5dae2223b00361a396177a9cb410ff61f20015ad");
    assert_eq!(hex, sha256_hex(&b"abc".to_vec()));
    assert_eq!(StreamDigest::new().finish().len(), 32);
}
