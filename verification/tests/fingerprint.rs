use line_backup_native::digest::{digest, hex_lower, sha256_hex};
use line_backup_native::fingerprint::{
    directory_fingerprint, file_fingerprint, plan_fingerprint, staging_fingerprint,
};

#[test]
fn digests_are_sha256_in_lowercase_hex() {
    assert_eq!(
        sha256_hex(&Vec::new()),
        "e3b0c44298fc1c149afbf4c8996fb92427ae41e4649b934ca495991b7852b855"
    );
    assert_eq!(digest(&b"abc".to_vec()).len(), 32);
    assert_eq!(hex_lower(&vec![0, 15, 255]), "000fff");
}

#[test]
fn fingerprints_cover_exact_encodings() {
    assert_eq!(
        file_fingerprint(10, -1),
        "5153238dc1ceffde0d85bc24f7e4db1b88aace7e360fbcc82d9ef125559d29bc"
    );
    let forward = directory_fingerprint(vec![
        ("a.bin".to_string(), (3, 7)),
        ("b.bin".to_string(), (4, 8)),
    ]);
    let backward = directory_fingerprint(vec![
        ("b.bin".to_string(), (4, 8)),
        ("a.bin".to_string(), (3, 7)),
    ]);
    assert_eq!(forward, "30fc505e73309a545791340a78a4341e3626ba816c93d4fd1c9dc08d80f1df9d");
    assert_eq!(forward, backward);
    assert_eq!(
        staging_fingerprint("/src/LINE.imazingapp", 1000, 5),
        "75360c61b1a07ca4ded4a9f594f296bbb6d76de15b8b212828c3cb6ed84363f0"
    );
    let plan = plan_fingerprint(
        &vec![("Message Attachments/c1/12345678.jpg".to_string(), "chat".to_string(), 42)],
        &vec![("line".to_string(), 7, "selected".to_string(), -4)],
        &vec![("square".to_string(), 14, "m14".to_string(), 0)],
    );
    assert_eq!(plan, "3fab0f70039630d5ed5f4e297fd131b05820f1b3bc05fd376f2e05ef728372b7");
}
