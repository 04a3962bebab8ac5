use line_backup_native::error::CoreError;
use line_backup_native::scan::{
    detect_image_media_type, parse_i64, plan_scan, scan_would_resume, skipped_on_resume, worker_count,
    worker_id_range,
};
use line_backup_native::source::SourceKind;

#[test]
fn stored_numbers_read_like_str_parse() {
    assert_eq!(parse_i64("42"), Some(42));
    assert_eq!(parse_i64("+7"), Some(7));
    assert_eq!(parse_i64("-9223372036854775808"), Some(i64::MIN));
    assert_eq!(parse_i64("9223372036854775807"), Some(i64::MAX));
    assert_eq!(parse_i64("9223372036854775808"), None);
    assert_eq!(parse_i64("99999999999999999999999"), None);
    assert_eq!(parse_i64(""), None);
    assert_eq!(parse_i64("-"), None);
    assert_eq!(parse_i64(" 1"), None);
    assert_eq!(parse_i64("1x"), None);
}

#[test]
fn scans_start_over_or_resume() {
    let fresh = plan_scan(None, "/src", None, "f1", None, SourceKind::Directory, None, None).unwrap();
    assert!(!fresh.reset && !fresh.resume);
    assert_eq!(fresh.scan_id, 1);
    assert_eq!(
        plan_scan(Some("/other"), "/src", None, "f1", None, SourceKind::Directory, None, None).err(),
        Some(CoreError::ForeignCatalog)
    );
    let resumed = plan_scan(
        Some("/src"), "/src", Some("f1"), "f1", Some("resumable"), SourceKind::Directory, Some("b/c.jpg"), Some("4"),
    )
    .unwrap();
    assert!(resumed.resume && !resumed.reset);
    assert_eq!(resumed.scan_id, 4);
    assert_eq!(resumed.resume_after, Some("b/c.jpg".to_string()));
    let changed = plan_scan(
        Some("/src"), "/src", Some("f0"), "f1", Some("scanning"), SourceKind::Directory, Some("b"), Some("4"),
    )
    .unwrap();
    assert!(changed.reset && !changed.resume);
    assert_eq!(changed.scan_id, 5);
    let unstamped = plan_scan(Some("/src"), "/src", None, "f1", None, SourceKind::ImazingArchive, None, Some("x")).unwrap();
    assert!(unstamped.reset);
    assert_eq!(unstamped.scan_id, 1);
    assert_eq!(
        plan_scan(Some("/src"), "/src", Some("f1"), "f1", Some("scanning"), SourceKind::Directory, Some(""), Some("bad")).err(),
        Some(CoreError::ScanIdMissing)
    );
    assert!(skipped_on_resume("a/b", Some("a/b")));
    assert!(skipped_on_resume("a/a", Some("a/b")));
    assert!(!skipped_on_resume("a/c", Some("a/b")));
    assert!(!skipped_on_resume("a/a", None));
}

#[test]
fn archive_work_is_split_between_workers() {
    assert_eq!(worker_count(0, 10), 1);
    assert_eq!(worker_count(8, 3), 3);
    assert_eq!(worker_count(8, 0), 1);
    assert_eq!(worker_count(4, 100), 4);
    assert_eq!(worker_id_range(1, 10, 3, 0), Ok((1, 4)));
    assert_eq!(worker_id_range(1, 10, 3, 2), Ok((9, 10)));
    assert_eq!(worker_id_range(5, 4, 2, 1), Ok((5, 4)));
    assert_eq!(worker_id_range(10, 1, 2, 0), Err(CoreError::CatalogIdRange));
    assert_eq!(worker_id_range(i64::MIN, i64::MAX, 1, 0), Err(CoreError::CatalogIdRange));
    assert_eq!(worker_id_range(i64::MIN, i64::MAX - 1, 1, 0), Ok((i64::MIN, i64::MAX - 1)));
}

#[test]
fn image_types_from_first_bytes() {
    assert_eq!(detect_image_media_type(b"\xff\xd8\xffimage123"), Some("image/jpeg"));
    assert_eq!(detect_image_media_type(b"\x89PNG\r\n\x1a\n...."), Some("image/png"));
    assert_eq!(detect_image_media_type(b"GIF89a"), Some("image/gif"));
    assert_eq!(detect_image_media_type(b"RIFF\0\0\0\0WEBPVP8 "), Some("image/webp"));
    assert_eq!(detect_image_media_type(b"RIFF\0\0\0\0WEB"), None);
    assert_eq!(detect_image_media_type(b"BMxx"), Some("image/bmp"));
    assert_eq!(detect_image_media_type(b"\0\0\0\x1cftypavis"), Some("image/avif"));
    assert_eq!(detect_image_media_type(b"\xff\xd8"), None);
    assert_eq!(detect_image_media_type(b""), None);
}

#[test]
fn the_largest_scan_number_only_matters_when_a_new_scan_starts() {
    let max = i64::MAX.to_string();
    assert_eq!(
        plan_scan(Some("/other"), "/src", Some("f1"), "f1", None, SourceKind::Directory, None, Some(&max))
            .err(),
        Some(CoreError::ForeignCatalog)
    );
    let resumed = plan_scan(
        Some("/src"),
        "/src",
        Some("f1"),
        "f1",
        Some("resumable"),
        SourceKind::Directory,
        Some("a/b"),
        Some(&max),
    )
    .unwrap();
    assert!(resumed.resume);
    assert_eq!(resumed.scan_id, i64::MAX);
    assert!(scan_would_resume(
        Some("/src"),
        Some("f1"),
        "f1",
        Some("scanning"),
        SourceKind::Directory,
        Some("a/b")
    ));
    assert!(!scan_would_resume(
        Some("/src"),
        Some("f0"),
        "f1",
        Some("scanning"),
        SourceKind::Directory,
        Some("a/b")
    ));
}
