use line_backup_native::error::CoreError;
use line_backup_native::paths::{
    account_id_from_database_path, candidate_output_name_ok, database_priority, file_name,
    is_imazing_archive, is_protected, is_removable_attachment, leading_message_id,
    normalized_relative_path, partial_path, private_store_account_from_path, quoted_identifier,
    relative_symlink_target, safe_archive_components, safe_source_join, sibling_entry_name,
    sibling_with_suffix, staging_partial_path,
};

#[test]
fn duplicate_links_climb_to_the_common_folder() {
    let store = "Library/Application Support/PrivateStore/P_u1";
    let link = format!("{store}/Message Thumbnails/c020/91000002.thumb");
    let target = format!("{store}/Message Attachments/c010/91000001.bin");
    assert_eq!(
        relative_symlink_target(&link, &target).unwrap(),
        "../../Message Attachments/c010/91000001.bin"
    );
    assert_eq!(relative_symlink_target("a/b/c.bin", "a/b/d.bin").unwrap(), "d.bin");
    assert_eq!(relative_symlink_target("x.bin", "y/z.bin").unwrap(), "y/z.bin");
}

#[test]
fn duplicate_links_refuse_unsafe_paths_and_themselves() {
    assert_eq!(
        relative_symlink_target("a/../b", "c"),
        Err(CoreError::UnsafeLinkPath("a/../b".chars().collect()))
    );
    assert_eq!(
        relative_symlink_target("a/b", "/etc/passwd"),
        Err(CoreError::UnsafeLinkPath("/etc/passwd".chars().collect()))
    );
    assert_eq!(
        relative_symlink_target("a/b", "a"),
        Err(CoreError::LinkTargetIsSelf("a/b".chars().collect()))
    );
    assert_eq!(relative_symlink_target("a/b", "a/b").unwrap(), "b");
    assert!(safe_archive_components("a\\b").is_err());
    assert_eq!(safe_archive_components("a/b").unwrap(), vec!["a".to_string(), "b".to_string()]);
}

#[test]
fn ranks_line_databases() {
    assert_eq!(database_priority("Library/PrivateStore/P_u1/Messages/Line.sqlite"), Some(0));
    assert_eq!(
        database_priority("AppGroups/group.com.linecorp.line/Messages/LINE.SQLITE"),
        Some(1)
    );
    assert_eq!(database_priority("Other/Messages/Line.sqlite"), Some(2));
    assert_eq!(database_priority("Line.sqlite"), Some(2));
    assert_eq!(database_priority("Other/Messages/Line.sqlite-wal"), None);
    assert_eq!(database_priority("Library\\PrivateStore\\P_u1\\Messages\\Line.sqlite"), Some(0));
}

#[test]
fn reads_account_ids_and_private_store_folders() {
    assert_eq!(
        account_id_from_database_path("Library/PrivateStore/P_abc/Messages/Line.sqlite"),
        Some("abc".to_string())
    );
    assert_eq!(account_id_from_database_path("Library/PrivateStore/P_/Messages/Line.sqlite"), None);
    assert_eq!(account_id_from_database_path("Messages/Line.sqlite"), None);
    assert_eq!(
        private_store_account_from_path("Lib/PrivateStore/P_abc/Message Attachments/x.jpg"),
        Some(("abc".to_string(), "Lib/PrivateStore/P_abc".to_string()))
    );
    assert_eq!(private_store_account_from_path("Lib/PrivateStore/Q_abc/x"), None);
    assert_eq!(private_store_account_from_path("Lib\\PrivateStore\\P_abc\\x"), None);
}

#[test]
fn classifies_protected_and_removable_entries() {
    assert!(is_protected(".lock"));
    assert!(is_protected("Payload/LINE.app/Info.plist"));
    assert!(is_protected("A/Messages/Line.sqlite-wal"));
    assert!(!is_protected("A/Messages/Line.sqlite.bak"));
    assert!(is_removable_attachment("A/Message Attachments/c1/1.jpg"));
    assert!(is_removable_attachment("/Message Thumbnails/c1/1.thumb/"));
    assert!(!is_removable_attachment("A/Messages/Line.sqlite"));
}

#[test]
fn names_and_message_ids() {
    assert_eq!(leading_message_id("12345678.jpg"), "12345678");
    assert_eq!(leading_message_id("1234567.jpg"), "");
    assert_eq!(file_name("a/b/photo.jpg"), "photo.jpg");
    assert_eq!(file_name("a/b/"), "未命名附件");
    assert_eq!(file_name("a\\b\\c.png"), "c.png");
    assert_eq!(sibling_entry_name("A/Messages/Line.sqlite", "LineSquare.sqlite"), "A/Messages/LineSquare.sqlite");
    assert_eq!(sibling_entry_name("Line.sqlite", "LineSquare.sqlite"), "LineSquare.sqlite");
    assert_eq!(sibling_with_suffix("a/Line.sqlite", "-wal"), "a/Line.sqlite-wal");
    assert_eq!(partial_path("out/x.imazingapp"), "out/x.imazingapp.partial");
    assert_eq!(staging_partial_path("s/Line.sqlite"), "s/Line.sqlite.part");
    assert_eq!(quoted_identifier("a\"b"), "\"a\"\"b\"");
}

#[test]
fn archive_names_and_joins() {
    assert!(is_imazing_archive("backups/LINE.IMAZINGAPP"));
    assert!(!is_imazing_archive("backups/.imazingapp"));
    assert!(!is_imazing_archive("backups/LINE.zip"));
    assert!(candidate_output_name_ok("LINE-slim.imazingapp"));
    assert!(candidate_output_name_ok("x.IMAZINGAPP.candidate"));
    assert!(!candidate_output_name_ok("x.zip"));
    assert_eq!(safe_source_join("/src", "a/b.jpg").unwrap(), "/src/a/b.jpg");
    assert_eq!(safe_source_join("/src/", "a").unwrap(), "/src/a");
    assert_eq!(
        safe_source_join("/src", "../etc"),
        Err(CoreError::UnsafeSourcePath("../etc".chars().collect()))
    );
    assert_eq!(normalized_relative_path("a\\b/c").unwrap(), "a/b/c");
    assert!(normalized_relative_path("a//b").is_err());
    assert!(normalized_relative_path("").is_err());
}
