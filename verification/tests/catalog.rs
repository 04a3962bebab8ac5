use line_backup_native::catalog::{recovery_plan, InterruptedWork, RecoveryPlan};
use line_backup_native::catalog::{
    apply_group_change, group_counts, thumbnail_pairs, CleanupFileFacts,
};
use line_backup_native::model::AttachmentKind::{Original, Thumbnail};
use line_backup_native::catalog::{duplicate_link_groups, DuplicateLinkMember};
use line_backup_native::catalog::{
    attachment_page, duplicate_cursor, duplicate_cursor_bounds, duplicate_group_page,
    duplicate_member_page,
};
use line_backup_native::model::{AttachmentCursor, DuplicateGroup, DuplicateGroupCursor};
use line_backup_native::catalog::{
    context_message_ids, match_attachment_context, record_reference, ReferenceStatus,
};
use line_backup_native::catalog::CatalogContextProgress;
use line_backup_native::catalog::{cleanup_audit_limit, cleanup_plan_previews, PreviewCounts};
use line_backup_native::catalog::{assemble_cleanup_reviews, MAX_REVIEW_FILES};
use line_backup_native::model::{AttachmentContext, AttachmentItem};
use line_backup_native::catalog::{
    check_old_account_request, old_account_removal, OldAccountRemoval,
};
use line_backup_native::catalog::{
    chat_removal_activity, check_chat_removal, check_community_request, cleanup_group_action,
    community_plan_counts, group_plan_change, CommunityPlanCounts, GroupAction, GroupCounts,
    GroupPlanChange,
};
use line_backup_native::catalog::{
    automatic_cleanup_step, AutomaticCleanupStep, AutomaticRemovalReason, OrphanMessage,
};
use line_backup_native::catalog::{
    cleanup_offset, cleanup_search_pattern, cleanup_total_pages, community_cleanup_paths,
    community_cleanup_summary, escape_like, file_record, old_account_summary, update_progress,
    validate_bulk_reason, validate_cleanup_group_key, validate_cleanup_query, validate_sha256,
    CatalogScanProgress, DatabaseCleanupPlan, PlannedChat,
};
use line_backup_native::error::CoreError;
use line_backup_native::model::AttachmentKind;

#[test]
fn records_attachment_kind_message_id_and_chat_hint() {
    let record = file_record(
        "Lib\\Message Attachments\\c1\\12345678.jpg".to_string(),
        42,
        7,
        "ab".to_string(),
    );
    assert_eq!(record.path, "Lib/Message Attachments/c1/12345678.jpg");
    assert_eq!(record.kind, Some(AttachmentKind::Original));
    assert_eq!(record.message_id, "12345678");
    assert_eq!(record.chat_hint, "c1");
    let thumb = file_record("Message Thumbnails/99.thumb".to_string(), 1, 0, String::new());
    assert_eq!(thumb.kind, Some(AttachmentKind::Thumbnail));
    assert_eq!(thumb.chat_hint, "");
    assert_eq!(thumb.message_id, "");
    let other = file_record("Messages/Line.sqlite".to_string(), 1, 0, String::new());
    assert_eq!(other.kind, None);
}

#[test]
fn progress_counts_files_bytes_and_attachments() {
    let mut progress = CatalogScanProgress { files: 0, bytes: u64::MAX - 1, attachments: 0 };
    let record = file_record("Message Attachments/c/1.jpg".to_string(), 5, 0, String::new());
    update_progress(&mut progress, &record);
    assert_eq!(progress.files, 1);
    assert_eq!(progress.bytes, u64::MAX);
    assert_eq!(progress.attachments, 1);
}

#[test]
fn cleanup_queries_are_checked_in_order() {
    assert_eq!(validate_cleanup_query(0, 0, "x", "x", "x"), Err(CoreError::CleanupPageZero));
    assert_eq!(validate_cleanup_query(1, 1001, "x", "x", "x"), Err(CoreError::PageSize));
    assert_eq!(validate_cleanup_query(1, 24, "x", "x", "x"), Err(CoreError::CleanupKind));
    assert_eq!(validate_cleanup_query(1, 24, "all", "x", "x"), Err(CoreError::CleanupCategory));
    assert_eq!(validate_cleanup_query(1, 24, "all", "group", "x"), Err(CoreError::CleanupSort));
    assert_eq!(validate_cleanup_query(1, 24, "marked", "unconfirmed", "path"), Ok(()));
    assert_eq!(validate_cleanup_group_key(""), Err(CoreError::CleanupGroupKey));
    assert_eq!(validate_cleanup_group_key(&"k".repeat(1025)), Err(CoreError::CleanupGroupKey));
    assert_eq!(validate_cleanup_group_key("chat:line:7"), Ok(()));
    assert_eq!(validate_bulk_reason("old_account"), Ok(()));
    assert_eq!(validate_bulk_reason("other"), Err(CoreError::BulkReason));
    assert_eq!(validate_sha256(&"a".repeat(64)), Ok(()));
    assert_eq!(validate_sha256(&"g".repeat(64)), Err(CoreError::Sha256Format));
    assert_eq!(validate_sha256("abc"), Err(CoreError::Sha256Format));
}

#[test]
fn pages_offsets_and_counts() {
    assert_eq!(cleanup_offset(1, 24), Ok(0));
    assert_eq!(cleanup_offset(3, 24), Ok(48));
    assert_eq!(cleanup_offset(u32::MAX, 1000), Ok((u32::MAX as i64 - 1) * 1000));
    assert_eq!(cleanup_total_pages(0, 24), 1);
    assert_eq!(cleanup_total_pages(24, 24), 1);
    assert_eq!(cleanup_total_pages(25, 24), 2);
    assert_eq!(cleanup_total_pages(u64::MAX, 1), u64::MAX);
}

#[test]
fn search_patterns_escape_like_wildcards() {
    assert_eq!(escape_like("50%_a\\b"), "50\\%\\_a\\\\b");
    assert_eq!(cleanup_search_pattern(Some("  ph%to ")), Some("%ph\\%to%".to_string()));
    assert_eq!(cleanup_search_pattern(Some("   ")), None);
    assert_eq!(cleanup_search_pattern(None), None);
}

#[test]
fn old_accounts_are_summarised_once_the_current_one_is_seen() {
    let rows = vec![
        ("Lib/PrivateStore/P_me/Message Attachments/a.jpg".to_string(), 10),
        ("Lib/PrivateStore/P_old/Message Attachments/b.jpg".to_string(), 20),
        ("Lib/PrivateStore/P_old/Message Attachments/c.jpg".to_string(), -5),
        ("Lib/PrivateStore/P_older/x.bin".to_string(), 1),
        ("Other/readme.txt".to_string(), 100),
    ];
    let summary = old_account_summary(&rows, Some("me"));
    assert!(summary.current_account_found);
    assert_eq!(summary.account_folders, 3);
    assert_eq!(summary.old_account_folders, 2);
    assert_eq!(summary.old_account_files, 3);
    assert_eq!(summary.old_account_bytes, 21);
    let missing = old_account_summary(&rows, Some("nobody"));
    assert!(!missing.current_account_found);
    assert_eq!(missing.old_account_folders, 0);
    assert_eq!(missing.old_account_files, 4);
    let unknown = old_account_summary(&rows, None);
    assert_eq!(unknown.old_account_files, 0);
    assert_eq!(unknown.account_folders, 3);
}

#[test]
fn community_paths_keep_the_last_size_of_each_path_in_path_order() {
    let rows = vec![
        ("b.jpg".to_string(), 5),
        ("a.jpg".to_string(), -3),
        ("b.jpg".to_string(), 7),
        ("Messages/LineSquare.sqlite".to_string(), 100),
    ];
    let paths = community_cleanup_paths(&rows);
    assert_eq!(
        paths,
        vec![
            ("Messages/LineSquare.sqlite".to_string(), 100),
            ("a.jpg".to_string(), 0),
            ("b.jpg".to_string(), 7),
        ]
    );
    let summary = community_cleanup_summary(&paths);
    assert_eq!(summary.files, 3);
    assert_eq!(summary.bytes, 107);
    let full = community_cleanup_summary(&vec![("a".to_string(), u64::MAX), ("b".to_string(), 1)]);
    assert_eq!(full.bytes, u64::MAX);
}

#[test]
fn an_empty_database_plan_removes_nothing() {
    let empty = DatabaseCleanupPlan { chats: Vec::new(), orphan_messages: Vec::new() };
    assert!(empty.is_empty());
    let plan = DatabaseCleanupPlan {
        chats: vec![PlannedChat { source: "line".to_string(), chat_pk: 7, message_count: 3 }],
        orphan_messages: Vec::new(),
    };
    assert!(!plan.is_empty());
}

fn cleanup_chat(pk: i64, source: &str, message_count: i64) -> line_backup_native::model::Chat {
    line_backup_native::model::Chat {
        pk,
        source: source.to_string(),
        id: format!("c{pk}"),
        chat_type: 0,
        kind: "group".to_string(),
        title: String::new(),
        title_source: "id".to_string(),
        message_count,
        human_message_count: 0,
        last_updated: 0,
        last_message: String::new(),
        planned_for_removal: false,
    }
}

#[test]
fn automatic_cleanup_plans_every_chat_with_its_reason_and_counts_all_items() {
    let chats = vec![cleanup_chat(1, "line", 0), cleanup_chat(2, "square", 4)];
    let orphans = vec![OrphanMessage { pk: 9, id: "m9".to_string(), chat_pk: None }];
    assert_eq!(
        automatic_cleanup_step(false, false, &chats, &orphans),
        AutomaticCleanupStep::Plan {
            chats: vec![(0, AutomaticRemovalReason::Empty), (1, AutomaticRemovalReason::SystemOnly)],
            plan_orphans: true,
            recorded_items: 3,
        }
    );
    assert_eq!(AutomaticRemovalReason::SystemOnly.as_str(), "system_only");
}

#[test]
fn automatic_cleanup_leaves_community_to_a_standing_community_plan_and_withdraws_on_repeat() {
    let chats = vec![cleanup_chat(1, "line", 2), cleanup_chat(2, "square", 0)];
    let orphans: Vec<OrphanMessage> = Vec::new();
    assert_eq!(
        automatic_cleanup_step(false, true, &chats, &orphans),
        AutomaticCleanupStep::Plan {
            chats: vec![(0, AutomaticRemovalReason::SystemOnly)],
            plan_orphans: false,
            recorded_items: 2,
        }
    );
    assert_eq!(automatic_cleanup_step(true, false, &chats, &orphans), AutomaticCleanupStep::Withdraw);
}

#[test]
fn attachment_kind_names_parse_through_from_str() {
    let kind: Result<AttachmentKind, CoreError> = "thumbnail".parse();
    assert_eq!(kind, Ok(AttachmentKind::Thumbnail));
    let refused: Result<AttachmentKind, CoreError> = "preview".parse();
    assert_eq!(refused, Err(CoreError::AttachmentKindName));
}

#[test]
fn overview_totals_fold_unknown_categories_into_unconfirmed_and_count_all() {
    let rows = vec![
        ("group".to_string(), 2, 100),
        ("mystery".to_string(), 1, 7),
        ("all".to_string(), 3, 30),
        ("individual".to_string(), -4, -1),
        ("group".to_string(), 1, 5),
    ];
    let totals = line_backup_native::catalog::cleanup_category_totals(&rows);
    let view: Vec<(String, u64, u64)> =
        totals.iter().map(|t| (t.category.clone(), t.file_count, t.bytes)).collect();
    assert_eq!(
        view,
        vec![
            ("all".to_string(), 7, 142),
            ("individual".to_string(), 0, 0),
            ("group".to_string(), 3, 105),
            ("community".to_string(), 0, 0),
            ("unreferenced".to_string(), 0, 0),
            ("unconfirmed".to_string(), 4, 37),
        ]
    );
    let files: u64 = view[1..].iter().map(|t| t.1).sum();
    let bytes: u64 = view[1..].iter().map(|t| t.2).sum();
    assert_eq!((view[0].1, view[0].2), (files, bytes));
}

#[test]
fn chat_removal_requests_are_checked_in_order() {
    assert_eq!(check_chat_removal("line", "selected", true, true), Ok(()));
    assert_eq!(check_chat_removal("mail", "selected", true, false), Err(CoreError::ChatSource));
    assert_eq!(check_chat_removal("line", "other", true, false), Err(CoreError::ChatRemovalReason));
    assert_eq!(
        check_chat_removal("square", "empty", true, true),
        Err(CoreError::CommunityAlreadyPlanned)
    );
    assert_eq!(check_chat_removal("square", "system_only", false, true), Ok(()));
    assert_eq!(
        chat_removal_activity(true, "square", -3),
        ("plan_chat_removal", "square:-3".to_string())
    );
    assert_eq!(chat_removal_activity(false, "line", 12).0, "clear_chat_removal");
}

#[test]
fn community_requests_need_a_square_entry_and_community_chats() {
    let entry = "Library/P_u1/Messages/LineSquare.sqlite";
    let square = vec![cleanup_chat(1, "square", 3)];
    assert_eq!(check_community_request(&square, entry), Ok(()));
    assert_eq!(
        check_community_request(&square, "/abs/Messages/LineSquare.sqlite"),
        Err(CoreError::SquareSourcePath)
    );
    assert_eq!(
        check_community_request(&square, "Lib\\Messages/LineSquare.sqlite"),
        Err(CoreError::SquareSourcePath)
    );
    assert_eq!(
        check_community_request(&vec![cleanup_chat(2, "line", 1)], entry),
        Err(CoreError::NonCommunityChat)
    );
    let paths = vec![(entry.to_string(), 10u64), ("a.jpg".to_string(), 5u64)];
    assert_eq!(
        community_plan_counts(&paths, entry, true, 2, 9),
        Ok(CommunityPlanCounts { chat_count: 2, message_count: 9, recorded_files: 2, recorded_bytes: 15 })
    );
    assert_eq!(
        community_plan_counts(&paths, entry, false, 2, 9),
        Ok(CommunityPlanCounts { chat_count: 2, message_count: 9, recorded_files: 0, recorded_bytes: 0 })
    );
    assert_eq!(
        community_plan_counts(&vec![("a.jpg".to_string(), 5u64)], entry, true, 2, 9),
        Err(CoreError::SquareDatabaseNotCataloged)
    );
    assert_eq!(
        community_plan_counts(&paths, entry, true, 2, u64::MAX),
        Err(CoreError::TooManyCommunityMessages)
    );
}

#[test]
fn cleanup_group_actions_toggle_and_keep_thumbnails() {
    assert_eq!(cleanup_group_action("chat:1", "toggle_all"), Ok(GroupAction::ToggleAll));
    assert_eq!(cleanup_group_action("", "toggle_all"), Err(CoreError::CleanupGroupKey));
    assert_eq!(cleanup_group_action("chat:1", "delete"), Err(CoreError::CleanupGroupAction));
    let counts = GroupCounts {
        total: 4,
        marked: 4,
        thumbnail_backed_images: 2,
        marked_thumbnail_backed_images: 2,
        image_thumbnails: 0,
        marked_image_thumbnails: 2,
    };
    assert_eq!(group_plan_change(GroupAction::ToggleAll, counts), Ok(GroupPlanChange::UnmarkAll));
    assert_eq!(
        group_plan_change(GroupAction::ToggleAll, GroupCounts { marked: 1, ..counts }),
        Ok(GroupPlanChange::MarkAll)
    );
    let counts = GroupCounts { marked: 2, image_thumbnails: 2, marked_image_thumbnails: 0, ..counts };
    assert_eq!(
        group_plan_change(GroupAction::ToggleAll, counts),
        Ok(GroupPlanChange::UnmarkAllButKeptOriginals)
    );
    assert_eq!(
        group_plan_change(GroupAction::ToggleAll, GroupCounts { total: 5, ..counts }),
        Ok(GroupPlanChange::MarkAllButKeptThumbnails)
    );
    assert_eq!(
        group_plan_change(GroupAction::KeepThumbnail, counts),
        Ok(GroupPlanChange::RestoreOriginals)
    );
    assert_eq!(
        group_plan_change(GroupAction::KeepThumbnail, GroupCounts { marked_image_thumbnails: 1, ..counts }),
        Ok(GroupPlanChange::KeepThumbnails)
    );
    assert_eq!(
        group_plan_change(GroupAction::KeepThumbnail, GroupCounts { thumbnail_backed_images: 0, ..counts }),
        Err(CoreError::NoThumbnailBackedImages)
    );
    assert_eq!(
        group_plan_change(GroupAction::ToggleAll, GroupCounts { total: 0, ..counts }),
        Err(CoreError::CleanupGroupMissing)
    );
}

#[test]
fn old_account_cleanup_picks_files_and_folders_of_other_accounts() {
    let paths = vec![
        "Library/PrivateStore/P_old/Message Attachments/a.jpg".to_string(),
        "Library/PrivateStore/P_now/Message Attachments/b.jpg".to_string(),
        "Library/PrivateStore/P_old/Message Thumbnails/a.jpg".to_string(),
        "Library/PrivateStore/P_older/x.bin".to_string(),
        "Documents/loose.txt".to_string(),
    ];
    assert_eq!(
        old_account_removal(&paths, "now"),
        OldAccountRemoval {
            files: vec![paths[0].clone(), paths[2].clone(), paths[3].clone()],
            prefixes: vec![
                "Library/PrivateStore/P_old".to_string(),
                "Library/PrivateStore/P_older".to_string(),
            ],
        }
    );
    assert_eq!(check_old_account_request(None, true), Err(CoreError::CurrentAccountUnknown));
    assert_eq!(check_old_account_request(Some("now"), false), Err(CoreError::CurrentAccountMissing));
    assert_eq!(check_old_account_request(Some("now"), true), Ok(()));
}

fn review_file(id: i64, message_id: &str, with_context: bool) -> AttachmentItem {
    AttachmentItem {
        id,
        path: format!("Lib/Message Attachments/c/{message_id}-{id}.jpg"),
        bytes: 10,
        modified_ns: 0,
        kind: AttachmentKind::Original,
        message_id: message_id.to_string(),
        chat_hint: "c".to_string(),
        marked_for_removal: false,
        removal_reason: String::new(),
        reference_status: "referenced".to_string(),
        context: if with_context {
            Some(AttachmentContext {
                source: "line".to_string(),
                message_pk: id,
                chat_pk: 1,
                chat_id: "c".to_string(),
                chat_title: "Chat".to_string(),
                chat_kind: "group".to_string(),
                timestamp: 5,
                sender_pk: None,
                sender_name: "Ann".to_string(),
                content_type: Some(1),
                text: "hi".to_string(),
            })
        } else {
            None
        },
    }
}

#[test]
fn cleanup_reviews_group_files_by_bundle_in_page_order() {
    let bundles = vec![
        ("message:2".to_string(), 30u64),
        ("message:1".to_string(), 20u64),
        ("file:x".to_string(), 9u64),
        ("message:2".to_string(), 31u64),
    ];
    let files = vec![
        ("message:1".to_string(), review_file(1, "1", true)),
        ("message:2".to_string(), review_file(2, "2", false)),
        ("message:2".to_string(), review_file(3, "2", true)),
        ("message:9".to_string(), review_file(4, "9", false)),
    ];
    let reviews = assemble_cleanup_reviews(&bundles, files).unwrap();
    assert_eq!(reviews.len(), 2);
    assert_eq!(reviews[0].key, "message:2");
    assert_eq!(reviews[0].files.iter().map(|f| f.id).collect::<Vec<_>>(), vec![2, 3]);
    assert_eq!(reviews[0].total_bytes, 31);
    assert_eq!(reviews[0].context, None);
    assert_eq!(reviews[1].key, "message:1");
    assert_eq!(reviews[1].message_id, "1");
    assert_eq!(reviews[1].total_bytes, 20);
    assert_eq!(reviews[1].context.as_ref().map(|c| c.sender_name.as_str()), Some("Ann"));
}

#[test]
fn cleanup_reviews_refuse_more_files_than_a_response_carries() {
    let files: Vec<(String, AttachmentItem)> = (0..=MAX_REVIEW_FILES as i64)
        .map(|i| ("message:1".to_string(), review_file(i, "1", false)))
        .collect();
    assert_eq!(
        assemble_cleanup_reviews(&vec![("message:1".to_string(), 1u64)], files),
        Err(CoreError::ReviewTooLarge)
    );
}

#[test]
fn plan_previews_widen_the_review_from_conservative_to_aggressive() {
    let previews = cleanup_plan_previews(PreviewCounts {
        automatic_file_count: 3,
        automatic_bytes: 300,
        unreferenced_file_count: 4,
        unreferenced_bytes: 40,
        unconfirmed_file_count: -1,
        unconfirmed_bytes: 9,
        planned_chat_count: 2,
        planned_chat_messages: i64::MAX,
        planned_orphan_messages: 5,
    });
    let profiles: Vec<&str> = previews.iter().map(|p| p.profile.as_str()).collect();
    assert_eq!(profiles, vec!["conservative", "balanced", "aggressive"]);
    assert_eq!((previews[0].review_file_count, previews[0].review_bytes), (0, 0));
    assert_eq!((previews[1].review_file_count, previews[1].review_bytes), (4, 40));
    assert_eq!((previews[2].review_file_count, previews[2].review_bytes), (4, 49));
    assert_eq!(previews[2].automatic_bytes, 300);
    assert_eq!(previews[1].planned_message_count, i64::MAX as u64);
    assert_eq!(previews[2].warnings.len(), 2);
    assert_eq!(cleanup_audit_limit(0), 1);
    assert_eq!(cleanup_audit_limit(500), 100);
    assert_eq!(cleanup_audit_limit(20), 20);
}

fn context_in(chat_id: &str, message_pk: i64) -> AttachmentContext {
    let mut c = review_file(message_pk, "m", true).context.unwrap();
    c.chat_id = chat_id.to_string();
    c
}

#[test]
fn attachment_files_match_the_one_message_of_their_chat_folder() {
    let candidates = vec![context_in("Cabc", 1), context_in("cXYZ", 2)];
    assert_eq!(
        match_attachment_context("m1", "cxyz", &candidates),
        (Some(1), ReferenceStatus::Referenced)
    );
    let twice = vec![context_in("c1", 1), context_in("C1", 2)];
    assert_eq!(match_attachment_context("m1", "c1", &twice), (None, ReferenceStatus::Unconfirmed));
    assert_eq!(
        match_attachment_context("m1", "other", &candidates),
        (None, ReferenceStatus::Unconfirmed)
    );
    assert_eq!(
        match_attachment_context("m1", "c1", &Vec::new()),
        (None, ReferenceStatus::Unreferenced)
    );
    assert_eq!(match_attachment_context("", "c1", &Vec::new()), (None, ReferenceStatus::Unconfirmed));
    assert_eq!(ReferenceStatus::Unreferenced.as_str(), "unreferenced");
    let mut progress = CatalogContextProgress {
        processed_files: 0,
        total_files: 3,
        referenced_files: 0,
        unreferenced_files: 0,
        unconfirmed_files: 0,
    };
    record_reference(&mut progress, ReferenceStatus::Referenced);
    record_reference(&mut progress, ReferenceStatus::Unconfirmed);
    assert_eq!(
        (progress.processed_files, progress.referenced_files, progress.unconfirmed_files),
        (2, 1, 1)
    );
}

#[test]
fn context_batches_ask_for_each_message_id_once_in_order() {
    let ids = vec!["b".to_string(), String::new(), "a".to_string(), "b".to_string()];
    assert_eq!(context_message_ids(&ids), vec!["a".to_string(), "b".to_string()]);
}

#[test]
fn attachment_pages_continue_after_their_last_file_only_when_more_came() {
    let rows = vec![review_file(4, "a", false), review_file(7, "b", false), review_file(9, "c", false)];
    let page = attachment_page(rows.clone(), 2);
    assert_eq!(page.items.iter().map(|f| f.id).collect::<Vec<_>>(), vec![4, 7]);
    assert_eq!(page.next_cursor, Some(AttachmentCursor { id: 7 }));
    let last = attachment_page(rows.clone(), 3);
    assert_eq!(last.items.len(), 3);
    assert_eq!(last.next_cursor, None);
    let members = duplicate_member_page(rows, 1);
    assert_eq!(members.next_cursor, Some(AttachmentCursor { id: 4 }));
}

#[test]
fn duplicate_group_pages_and_cursors() {
    let group = |sha: &str, reclaimable: u64| DuplicateGroup {
        sha256: sha.to_string(),
        bytes: 10,
        file_count: 2,
        reclaimable_bytes: reclaimable,
        has_original: true,
        has_thumbnail: false,
        preview_path: None,
    };
    let page = duplicate_group_page(vec![group("aa", 50), group("bb", 40)], 1);
    assert_eq!(page.items.len(), 1);
    assert_eq!(
        page.next_cursor,
        Some(DuplicateGroupCursor { reclaimable_bytes: 50, sha256: "aa".to_string() })
    );
    assert_eq!(duplicate_group_page(vec![group("aa", 50)], 1).next_cursor, None);
    assert_eq!(duplicate_cursor(None, None), Ok(None));
    assert_eq!(
        duplicate_cursor(Some(5), Some("ab".to_string())),
        Ok(Some(DuplicateGroupCursor { reclaimable_bytes: 5, sha256: "ab".to_string() }))
    );
    assert_eq!(duplicate_cursor(Some(5), None), Err(CoreError::DuplicateHalfCursor));
    assert_eq!(duplicate_cursor_bounds(&None), (i64::MAX, String::new()));
    assert_eq!(
        duplicate_cursor_bounds(&Some(DuplicateGroupCursor { reclaimable_bytes: u64::MAX, sha256: "x".to_string() })),
        (i64::MAX, "x".to_string())
    );
}

fn link_row(sha: &str, bytes: u64, path: &str) -> (String, u64, DuplicateLinkMember) {
    (sha.to_string(), bytes, DuplicateLinkMember { path: path.to_string(), bytes })
}

#[test]
fn duplicate_link_groups_split_runs_and_drop_excluded_files() {
    let rows = vec![
        link_row("aa", 10, "a/1"),
        link_row("aa", 10, "a/2"),
        link_row("aa", 10, "a/3"),
        link_row("aa", 20, "b/1"),
        link_row("bb", 20, "c/1"),
        link_row("bb", 20, "c/2"),
        link_row("cc", 5, "d/1"),
        link_row("cc", 5, "d/2"),
    ];
    let excluded = vec!["a/2".to_string(), "c/2".to_string()];
    let groups = duplicate_link_groups(&rows, &excluded);
    assert_eq!(groups.len(), 2);
    let paths: Vec<Vec<String>> = groups
        .iter()
        .map(|g| g.iter().map(|m| m.path.clone()).collect())
        .collect();
    assert_eq!(paths[0], vec!["a/1".to_string(), "a/3".to_string()]);
    assert_eq!(paths[1], vec!["d/1".to_string(), "d/2".to_string()]);
    assert_eq!(groups[1][0].bytes, 5);
}

#[test]
fn duplicate_link_groups_of_no_rows_is_empty() {
    assert!(duplicate_link_groups(&Vec::new(), &Vec::new()).is_empty());
}

fn facts(kind: AttachmentKind, status: &str, ct: Option<i64>, id: Option<&str>, bytes: i64) -> CleanupFileFacts {
    CleanupFileFacts {
        kind,
        reference_status: status.to_string(),
        content_type: ct,
        message_id: id.map(|v| v.to_string()),
        chat_hint: Some("c1".to_string()),
        bytes,
    }
}

#[test]
fn only_pictures_with_a_nonempty_thumbnail_count_as_thumbnail_backed() {
    let files = vec![
        facts(Original, "referenced", Some(1), Some("m1"), 100),
        facts(Thumbnail, "referenced", Some(1), Some("m1"), 10),
        facts(Original, "referenced", Some(1), Some("m2"), 100),
        facts(Thumbnail, "referenced", Some(1), Some("m2"), 0),
        facts(Original, "referenced", Some(14), Some("m3"), 100),
        facts(Thumbnail, "referenced", Some(14), Some("m3"), 10),
        facts(Original, "unconfirmed", Some(112), Some("m4"), 100),
        facts(Thumbnail, "referenced", Some(112), Some("m4"), 10),
        facts(Original, "referenced", Some(16), Some(""), 100),
        facts(Thumbnail, "referenced", Some(16), Some(""), 10),
    ];
    let (backed, kept) = thumbnail_pairs(&files);
    assert_eq!(backed, vec![true, false, false, false, false, false, false, false, false, false]);
    assert_eq!(kept, vec![false, true, false, false, false, false, false, false, false, false]);
}

#[test]
fn keeping_thumbnails_takes_precedence_over_planning_the_whole_group() {
    let files = vec![
        facts(Original, "referenced", Some(1), Some("12345678"), 100),
        facts(Thumbnail, "referenced", Some(1), Some("12345678"), 10),
    ];
    let act = |marked: &Vec<bool>, action: GroupAction| -> Vec<bool> {
        let change = group_plan_change(action, group_counts(&files, marked)).unwrap();
        apply_group_change(change, &files, marked)
    };
    let count = |marked: &Vec<bool>| marked.iter().filter(|m| **m).count();
    let none = vec![false, false];
    let kept = act(&none, GroupAction::KeepThumbnail);
    assert_eq!(kept, vec![true, false]);
    assert_eq!(count(&act(&kept, GroupAction::KeepThumbnail)), 0);
    let toggled = act(&kept, GroupAction::ToggleAll);
    assert_eq!(count(&toggled), 1);
    assert_eq!(count(&act(&toggled, GroupAction::ToggleAll)), 1);
    let all = act(&none, GroupAction::ToggleAll);
    assert_eq!(count(&all), 2);
    let kept_after_all = act(&all, GroupAction::KeepThumbnail);
    assert_eq!(kept_after_all, vec![true, false]);
    let mixed = vec![
        facts(Original, "referenced", Some(1), Some("1"), 100),
        facts(Thumbnail, "referenced", Some(1), Some("1"), 10),
        facts(Original, "referenced", Some(14), Some("2"), 100),
    ];
    let kept = {
        let change = group_plan_change(GroupAction::KeepThumbnail, group_counts(&mixed, &vec![false; 3])).unwrap();
        apply_group_change(change, &mixed, &vec![false; 3])
    };
    let change = group_plan_change(GroupAction::ToggleAll, group_counts(&mixed, &kept)).unwrap();
    let planned = apply_group_change(change, &mixed, &kept);
    assert_eq!(planned, vec![true, false, true]);
    let change = group_plan_change(GroupAction::ToggleAll, group_counts(&mixed, &planned)).unwrap();
    assert_eq!(apply_group_change(change, &mixed, &planned), vec![true, false, false]);
}

#[test]
fn interrupted_work_resumes_only_on_an_unchanged_source() {
    assert_eq!(
        recovery_plan(Some("scanning"), Some("indexing"), Some("running"), true),
        RecoveryPlan {
            scan: Some(InterruptedWork::Resume),
            reset_contexts: true,
            hash: Some(InterruptedWork::Resume),
            clear_plans: true,
        }
    );
    assert_eq!(
        recovery_plan(Some("scanning"), Some("complete"), Some("running"), false),
        RecoveryPlan {
            scan: Some(InterruptedWork::Restart),
            reset_contexts: false,
            hash: Some(InterruptedWork::Restart),
            clear_plans: true,
        }
    );
    assert_eq!(
        recovery_plan(Some("complete"), None, Some("complete"), false),
        RecoveryPlan { scan: None, reset_contexts: false, hash: None, clear_plans: false }
    );
    assert_eq!(
        recovery_plan(Some("resumable"), Some("complete"), Some("resumable"), true).clear_plans,
        false
    );
}
