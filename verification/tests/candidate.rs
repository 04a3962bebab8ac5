use line_backup_native::candidate::{
    archive_warnings, candidate_report, catalog_directory_work, check_candidate_entries,
    check_removals_found, entry_action, insert_database_rewrite, line_square_rebuild_required,
    partition_cleanup_plan, plan_duplicate_symlinks, protected_entries_to_verify,
    require_backup_source, require_main_database, square_rebuild_warning, survey_archive,
    uses_zip64, validate_output, validate_removal_plan, ArchiveEntryInfo, BuildTally,
    CandidateEntryInfo, CandidateOutcome, DatabaseRewrites, DuplicateSymlinkPlan, EntryAction,
};
use line_backup_native::catalog::{
    DatabaseCleanupPlan, DuplicateLinkMember, PlannedChat, PlannedMessage,
};
use line_backup_native::catalog::duplicate_link_groups;
use line_backup_native::error::CoreError;
use line_backup_native::source::SourceKind;

fn s(v: &str) -> String {
    v.to_string()
}

fn chars(v: &str) -> Vec<char> {
    v.chars().collect()
}

fn sample_rewrites() -> DatabaseRewrites {
    let mut rewrites = DatabaseRewrites::new();
    insert_database_rewrite(&mut rewrites, s("A/Messages/Line.sqlite"), s("/w/Line.cleaned.sqlite"), s("h1"), 2, 10);
    insert_database_rewrite(&mut rewrites, s("A/Messages/LineSquare.sqlite"), s("/w/Sq.sqlite"), s("h2"), 1, 4);
    rewrites
}

#[test]
fn rebuild_consent_is_recognised() {
    assert!(line_square_rebuild_required(&CoreError::LineSquareRebuildRequired));
    assert!(!line_square_rebuild_required(&CoreError::Cancelled));
}

#[test]
fn rewrites_replace_earlier_ones_and_mark_sidecars_stale() {
    let mut rewrites = sample_rewrites();
    insert_database_rewrite(&mut rewrites, s("A/Messages/Line.sqlite"), s("/w/again.sqlite"), s("h3"), 5, 6);
    assert_eq!(rewrites.entries.len(), 2);
    assert_eq!(rewrites.entries[0].sha256, "h3");
    assert_eq!(rewrites.removed_chats(), 6);
    assert_eq!(rewrites.removed_messages(), 10);
    assert_eq!(
        rewrites.rewritten_names(),
        vec![s("A/Messages/Line.sqlite"), s("A/Messages/LineSquare.sqlite")]
    );
    assert_eq!(rewrites.skipped_sidecars.len(), 4);
    assert!(rewrites.skipped_sidecars.contains(&s("A/Messages/LineSquare.sqlite-shm")));
    let hashes = rewrites.hashes();
    assert_eq!(hashes[1], (s("A/Messages/LineSquare.sqlite"), s("h2")));
}

#[test]
fn duplicate_groups_link_every_later_member_to_the_first() {
    let groups = vec![vec![
        DuplicateLinkMember { path: s("S/Message Attachments/c002/90000002.bin"), bytes: 9 },
        DuplicateLinkMember { path: s("S/Message Attachments/c001/90000001.bin"), bytes: 9 },
        DuplicateLinkMember { path: s("S/Message Thumbnails/c003/90000003.thumb"), bytes: 9 },
    ]];
    let plan = plan_duplicate_symlinks(&groups).unwrap();
    assert_eq!(plan.linked_entries(), 2);
    assert_eq!(plan.linked_bytes(), 18);
    assert_eq!(plan.links[0].path, "S/Message Attachments/c001/90000001.bin");
    assert_eq!(plan.links[0].relative_target, "../c002/90000002.bin");
    assert_eq!(plan.links[1].relative_target, "../../Message Attachments/c002/90000002.bin");
    let bad = vec![vec![
        DuplicateLinkMember { path: s("a/b"), bytes: 1 },
        DuplicateLinkMember { path: s("a/../c"), bytes: 1 },
    ]];
    assert_eq!(
        plan_duplicate_symlinks(&bad).err(),
        Some(CoreError::UnsafeLinkPath(chars("a/../c")))
    );
}

#[test]
fn cleanup_plans_split_by_database() {
    let plan = DatabaseCleanupPlan {
        chats: vec![
            PlannedChat { source: s("line"), chat_pk: 7, message_count: 3 },
            PlannedChat { source: s("square"), chat_pk: 9, message_count: -1 },
            PlannedChat { source: s("square"), chat_pk: 10, message_count: 5 },
        ],
        orphan_messages: vec![PlannedMessage { source: s("square"), message_pk: 14 }],
    };
    let parts = partition_cleanup_plan(&plan).unwrap();
    assert_eq!(parts.line_chats, vec![7]);
    assert_eq!(parts.square_chats, vec![9, 10]);
    assert_eq!(parts.square_orphans, vec![14]);
    assert_eq!(parts.square_planned_messages, 6);
    let bad = DatabaseCleanupPlan {
        chats: Vec::new(),
        orphan_messages: vec![PlannedMessage { source: s("line"), message_pk: 1 }],
    };
    assert_eq!(partition_cleanup_plan(&bad).err(), Some(CoreError::UnsupportedPlanSource));
}

#[test]
fn rebuild_warning_names_what_was_lost() {
    let base = "LineSquare.sqlite 完整性檢查失敗；候選檔已改用空白社群資料庫，所有可讀取的社群聊天室與訊息均未保留，原始備份未被修改。";
    assert_eq!(square_rebuild_warning(false, 0), base);
    assert_eq!(square_rebuild_warning(false, 12), format!("{base} 有 12 個非必要 schema 物件無法重建。"));
    assert_eq!(
        square_rebuild_warning(true, 3),
        format!("{base} 原始 schema 無法完整讀取，已補建最低限度的 ZCHAT／ZMESSAGE 結構。")
    );
}

#[test]
fn removal_plans_may_only_name_attachments() {
    assert_eq!(validate_removal_plan(&vec![s("A/Message Attachments/c/1.jpg")]), Ok(()));
    assert_eq!(
        validate_removal_plan(&vec![s("A/Message Attachments/c/1.jpg"), s("A/Messages/Line.sqlite")]),
        Err(CoreError::ProtectedRemoval(chars("A/Messages/Line.sqlite")))
    );
}

#[test]
fn each_entry_gets_one_action_in_order() {
    let rewrites = sample_rewrites();
    let marked = vec![s("A/Message Attachments/c/1.jpg")];
    let links = plan_duplicate_symlinks(&vec![vec![
        DuplicateLinkMember { path: s("A/Message Attachments/c/2.jpg"), bytes: 3 },
        DuplicateLinkMember { path: s("A/Message Attachments/c/3.jpg"), bytes: 3 },
    ]])
    .unwrap();
    assert_eq!(entry_action("Payload/", true, &marked, &rewrites, &links), EntryAction::CopyDirectory);
    assert_eq!(entry_action("A/Message Attachments/c/1.jpg", false, &marked, &rewrites, &links), EntryAction::Remove);
    assert_eq!(entry_action("A/Messages/Line.sqlite-wal", false, &marked, &rewrites, &links), EntryAction::SkipSidecar);
    assert_eq!(entry_action("A/Messages/LineSquare.sqlite", false, &marked, &rewrites, &links), EntryAction::Rewrite(1));
    assert_eq!(entry_action("A/Message Attachments/c/3.jpg", false, &marked, &rewrites, &links), EntryAction::Link(0));
    assert_eq!(entry_action("A/Message Attachments/c/2.jpg", false, &marked, &rewrites, &links), EntryAction::Copy);

    let mut tally = BuildTally::new();
    tally.record(EntryAction::Remove, "A/Message Attachments/c/1.jpg");
    tally.record(EntryAction::Remove, "A/Message Attachments/c/1.jpg");
    tally.record(EntryAction::SkipSidecar, "A/Messages/Line.sqlite-wal");
    tally.record(EntryAction::Copy, "x");
    tally.record(EntryAction::Link(0), "y");
    assert_eq!(tally.removed_found.len(), 1);
    assert_eq!(tally.skipped_sidecars_found, 1);
    assert_eq!(tally.output_entries, 2);
    assert_eq!(check_removals_found(&marked, &tally.removed_found), Ok(()));
    assert_eq!(
        check_removals_found(&vec![s("a"), s("b"), s("c")], &vec![s("b")]),
        Err(CoreError::RemovalsNotFound(vec![chars("a"), chars("c")]))
    );
}

#[test]
fn archive_surveys_refuse_encrypted_and_repeated_entries() {
    let entry = |name: &str, is_dir: bool, encrypted: bool, size: u64| ArchiveEntryInfo {
        name: s(name),
        is_dir,
        encrypted,
        compressed_size: size,
    };
    let survey = survey_archive(&vec![
        entry(".lock", false, false, 1),
        entry("Payload/", true, false, 0),
        entry("A/Messages/Line.sqlite", false, false, u64::MAX),
        entry("A/Message Attachments/c/1.jpg", false, false, 5),
    ])
    .unwrap();
    assert_eq!(survey.entries, 4);
    assert_eq!(survey.compressed_bytes, u64::MAX);
    assert_eq!(survey.protected_names, vec![s(".lock"), s("A/Messages/Line.sqlite")]);
    assert_eq!(archive_warnings(&survey.protected_names), vec![s("source archive does not contain Payload/LINE.app/Info.plist")]);
    assert_eq!(require_main_database(&survey.protected_names), Ok(()));
    assert_eq!(require_main_database(&vec![s(".lock")]), Err(CoreError::MissingProtectedDatabase));
    assert_eq!(
        survey_archive(&vec![entry("a", false, false, 1), entry("a", false, false, 1)]).err(),
        Some(CoreError::DuplicateSourceEntry(chars("a")))
    );
    assert_eq!(
        survey_archive(&vec![entry("a", false, true, 1)]).err(),
        Some(CoreError::EncryptedEntry(chars("a")))
    );
}

#[test]
fn written_candidates_are_checked_against_the_plan() {
    let rewrites = sample_rewrites();
    let links = plan_duplicate_symlinks(&vec![vec![
        DuplicateLinkMember { path: s("c/2.jpg"), bytes: 3 },
        DuplicateLinkMember { path: s("c/3.jpg"), bytes: 3 },
    ]])
    .unwrap();
    let marked = vec![s("c/1.jpg")];
    let file = |name: &str| CandidateEntryInfo { name: s(name), is_dir: false, is_symlink: false, link_target: None };
    let link = CandidateEntryInfo { name: s("c/3.jpg"), is_dir: false, is_symlink: true, link_target: Some(s("2.jpg")) };
    let good = vec![file("c/2.jpg"), link.clone(), file("A/Messages/Line.sqlite")];
    assert_eq!(check_candidate_entries(&good, 3, &marked, &rewrites, &links), Ok(()));
    assert_eq!(check_candidate_entries(&good, 4, &marked, &rewrites, &links), Err(CoreError::CandidateEntryCount(4, 3)));
    let with_marked = vec![file("c/1.jpg"), file("c/2.jpg"), link.clone()];
    assert_eq!(check_candidate_entries(&with_marked, 3, &marked, &rewrites, &links), Err(CoreError::CandidateHoldsRemoval(chars("c/1.jpg"))));
    let stale = vec![file("A/Messages/Line.sqlite-shm"), file("c/2.jpg"), link.clone()];
    assert_eq!(check_candidate_entries(&stale, 3, &marked, &rewrites, &links), Err(CoreError::CandidateHoldsSidecar(chars("A/Messages/Line.sqlite-shm"))));
    let twice = vec![file("c/2.jpg"), file("c/2.jpg"), link.clone()];
    assert_eq!(check_candidate_entries(&twice, 3, &marked, &rewrites, &links), Err(CoreError::CandidateDuplicateEntry(chars("c/2.jpg"))));
    let plain_copy = vec![file("c/2.jpg"), file("c/3.jpg")];
    assert_eq!(check_candidate_entries(&plain_copy, 2, &marked, &rewrites, &links), Err(CoreError::CandidateLinkNotSymlink(chars("c/3.jpg"))));
    let moved = vec![file("c/2.jpg"), CandidateEntryInfo { link_target: Some(s("x.jpg")), ..link.clone() }];
    assert_eq!(check_candidate_entries(&moved, 2, &marked, &rewrites, &links), Err(CoreError::CandidateLinkTargetChanged(chars("c/3.jpg"))));
    let missing_target = vec![link.clone()];
    assert_eq!(check_candidate_entries(&missing_target, 1, &marked, &rewrites, &links), Err(CoreError::CandidateLinkTargetMissing(chars("c/2.jpg"))));
    let missing_link = vec![file("c/2.jpg")];
    assert_eq!(check_candidate_entries(&missing_link, 1, &marked, &rewrites, &links), Err(CoreError::CandidateLinkMissing(chars("c/3.jpg"))));
}

#[test]
fn directory_work_counts_the_bytes_the_candidate_will_hold() {
    let rewrites = sample_rewrites();
    let files = vec![
        (s("A/Messages/Line.sqlite"), 1000),
        (s("A/Messages/Line.sqlite-wal"), 50),
        (s("c/1.jpg"), 7),
        (s("c/2.jpg"), 9),
    ];
    let marked = vec![s("c/1.jpg")];
    assert_eq!(catalog_directory_work(&files, &marked, &rewrites, &vec![300, 40]), (4, 309));
}

#[test]
fn outputs_must_be_new_archives_outside_a_directory_source() {
    assert_eq!(validate_output("/src", "/out/x.imazingapp", true, SourceKind::Directory), Err(CoreError::OutputExists));
    assert_eq!(validate_output("/src/a.imazingapp", "/src//a.imazingapp", false, SourceKind::ImazingArchive), Err(CoreError::OutputIsSource));
    assert_eq!(validate_output("/src", "/src/out/x.imazingapp", false, SourceKind::Directory), Err(CoreError::OutputInsideSource));
    assert_eq!(validate_output("/src", "/srcx/x.imazingapp", false, SourceKind::Directory), Ok(()));
    assert_eq!(validate_output("/src/a.imazingapp", "/src/b.imazingapp.candidate", false, SourceKind::ImazingArchive), Ok(()));
    assert_eq!(validate_output("/src", "/out/x.zip", false, SourceKind::Directory), Err(CoreError::CandidateOutputName));
    assert_eq!(require_backup_source(SourceKind::Sqlite), Err(CoreError::SqliteIsNotBackup));
    assert_eq!(require_backup_source(SourceKind::Directory), Ok(()));
}

#[test]
fn reports_sum_the_build_and_sort_names() {
    let rewrites = sample_rewrites();
    let links = DuplicateSymlinkPlan::new();
    let mut tally = BuildTally::new();
    tally.record(EntryAction::Remove, "c/1.jpg");
    tally.record(EntryAction::Copy, "b");
    let outcome = CandidateOutcome {
        kind: SourceKind::Directory,
        input_entries: 5,
        output_bytes: 10,
        full_crc: true,
        protected_names: vec![s("A/Messages/Line.sqlite-shm"), s("Payload/LINE.app/Info.plist"), s(".lock")],
        source_warnings: vec![s("ignored for folders")],
    };
    let report = candidate_report(&outcome, &tally, &rewrites, &links);
    assert_eq!(report.input_entries, 5);
    assert_eq!(report.output_entries, 1);
    assert_eq!(report.removed_entries, 1);
    assert_eq!(report.removed_chats, 3);
    assert_eq!(report.removed_messages, 14);
    assert_eq!(report.protected_entries_verified, vec![s(".lock"), s("Payload/LINE.app/Info.plist")]);
    assert_eq!(report.warnings, vec![s("directory sources are stored without compression; ZIP metadata may differ from iMazing")]);
    assert!(!report.used_zip64);
    assert!(uses_zip64(0, 65535));
    assert!(uses_zip64(4294967295, 0));
    assert!(!uses_zip64(4294967294, 65534));
    assert_eq!(protected_entries_to_verify(&vec![s("b"), s("a")], &DatabaseRewrites::new()), vec![s("a"), s("b")]);
}

#[test]
fn only_duplicates_left_after_removal_planning_are_linked() {
    let store = "Container/AppGroups/group.com.linecorp.line/Library/Application Support/PrivateStore/P_test";
    let removed = format!("{store}/Message Attachments/c001/90000001.bin");
    let canonical = format!("{store}/Message Attachments/c002/90000002.bin");
    let linked = format!("{store}/Message Thumbnails/c003/90000003.thumb");
    let bytes = b"same duplicate attachment".len() as u64;
    let rows: Vec<(String, u64, DuplicateLinkMember)> = [&removed, &canonical, &linked]
        .iter()
        .map(|p| (s("abc"), bytes, DuplicateLinkMember { path: p.to_string(), bytes }))
        .collect();

    let groups = duplicate_link_groups(&rows, &vec![removed.clone()]);
    let plan = plan_duplicate_symlinks(&groups).unwrap();
    assert_eq!(plan.linked_entries(), 1);
    assert_eq!(plan.linked_bytes(), bytes);
    assert_eq!(plan.links[0].path, linked);
    assert_eq!(plan.links[0].relative_target, "../../Message Attachments/c002/90000002.bin");

    let all = vec![removed, canonical, linked];
    let groups = duplicate_link_groups(&rows, &all);
    assert!(groups.is_empty());
    assert_eq!(plan_duplicate_symlinks(&groups).unwrap().linked_entries(), 0);
}

#[test]
fn each_candidate_refusal_names_the_first_rule_broken() {
    let rewrites = sample_rewrites();
    let links = plan_duplicate_symlinks(&vec![vec![
        DuplicateLinkMember { path: s("c/2.jpg"), bytes: 3 },
        DuplicateLinkMember { path: s("c/3.jpg"), bytes: 3 },
    ]])
    .unwrap();
    let file = |name: &str| CandidateEntryInfo { name: s(name), is_dir: false, is_symlink: false, link_target: None };
    let link = CandidateEntryInfo { name: s("c/3.jpg"), is_dir: false, is_symlink: true, link_target: Some(s("2.jpg")) };
    let sidecar = "A/Messages/Line.sqlite-shm";
    let both = vec![file(sidecar), file("c/2.jpg"), link.clone()];
    assert_eq!(
        check_candidate_entries(&both, 3, &vec![s(sidecar)], &rewrites, &links),
        Err(CoreError::CandidateHoldsRemoval(chars(sidecar)))
    );
    let no_text = vec![file("c/2.jpg"), CandidateEntryInfo { link_target: None, ..link.clone() }];
    assert_eq!(
        check_candidate_entries(&no_text, 2, &vec![], &rewrites, &links),
        Err(CoreError::CandidateLinkTargetInvalid(chars("c/3.jpg")))
    );
    let good = vec![file("c/2.jpg"), link.clone()];
    assert_eq!(
        check_candidate_entries(&good, 2, &vec![s("c/9.jpg"), s("c/2.jpg")], &rewrites, &links),
        Err(CoreError::CandidateHoldsRemoval(chars("c/2.jpg")))
    );
}
