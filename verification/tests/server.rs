use line_backup_native::error::CoreError;
use line_backup_native::server::{
    chat_cleanup_database, ends_session, message_database, reports_progress, request_method,
    ChatDatabase, RequestMethod,
};
use line_backup_native::model::{Chat, CleanupCategoryTotal, CleanupOverview};
use line_backup_native::server::{
    advanced_cleanup_report, analyze_advanced_cleanup, cleanup_preflight, community_messages,
    default_attachment_limit, default_chat_limit, default_cleanup_audit_limit,
    default_cleanup_category, default_cleanup_kind, default_cleanup_page,
    default_cleanup_page_size, default_cleanup_sort, default_message_limit,
    default_message_source, is_blank_request, LineReader, PlannedTotals, PreflightFacts, ReadLine,
};
use line_backup_native::source::SourceKind;

fn overview(marked: u64, unreferenced: u64) -> CleanupOverview {
    CleanupOverview {
        categories: vec![
            CleanupCategoryTotal { category: "unreferenced".to_string(), file_count: unreferenced, bytes: 99 },
            CleanupCategoryTotal { category: "unreferenced".to_string(), file_count: 5, bytes: 5 },
        ],
        marked_count: marked,
        marked_bytes: 7,
        manual_marked_count: 0,
        manual_marked_bytes: 0,
        automatic_candidate_count: 3,
        automatic_candidate_bytes: 30,
        automatic_marked_count: 0,
        automatic_marked_bytes: 0,
        context_status: "complete".to_string(),
    }
}

fn facts() -> PreflightFacts {
    PreflightFacts {
        source_kind: SourceKind::ImazingArchive,
        source_read_only: true,
        quick_check: "OK".to_string(),
        catalog_source_current: true,
        scan_status: "complete".to_string(),
        overview: overview(1, 0),
        active_job: None,
        wal_present: false,
        shm_present: false,
    }
}

fn chat(pk: i64, messages: i64, human: i64) -> Chat {
    Chat {
        pk,
        source: "line".to_string(),
        id: format!("c{pk}"),
        chat_type: 0,
        kind: "direct".to_string(),
        title: format!("Chat {pk}"),
        title_source: "chat".to_string(),
        message_count: messages,
        human_message_count: human,
        last_updated: 0,
        last_message: String::new(),
        planned_for_removal: false,
    }
}

#[test]
fn a_clean_source_raises_no_risk() {
    let report = cleanup_preflight(&facts());
    assert_eq!(report.risk_count, 0);
    assert_eq!(report.source_kind, "imazing_archive");
    assert_eq!(report.safe_candidate_count, 3);
    assert_eq!(report.marked_bytes, 7);
    assert_eq!(report.active_job, None);
}

#[test]
fn preflight_lists_every_risk_in_order() {
    let mut f = facts();
    f.source_read_only = false;
    f.quick_check = "database disk image is malformed".to_string();
    f.catalog_source_current = false;
    f.scan_status = "scanning".to_string();
    f.overview = overview(0, 2);
    f.overview.context_status = "running".to_string();
    f.active_job = Some(("scan".to_string(), "17".to_string()));
    f.shm_present = true;
    let report = cleanup_preflight(&f);
    let codes: Vec<&str> = report.risks.iter().map(|r| r.code.as_str()).collect();
    assert_eq!(
        codes,
        vec![
            "source-writable",
            "sqlite-check",
            "catalog-stale",
            "scan-incomplete",
            "context-incomplete",
            "sqlite-companion",
            "unreferenced-files",
            "active-job",
            "nothing-marked",
        ]
    );
    assert_eq!(report.blocker_count, 5);
    assert_eq!(report.warning_count, 3);
    assert_eq!(report.risk_count, 9);
    assert_eq!(report.active_job, Some("scan:17".to_string()));
    assert_eq!(report.risks[6].file_count, 2);
    assert_eq!(report.risks[6].bytes, 99);
    assert_eq!(report.risks[8].severity, "info");
    assert_eq!(report.risks[1].detail, "quick_check 回報：database disk image is malformed。建立候選檔前請先保留來源並修復資料庫。");
    assert_eq!(report.risks[3].detail, "目前掃描狀態為 scanning，尚未取得完整檔案清單。");
    assert_eq!(report.risks[7].detail, "目前工作：scan:17。請等待完成後再建立候選檔。");
}

#[test]
fn advanced_cleanup_counts_empty_and_system_only_chats() {
    let line = vec![chat(1, 0, 0), chat(2, 5, 0), chat(3, 5, 2)];
    let square = vec![chat(4, 3, 0), chat(5, 0, 0), chat(6, 2, 2), chat(7, 0, 0)];
    let analysis = analyze_advanced_cleanup(&line, Some(&square), 2);
    assert_eq!(analysis.line_empty_chats, 1);
    assert_eq!(analysis.line_system_only_chats, 1);
    assert_eq!(analysis.square_cleanup, vec![1, 3, 0]);
    assert_eq!(analysis.square_empty_chats, 2);
    assert_eq!(analysis.square_system_only_chats, 1);
    assert_eq!(analysis.community_chats, 4);
    assert_eq!(community_messages(&square, 2), 7);
    let without = analyze_advanced_cleanup(&line, None, 9);
    assert!(!without.square_available);
    assert_eq!(without.orphan_messages, 0);

    let totals = PlannedTotals {
        automatic_cleanup_planned: true,
        community_cleanup_planned: true,
        planned_chats: 2,
        planned_chat_messages: i64::MAX,
        planned_orphan_messages: 5,
        planned_files: -1,
        planned_bytes: 100,
    };
    let report = advanced_cleanup_report(&analysis, 7, totals);
    assert_eq!(report.planned_chats, 6);
    assert_eq!(report.planned_database_messages, i64::MAX as u64 + 7);
    assert_eq!(report.planned_files, 0);
    assert_eq!(report.planned_bytes, 100);
    assert_eq!(report.orphan_community_messages, 2);
}

#[test]
fn request_defaults() {
    assert_eq!(default_chat_limit(), 100);
    assert_eq!(default_message_source(), "line");
    assert_eq!(default_message_limit(), 180);
    assert_eq!(default_cleanup_audit_limit(), 20);
    assert_eq!(default_attachment_limit(), 100);
    assert_eq!(default_cleanup_page(), 1);
    assert_eq!(default_cleanup_page_size(), 24);
    assert_eq!(default_cleanup_kind(), "all");
    assert_eq!(default_cleanup_category(), "all");
    assert_eq!(default_cleanup_sort(), "size");
}

#[test]
fn request_lines_are_read_across_chunks() {
    let mut reader = LineReader::new(16);
    assert_eq!(reader.feed(b"{\"id\":"), (6, None));
    assert_eq!(reader.feed(b"1}\r\nnext"), (4, Some(ReadLine::Line)));
    assert_eq!(reader.line, b"{\"id\":1}".to_vec());
    let mut tail = LineReader::new(16);
    assert_eq!(tail.feed(b"next"), (4, None));
    assert_eq!(tail.finish(), ReadLine::Line);
    assert_eq!(LineReader::new(16).finish(), ReadLine::Eof);
}

#[test]
fn long_request_lines_are_dropped_whole() {
    let mut reader = LineReader::new(4);
    assert_eq!(reader.feed(b"abc"), (3, None));
    assert_eq!(reader.feed(b"de"), (2, None));
    assert!(reader.too_large);
    assert!(reader.line.is_empty());
    assert_eq!(reader.feed(b"f\nrest"), (2, Some(ReadLine::TooLarge)));
    let mut exact = LineReader::new(4);
    assert_eq!(exact.feed(b"abc\n"), (4, Some(ReadLine::Line)));
    assert_eq!(exact.line, b"abc".to_vec());
    assert!(is_blank_request(b" \t\r"));
    assert!(!is_blank_request(b" x "));
}

#[test]
fn request_methods_are_named_and_unknown_names_are_refused() {
    assert_eq!(request_method("listChats"), Ok(RequestMethod::ListChats));
    assert_eq!(request_method("buildCandidate"), Ok(RequestMethod::BuildCandidate));
    assert_eq!(request_method("shutdown"), Ok(RequestMethod::Shutdown));
    assert!(ends_session(RequestMethod::Shutdown));
    assert!(!ends_session(RequestMethod::SessionInfo));
    let refused = request_method("listchats").unwrap_err();
    assert_eq!(refused, CoreError::UnknownMethod("listchats".chars().collect()));
    assert_eq!(refused.message(), "unknown method: listchats");
}

#[test]
fn message_and_cleanup_sources_pick_a_loaded_database() {
    assert_eq!(message_database("line", false), Ok(ChatDatabase::Line));
    assert_eq!(message_database("square", true), Ok(ChatDatabase::Square));
    assert_eq!(message_database("square", false), Err(CoreError::SquareUnavailable));
    assert_eq!(message_database("other", true), Err(CoreError::MessageSource));
    assert_eq!(chat_cleanup_database("other", true), Err(CoreError::ChatSource));
    assert_eq!(
        CoreError::SquareUnavailable.message(),
        "LineSquare.sqlite is not available"
    );
}

#[test]
fn progress_is_reported_every_sixty_fourth_item_and_at_the_end() {
    assert!(reports_progress(0, 10));
    assert!(reports_progress(64, 100));
    assert!(!reports_progress(65, 100));
    assert!(reports_progress(100, 100));
}

#[test]
fn a_request_line_read_in_pieces_equals_one_read_at_once() {
    let mut pieces = LineReader::new(16);
    let (taken_a, outcome_a) = pieces.feed(b"{\"id\":");
    assert_eq!((taken_a, outcome_a), (6, None));
    let (taken_b, outcome_b) = pieces.feed(b"1}\r\nnext");
    let mut whole = LineReader::new(16);
    let (taken_whole, outcome_whole) = whole.feed(b"{\"id\":1}\r\nnext");
    assert_eq!(taken_a + taken_b, taken_whole);
    assert_eq!(outcome_b, outcome_whole);
    assert_eq!(pieces.line, whole.line);
    assert_eq!(pieces.line, b"{\"id\":1}".to_vec());

    let mut small = LineReader::new(4);
    small.feed(b"abc");
    let (_, dropped) = small.feed(b"de\n");
    let mut small_whole = LineReader::new(4);
    let (_, dropped_whole) = small_whole.feed(b"abcde\n");
    assert_eq!(dropped, Some(ReadLine::TooLarge));
    assert_eq!(dropped, dropped_whole);
    assert!(small.line.is_empty() && small_whole.line.is_empty());
}

#[test]
fn a_line_cut_into_many_chunks_reads_as_one() {
    let input: &[u8] = b"{\"id\":1}\r\nnext";
    let mut whole = LineReader::new(64);
    let (taken, ended) = whole.feed(input);
    assert_eq!((taken, ended), (10, Some(ReadLine::Line)));
    let mut pieces = LineReader::new(64);
    let mut consumed = 0;
    let mut outcome = None;
    for chunk in [&input[0..1], &input[1..4], &input[4..9], &input[9..]] {
        let (n, r) = pieces.feed(chunk);
        consumed += n;
        if r.is_some() {
            outcome = r;
            break;
        }
    }
    assert_eq!(consumed, 10);
    assert_eq!(outcome, Some(ReadLine::Line));
    assert_eq!(pieces.line, whole.line);
    assert_eq!(pieces.line, b"{\"id\":1}".to_vec());
}
