use line_backup_native::chats::{enrich_context_titles, square_context_title};
use line_backup_native::model::AttachmentContext;
use line_backup_native::chats::{
    combine_chat_pages, extract_group_name_from_system_text, group_name_after, group_name_marker,
    PageEdges,
};
use line_backup_native::chats::{
    assemble_page, chat_kind, chat_page, check_page_request, coalesced_text_expr,
    enrich_chat_titles, group_rename_text_expr, human_message_predicate, integer_expr, lookup_id,
    message_flags, normalized_lookup_ids, nullable_integer_expr, nullable_real_expr,
    paired_cursor, resolve_chat_title, source_cursor_before_filter, source_cursor_tie_filter,
    square_chat_title, text_expr, unified_group_title, validated_fts_pattern,
    validated_search_pattern, CompanionChatTitle,
};
use line_backup_native::error::CoreError;
use line_backup_native::model::Chat;

fn cols(names: &[&str]) -> Vec<String> {
    names.iter().map(|n| n.to_string()).collect()
}

fn chat(pk: i64, chat_type: i64, id: &str) -> Chat {
    Chat {
        pk,
        source: "line".to_string(),
        id: id.to_string(),
        chat_type,
        kind: chat_kind(chat_type).to_string(),
        title: "fallback".to_string(),
        title_source: "chat".to_string(),
        message_count: 1,
        human_message_count: 1,
        last_updated: pk * 10,
        last_message: String::new(),
        planned_for_removal: false,
    }
}

#[test]
fn chat_kinds_and_titles() {
    assert_eq!(chat_kind(0), "direct");
    assert_eq!(chat_kind(4), "group");
    assert_eq!(chat_kind(100), "community");
    assert_eq!(chat_kind(3), "unknown");
    assert_eq!(resolve_chat_title(0, "Alice", "G", "R", "C", "id"), ("Alice".to_string(), "user".to_string()));
    assert_eq!(resolve_chat_title(1, "Alice", "", "Renamed Room", "C", "id"), ("Renamed Room".to_string(), "rename".to_string()));
    assert_eq!(resolve_chat_title(1, "", "Group", "R", "C", "id"), ("Group".to_string(), "group".to_string()));
    assert_eq!(resolve_chat_title(0, "", "Group", "R", "", "u1"), ("u1".to_string(), "id".to_string()));
    assert_eq!(resolve_chat_title(0, "", "", "", "", ""), ("未命名聊天室".to_string(), "unresolved".to_string()));
    assert_eq!(lookup_id("  G-Unified "), "g-unified");
}

#[test]
fn messages_are_told_apart() {
    assert_eq!(message_flags("m1", Some(1), "u1", Some(0), Some(7), "R", Some("me")), (true, false));
    assert_eq!(message_flags("", None, "", Some(0), None, "R", None), (true, false));
    assert_eq!(message_flags("m1", Some(1), "me", Some(0), Some(0), "R", Some("me")), (false, true));
    assert_eq!(message_flags("m1", None, "", Some(3), None, "s", None), (false, true));
    assert_eq!(message_flags("m1", Some(2), "", Some(1), None, "R", None), (false, false));
}

#[test]
fn pages_are_cut_from_one_extra_row() {
    assert_eq!(check_page_request(true, true, 10), Err(CoreError::TwoCursors));
    assert_eq!(check_page_request(false, true, 0), Err(CoreError::PageSize));
    assert_eq!(check_page_request(true, false, 1000), Ok(1000));
    let forward = assemble_page(vec![1, 2, 3], 2, false, false);
    assert_eq!(forward.items, vec![1, 2]);
    assert!(forward.cursor_from_last);
    assert!(!forward.has_previous);
    let last = assemble_page(vec![1, 2], 2, true, false);
    assert!(!last.cursor_from_last);
    assert!(last.has_previous);
    let backward = assemble_page(vec![9, 8, 7], 2, false, true);
    assert_eq!(backward.items, vec![8, 9]);
    assert!(backward.cursor_from_last);
    assert!(backward.has_previous);
    let first_page = assemble_page(vec![9], 2, false, true);
    assert_eq!(first_page.items, vec![9]);
    assert!(!first_page.has_previous);
    assert!(first_page.cursor_from_last);

    let page = chat_page(vec![chat(3, 0, "a"), chat(2, 0, "b"), chat(1, 0, "c")], 2, false, false);
    assert_eq!(page.items.len(), 2);
    let cursor = page.next_cursor.unwrap();
    assert_eq!((cursor.last_updated, cursor.pk, cursor.source.as_str()), (20, 2, "line"));
    let end = chat_page(vec![chat(3, 0, "a")], 2, true, false);
    assert!(end.next_cursor.is_none());
    assert!(end.has_previous);
    assert_eq!(paired_cursor(None, None), Ok(None));
    assert_eq!(paired_cursor(Some(1), Some(2)), Ok(Some((1, 2))));
    assert_eq!(paired_cursor(Some(1), None), Err(CoreError::HalfCursor));
}

#[test]
fn search_patterns_are_trimmed_bounded_and_escaped() {
    assert_eq!(validated_search_pattern("  100%_ok\\ "), Ok("%100\\%\\_ok\\\\%".to_string()));
    assert_eq!(validated_search_pattern("   "), Err(CoreError::EmptySearch));
    assert_eq!(validated_search_pattern(&"字".repeat(342)), Err(CoreError::SearchTooLong));
    assert_eq!(validated_search_pattern(&"字".repeat(341)).map(|p| p.chars().count()), Ok(343));
    assert_eq!(validated_fts_pattern(" say \"hi\" "), Ok("\"say \"\"hi\"\"\"*".to_string()));
}

#[test]
fn sql_expressions_use_only_present_columns() {
    let columns = cols(&["ZMID", "ZNAME", "ZTYPE"]);
    assert_eq!(text_expr("c", &columns, &cols(&["ZMID", "ZID"])), "COALESCE(CAST(c.ZMID AS TEXT), '')");
    assert_eq!(text_expr("c", &columns, &cols(&["ZID"])), "''");
    assert_eq!(
        coalesced_text_expr("u", &columns, &cols(&["ZNAME", "ZMID"])),
        "COALESCE(NULLIF(CAST(u.ZNAME AS TEXT), ''), NULLIF(CAST(u.ZMID AS TEXT), ''), '')"
    );
    assert_eq!(integer_expr("c", &columns, "ZTYPE", "0"), "CAST(COALESCE(c.ZTYPE, 0) AS INTEGER)");
    assert_eq!(integer_expr("c", &columns, "ZOTHER", "7"), "7");
    assert_eq!(nullable_integer_expr("m", &columns, "ZTYPE"), "CAST(m.ZTYPE AS INTEGER)");
    assert_eq!(nullable_real_expr("m", &columns, "ZLATITUDE"), "NULL");
    assert_eq!(human_message_predicate("hm", &cols(&[])), "1");
    assert_eq!(
        human_message_predicate("hm", &cols(&["ZCONTENTTYPE"])),
        "(hm.ZCONTENTTYPE IS NULL OR CAST(hm.ZCONTENTTYPE AS INTEGER) NOT IN (7, 18, 96, 111))"
    );
    assert_eq!(group_rename_text_expr("c.Z_PK", &cols(&["ZCHAT"]), "mr"), "''");
    let rename = group_rename_text_expr("c.Z_PK", &cols(&["ZCHAT", "ZCONTENTTYPE", "ZTEXT"]), "mr");
    assert!(rename.starts_with("COALESCE((SELECT CAST(mr.ZTEXT AS TEXT) FROM ZMESSAGE mr WHERE mr.ZCHAT = c.Z_PK"));
    assert!(rename.contains("ORDER BY 0 DESC, mr.Z_PK DESC LIMIT 1), '')"));
    assert_eq!(source_cursor_tie_filter("line", "line", "c.Z_PK", "?2"), "c.Z_PK > ?2");
    assert_eq!(source_cursor_tie_filter("square", "line", "c.Z_PK", "?2"), "1 = 1");
    assert_eq!(source_cursor_tie_filter("line", "square", "c.Z_PK", "?2"), "1 = 0");
    assert_eq!(source_cursor_before_filter("line", "line", "c.Z_PK", "?2"), "c.Z_PK < ?2");
    assert_eq!(source_cursor_before_filter("square", "line", "c.Z_PK", "?2"), "1 = 0");
}

#[test]
fn companion_titles_name_group_and_community_chats() {
    assert_eq!(
        normalized_lookup_ids(&cols(&["B", " a ", "b"])),
        vec!["a".to_string(), "b".to_string()]
    );
    let unified = vec![
        unified_group_title("G-Unified", "Old".to_string(), 1),
        unified_group_title("g-unified", "Unified Room".to_string(), 1),
    ];
    let square = vec![square_chat_title("SQ", "chat".to_string(), "Square A".to_string()).unwrap()];
    assert!(square_chat_title("x", String::new(), String::new()).is_none());
    let mut chats = vec![chat(1, 1, "g-Unified"), chat(2, 0, "g-unified"), chat(3, 1, "sq"), chat(4, 1, "none")];
    enrich_chat_titles(&mut chats, &square, &unified);
    assert_eq!(chats[0].title, "Unified Room");
    assert_eq!(chats[0].title_source, "unified-group");
    assert_eq!(chats[0].kind, "group");
    assert_eq!(chats[1].title, "fallback");
    assert_eq!(chats[2].title, "Square A");
    assert_eq!(chats[2].title_source, "line-square");
    assert_eq!(chats[2].kind, "community");
    assert_eq!(chats[3].title, "fallback");
    let _unused: Vec<CompanionChatTitle> = Vec::new();
}

fn dated(pk: i64, source: &str, last_updated: i64) -> Chat {
    let mut c = chat(pk, 1, "cid");
    c.source = source.to_string();
    c.last_updated = last_updated;
    c
}

fn keys(page: &line_backup_native::model::ChatPage) -> Vec<(String, i64)> {
    page.items.iter().map(|c| (c.source.clone(), c.pk)).collect()
}

#[test]
fn combined_chat_pages_are_newest_first_then_by_source_and_cut_to_the_limit() {
    let items = vec![
        dated(3, "line", 10),
        dated(1, "square", 30),
        dated(2, "line", 30),
        dated(1, "line", 30),
        dated(9, "square", 5),
    ];
    let none = PageEdges { has_next: false, has_previous: false };
    let page = combine_chat_pages(items, 3, false, false, none, none);
    assert_eq!(
        keys(&page),
        vec![("line".to_string(), 1), ("line".to_string(), 2), ("square".to_string(), 1)]
    );
    let cursor = page.next_cursor.unwrap();
    assert_eq!((cursor.last_updated, cursor.source.as_str(), cursor.pk), (30, "square", 1));
    assert!(!page.has_previous);
}

#[test]
fn combined_chat_page_edges_follow_the_direction_of_reading() {
    let none = PageEdges { has_next: false, has_previous: false };
    let more = PageEdges { has_next: true, has_previous: true };
    let forward = combine_chat_pages(vec![dated(1, "line", 1)], 5, true, false, none, none);
    assert!(forward.next_cursor.is_none());
    assert!(forward.has_previous);
    let forward_more = combine_chat_pages(vec![dated(1, "line", 1)], 5, false, false, none, more);
    assert!(forward_more.next_cursor.is_some());
    let backward = combine_chat_pages(vec![dated(1, "line", 1)], 5, false, true, none, none);
    assert!(backward.next_cursor.is_some());
    assert!(!backward.has_previous);
    let backward_more = combine_chat_pages(vec![dated(1, "line", 1)], 5, false, true, more, none);
    assert!(backward_more.has_previous);
    let empty_backward = combine_chat_pages(Vec::new(), 5, false, true, more, more);
    assert!(empty_backward.next_cursor.is_none());
    assert!(empty_backward.items.is_empty());
}

#[test]
fn rename_notices_give_the_quoted_group_name() {
    assert_eq!(
        extract_group_name_from_system_text("Alice changed the group name to 「Trip 2024」"),
        Some("Trip 2024".to_string())
    );
    assert_eq!(
        extract_group_name_from_system_text("\u{2068}Bob\u{2069} 將群組名稱改為「 家人 」"),
        Some("家人".to_string())
    );
    assert_eq!(
        extract_group_name_from_system_text("Group Name: \"Team A\""),
        Some("Team A".to_string())
    );
    assert_eq!(
        extract_group_name_from_system_text("group name 「 」 then “Crew”"),
        Some("Crew".to_string())
    );
    assert_eq!(extract_group_name_from_system_text("Carol joined"), Some(String::new()));
    assert_eq!(
        extract_group_name_from_system_text("「Before」 group name with no quotes"),
        Some(String::new())
    );
}

#[test]
fn group_name_marker_is_a_byte_offset_into_the_notice() {
    let notice = "x 群組名稱「甲」";
    let marker = group_name_marker(notice, notice).unwrap();
    assert_eq!(marker, 2);
    assert_eq!(group_name_after(notice, marker), "甲");
    assert_eq!(group_name_marker("ABC GROUP NAME", "abc group name"), Some(4));
    assert_eq!(group_name_marker("none", "none"), None);
}

fn matched(chat_id: &str, kind: &str) -> AttachmentContext {
    AttachmentContext {
        source: "line".to_string(),
        message_pk: 1,
        chat_pk: 2,
        chat_id: chat_id.to_string(),
        chat_title: "old".to_string(),
        chat_kind: kind.to_string(),
        timestamp: 3,
        sender_pk: None,
        sender_name: String::new(),
        content_type: None,
        text: String::new(),
    }
}

#[test]
fn matched_messages_take_companion_titles_except_in_direct_chats() {
    let square = vec![CompanionChatTitle {
        key: "gabc".to_string(),
        title: "Hikers".to_string(),
        kind: "community".to_string(),
        source: "line-square".to_string(),
    }];
    let unified = vec![CompanionChatTitle {
        key: "gdef".to_string(),
        title: "Family".to_string(),
        kind: "group".to_string(),
        source: "unified-group".to_string(),
    }];
    let mut contexts = vec![matched(" GABC ", "group"), matched("gdef", "group"), matched("gabc", "direct")];
    enrich_context_titles(&mut contexts, &square, &unified);
    assert_eq!((contexts[0].chat_title.as_str(), contexts[0].chat_kind.as_str()), ("Hikers", "community"));
    assert_eq!((contexts[1].chat_title.as_str(), contexts[1].chat_kind.as_str()), ("Family", "group"));
    assert_eq!(contexts[2].chat_title, "old");
    assert_eq!(square_context_title("m1", "", "Square"), "Square");
    assert_eq!(square_context_title("m1", "Chat", ""), "Chat");
    assert_eq!(square_context_title("", "", ""), "未命名社群");
}
