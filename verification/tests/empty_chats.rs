use line_backup_native::empty_chats::list_empty_attachment_chats;
use line_backup_native::error::CoreError;
use line_backup_native::model::Chat;

fn chat(source: &str, pk: i64, title: &str, last_updated: i64) -> Chat {
    Chat {
        pk,
        source: source.to_string(),
        id: format!("id-{pk}"),
        chat_type: 1,
        kind: "group".to_string(),
        title: title.to_string(),
        title_source: "chat".to_string(),
        message_count: 3,
        human_message_count: 3,
        last_updated,
        last_message: format!("Last Words {pk}"),
        planned_for_removal: pk == 2,
    }
}

fn sample() -> Vec<Chat> {
    vec![
        chat("line", 1, "Beta", 30),
        chat("line", 2, "alpha", 10),
        chat("square", 3, "Gamma", 20),
        chat("line", 4, "Beta", 30),
    ]
}

#[test]
fn lists_chats_without_indexed_attachments_for_advanced_cleanup() {
    let indexed = vec![("square".to_string(), 3)];
    let page = list_empty_attachment_chats(sample(), &indexed, 1, 24, None, "all", "recent").unwrap();
    assert_eq!(page.total_items, 3);
    assert_eq!(page.total_pages, 1);
    let keys: Vec<&str> = page.items.iter().map(|g| g.key.as_str()).collect();
    assert_eq!(keys, vec!["empty:line:1", "empty:line:4", "empty:line:2"]);
    assert_eq!(page.items[2].reference_status, "no_attachments");
    assert!(page.items[2].planned_for_chat_removal);
    assert_eq!(page.items[0].chat_pk, Some(1));
    assert_eq!(page.items[0].latest_timestamp, 30);
}

#[test]
fn empty_chat_listing_sorts_searches_and_pages() {
    let oldest = list_empty_attachment_chats(sample(), &Vec::new(), 1, 2, None, "all", "oldest").unwrap();
    let keys: Vec<&str> = oldest.items.iter().map(|g| g.key.as_str()).collect();
    assert_eq!(keys, vec!["empty:line:2", "empty:square:3"]);
    assert_eq!(oldest.total_pages, 2);
    let by_title = list_empty_attachment_chats(sample(), &Vec::new(), 2, 2, None, "all", "size").unwrap();
    let keys: Vec<&str> = by_title.items.iter().map(|g| g.key.as_str()).collect();
    assert_eq!(keys, vec!["empty:square:3", "empty:line:2"]);
    let found = list_empty_attachment_chats(sample(), &Vec::new(), 1, 24, Some("  last WORDS 3 "), "all", "path").unwrap();
    assert_eq!(found.total_items, 1);
    assert_eq!(found.items[0].chat_title, "Gamma");
    let beyond = list_empty_attachment_chats(sample(), &Vec::new(), 9, 24, None, "all", "recent").unwrap();
    assert!(beyond.items.is_empty());
    assert_eq!(beyond.total_items, 4);
}

#[test]
fn empty_chat_listing_refuses_bad_requests() {
    assert_eq!(list_empty_attachment_chats(sample(), &Vec::new(), 0, 24, None, "all", "recent"), Err(CoreError::CleanupPageZero));
    assert_eq!(list_empty_attachment_chats(sample(), &Vec::new(), 1, 0, None, "all", "recent"), Err(CoreError::PageSize));
    assert_eq!(list_empty_attachment_chats(sample(), &Vec::new(), 1, 24, None, "original", "recent"), Err(CoreError::EmptyChatKindFilter));
    assert_eq!(list_empty_attachment_chats(sample(), &Vec::new(), 1, 24, None, "all", "name"), Err(CoreError::CleanupSort));
}
