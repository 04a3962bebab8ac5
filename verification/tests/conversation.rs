use line_backup_native::conversation::{
    attachment_entry_name, avatar_entry_name, chat_kind_label, content_label, escape_html,
    html_end, html_start, is_system_message, message_html, preview_attachment_paths, ArchivedMessage,
    EXPORT_END,
};
use line_backup_native::model::{AttachmentKind, Chat, MessageAttachment};

fn chat(title: &str, count: i64) -> Chat {
    Chat {
        pk: 7,
        source: "line".to_string(),
        id: "u1".to_string(),
        chat_type: 0,
        kind: "direct".to_string(),
        title: title.to_string(),
        title_source: "chat".to_string(),
        message_count: count,
        human_message_count: 1,
        last_updated: 1,
        last_message: String::new(),
        planned_for_removal: false,
    }
}

#[test]
fn escapes_untrusted_chat_and_message_content() {
    let message = ArchivedMessage {
        pk: 1,
        timestamp: 100,
        sender_pk: Some(1),
        sender_name: "<Alice>".to_string(),
        is_self: false,
        send_status: Some(0),
        content_type: Some(1),
        id: "m1".to_string(),
        text: "<img src=x onerror=alert(1)> & hello".to_string(),
        sticker_id: None,
        coordinates: None,
        attachments: vec![MessageAttachment {
            path: "folder/photo.jpg".to_string(),
            bytes: 42,
            kind: AttachmentKind::Original,
        }],
        attachment_sizes: vec!["42 B".to_string()],
    };
    let mut html = html_start(&chat("Alice <script>", 1));
    html.push_str(&message_html(&message, Some("avatars/alice.png")));
    html.push_str(&html_end());
    assert!(html.contains("Alice &lt;script&gt;"));
    assert!(html.contains("&lt;img src=x onerror=alert(1)&gt; &amp; hello"));
    assert!(!html.contains("<img src=x onerror"));
    assert!(html.contains(&attachment_entry_name("folder/photo.jpg")));
    assert!(html.contains("avatars/alice.png"));
    assert!(html.contains("class=\"avatar\""));
}

#[test]
fn archived_messages_render_their_parts() {
    let message = ArchivedMessage {
        pk: -2,
        timestamp: 5,
        sender_pk: None,
        sender_name: String::new(),
        is_self: true,
        send_status: Some(1),
        content_type: Some(100),
        id: "x".to_string(),
        text: String::new(),
        sticker_id: None,
        coordinates: Some("25.5, 121.5".to_string()),
        attachments: vec![MessageAttachment {
            path: "dir\\clip.thumb".to_string(),
            bytes: 3,
            kind: AttachmentKind::Thumbnail,
        }],
        attachment_sizes: vec!["3 B".to_string()],
    };
    let entry = attachment_entry_name("dir\\clip.thumb");
    let expected = format!(
        "<article class=\"message self\" data-message-pk=\"-2\"><div class=\"bubble\"><div class=\"meta\"><strong>我</strong><time data-line-timestamp=\"5\">5</time></div><p class=\"kind\">[位置]</p><p class=\"coordinates\">位置：25.5, 121.5</p><div class=\"media\"><a href=\"{entry}\" target=\"_blank\"><img loading=\"lazy\" src=\"{entry}\" alt=\"clip.thumb\"></a></div><ul class=\"attachments\"><li><a href=\"{entry}\" download>clip.thumb</a><span>縮圖 · 3 B</span></li></ul></div></article>"
    );
    assert_eq!(message_html(&message, Some("avatars/me.png")), expected);
}

#[test]
fn attachment_names_are_deterministic_and_ascii_safe() {
    let first = attachment_entry_name("資料夾/照片.JPG");
    assert_eq!(first, attachment_entry_name("資料夾/照片.JPG"));
    assert!(first.starts_with("attachments/"));
    assert!(first.ends_with(".jpg"));
    assert!(first.is_ascii());

    let avatar = avatar_entry_name("https://profile.line-scdn.net/alice", "png");
    assert_eq!(avatar, avatar_entry_name("https://profile.line-scdn.net/alice", "png"));
    assert!(avatar.starts_with("avatars/"));
    assert!(avatar.ends_with(".png"));
}

#[test]
fn renders_legacy_stickers_without_system_or_location_labels() {
    let message = ArchivedMessage {
        pk: 1,
        timestamp: 100,
        sender_pk: Some(1),
        sender_name: "Mock Sender".to_string(),
        is_self: false,
        send_status: Some(0),
        content_type: Some(7),
        id: String::new(),
        text: String::new(),
        sticker_id: Some(2131765),
        coordinates: None,
        attachments: Vec::new(),
        attachment_sizes: Vec::new(),
    };
    let html = message_html(&message, None);
    assert!(!is_system_message(Some(7), Some(1), Some(0), "", true));
    assert_eq!(content_label(Some(7), true), "貼圖");
    assert!(html.contains("Mock Sender"));
    assert!(html.contains(
        "https://stickershop.line-scdn.net/stickershop/v1/sticker/2131765/iPhone/sticker_animation@2x.png"
    ));
    assert!(!html.contains("位置："));
}

#[test]
fn archive_names_hash_the_source_path() {
    assert_eq!(
        attachment_entry_name("資料夾/照片.JPG"),
        "attachments/d4e8529ea6befb8e97ab092f45db80f953b3aad8e3911439f6cfd2654bc5b039.jpg"
    );
    assert_eq!(
        avatar_entry_name("https://profile.line-scdn.net/alice", "png"),
        "avatars/268adf6164a1c2544ea29c057150eb57cb1003649ce03da716d017362e72f3fb.png"
    );
    assert!(attachment_entry_name("a/b.thisextensionistoolong").ends_with(".bin"));
    assert!(attachment_entry_name("a/b.p-g").ends_with(".bin"));
    assert!(attachment_entry_name("a/.hidden").ends_with(".bin"));
    assert!(attachment_entry_name("a/noext").ends_with(".bin"));
    assert!(attachment_entry_name("a/x.Mp4/").ends_with(".mp4"));
}

#[test]
fn labels_for_kinds_and_contents() {
    assert_eq!(chat_kind_label("group"), "群組聊天室");
    assert_eq!(chat_kind_label("community"), "社群");
    assert_eq!(chat_kind_label("other"), "聊天室");
    assert_eq!(content_label(Some(112), false), "照片");
    assert_eq!(content_label(Some(17), false), "影片");
    assert_eq!(content_label(Some(3), false), "語音");
    assert_eq!(content_label(Some(14), false), "檔案");
    assert_eq!(content_label(Some(101), false), "貼圖");
    assert_eq!(content_label(Some(96), false), "系統訊息");
    assert_eq!(content_label(Some(100), false), "位置");
    assert_eq!(content_label(Some(107), false), "連結");
    assert_eq!(content_label(None, false), "附件");
    assert!(is_system_message(Some(18), Some(1), Some(1), "m", false));
    assert!(is_system_message(None, None, Some(0), "", false));
    assert!(!is_system_message(None, None, Some(0), "m", false));
}

#[test]
fn pages_open_and_close() {
    let html = html_start(&chat("Room", -3));
    assert!(html.starts_with("<!doctype html><html lang=\"zh-Hant\">"));
    assert!(html.contains("<title>Room</title><style>"));
    assert!(html.contains("共 0 則訊息"));
    assert!(html.ends_with("<main aria-label=\"討論串內容\">"));
    assert_eq!(html_end(), EXPORT_END);
    assert!(html_end().ends_with("</script></body></html>"));
}

#[test]
fn previews_prefer_originals_and_need_image_content() {
    let attachment = |path: &str, kind: AttachmentKind| MessageAttachment { path: path.to_string(), bytes: 1, kind };
    let both = vec![
        attachment("c/1.thumb", AttachmentKind::Thumbnail),
        attachment("c/1.jpg", AttachmentKind::Original),
    ];
    assert_eq!(preview_attachment_paths(None, &both), vec!["c/1.jpg".to_string()]);
    let thumbs = vec![attachment("c/1.thumb", AttachmentKind::Thumbnail)];
    assert_eq!(preview_attachment_paths(None, &thumbs), vec!["c/1.thumb".to_string()]);
    let files = vec![attachment("c/1.pdf", AttachmentKind::Original)];
    assert!(preview_attachment_paths(Some(14), &files).is_empty());
    assert_eq!(preview_attachment_paths(Some(1), &files), vec!["c/1.pdf".to_string()]);
    let many: Vec<MessageAttachment> = (0..15).map(|i| attachment(&format!("c/{i}.png"), AttachmentKind::Original)).collect();
    assert_eq!(preview_attachment_paths(None, &many).len(), 12);
}
