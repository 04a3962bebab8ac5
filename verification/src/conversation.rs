//! The HTML archive of a conversation: names of the archived files, the
//! labels shown, and the escaped text of the page around the messages.

use vstd::prelude::*;

use crate::candidate::path_file_name;
use crate::digest::{hex, sha256, sha256_hex};
use crate::fingerprint::utf8;
use crate::model::{AttachmentKind, Chat, MessageAttachment};
use crate::paths;
use crate::text;

verus! {

/// The style sheet of an archived conversation.
pub const EXPORT_STYLES: &'static str = r#"
:root{color-scheme:light;--ink:#16211b;--muted:#64748b;--line:#dce3df;--accent:#14b8a6;--accent-strong:#0f766e;--self:#f0fdfa}
*{box-sizing:border-box}body{max-width:980px;margin:0 auto;padding:28px 18px 48px;color:var(--ink);background:#f3f5f4;font:16px/1.55 system-ui,-apple-system,BlinkMacSystemFont,"Segoe UI",sans-serif}
header,footer{padding:20px 22px;border:1px solid var(--line);border-radius:16px;background:#fff}header{position:sticky;z-index:2;top:0;margin-bottom:22px;box-shadow:0 8px 24px #17332d12}h1{margin:3px 0 5px;font-size:clamp(1.4rem,4vw,2.1rem)}.eyebrow,.summary,footer{margin:0;color:var(--muted)}.eyebrow{font-size:.72rem;font-weight:800;letter-spacing:.12em}.message{display:flex;gap:10px;margin:12px 4px}.message.self{justify-content:flex-end}.message.system{justify-content:center}.avatar{position:relative;display:grid;width:34px;height:34px;flex:0 0 34px;place-items:center;overflow:hidden;margin-top:4px;border-radius:50%;color:#fff;background:#94a3b8;font-size:.78rem;font-weight:800}.avatar img{position:absolute;inset:0;width:100%;height:100%;object-fit:cover}.bubble{width:min(780px,90%);padding:10px 12px;border:1px solid var(--line);border-radius:12px;background:#fff}.self .bubble{border-color:#99f6e4;background:var(--self)}.system .bubble{width:min(680px,94%);border-style:dashed;color:var(--muted);background:#f8fafc}.meta{display:flex;flex-wrap:wrap;gap:8px;margin-bottom:4px;color:#7b8794;font-size:.72rem}.meta strong{color:#475569}.text,.kind,.coordinates{margin:0;white-space:pre-wrap;overflow-wrap:anywhere}.text{color:#111827}.kind{color:#64748b}.sticker{width:min(180px,100%);margin:10px 0 0}.sticker img{display:block;width:100%;max-height:180px;object-fit:contain}.media{display:grid;grid-template-columns:repeat(auto-fit,minmax(min(220px,100%),1fr));gap:8px;margin-top:10px}.media a{display:block}.media img{display:block;width:100%;max-height:620px;border-radius:10px;object-fit:contain;background:#e8efec}.attachments{display:grid;gap:5px;margin:10px 0 0;padding:9px 0 0;list-style:none;border-top:1px solid var(--line);font-size:.82rem}.attachments li{display:flex;flex-wrap:wrap;justify-content:space-between;gap:8px}.attachments a{color:var(--accent-strong);font-weight:700;overflow-wrap:anywhere}.attachments span{color:var(--muted)}footer{margin-top:24px;text-align:center;font-size:.82rem}@media(max-width:560px){body{padding:10px 8px 28px}header{padding:15px;top:0}.bubble{width:96%}}
"#;

/// The end of an archived conversation page, with the script that shows
/// message times.
pub const EXPORT_END: &'static str = r#"</main><footer>由 LINE Cheater 匯出。附件與頭像保存在同一個 ZIP 檔內。</footer>
<script>
for (const node of document.querySelectorAll('time[data-line-timestamp]')) {
  let value = Number(node.dataset.lineTimestamp);
  if (!Number.isFinite(value) || value === 0) { node.textContent = '時間不明'; continue; }
  if (Math.abs(value) < 100000000000) {
    if (value > -978307200 && value < 1200000000) value += 978307200;
    value *= 1000;
  }
  const date = new Date(value);
  node.textContent = Number.isNaN(date.valueOf()) ? '時間不明' : date.toLocaleString();
}
</script></body></html>"#;

/// The HTML escape of one character.
pub open spec fn html_char(c: char) -> Seq<char> {
    if c == '&' {
        "&amp;"@
    } else if c == '<' {
        "&lt;"@
    } else if c == '>' {
        "&gt;"@
    } else if c == '"' {
        "&quot;"@
    } else if c == '\'' {
        "&#39;"@
    } else {
        seq![c]
    }
}

/// `s` safe to place in HTML text and attribute values.
pub open spec fn html_escaped(s: Seq<char>) -> Seq<char> {
    text::flat_map_chars(s, |c: char| html_char(c))
}

/// Escapes `value` for HTML: `&`, `<`, `>`, `"` and `'` become entities.
/// `lemma_escaped_html_is_inert` shows that no raw `<`, `>`, `"` or `'`
/// remains, and `lemma_unescape_gives_back_escaped` that reading the
/// entities back gives `value`.
pub fn escape_html(value: &str) -> (r: String)
    ensures
        r@ == html_escaped(value@),
{
    let v = text::chars_of(value);
    let mut out: Vec<char> = Vec::new();
    let mut i: usize = 0;
    while i < v.len()
        invariant
            i <= v.len(),
            out@ == html_escaped(v@.take(i as int)),
        decreases v.len() - i,
    {
        let c = v[i];
        assert(v@.take(i + 1).drop_last() =~= v@.take(i as int));
        assert(v@.take(i + 1).last() == c);
        let ghost before = out@;
        if c == '&' {
            text::append_str(&mut out, "&amp;");
        } else if c == '<' {
            text::append_str(&mut out, "&lt;");
        } else if c == '>' {
            text::append_str(&mut out, "&gt;");
        } else if c == '"' {
            text::append_str(&mut out, "&quot;");
        } else if c == '\'' {
            text::append_str(&mut out, "&#39;");
        } else {
            out.push(c);
        }
        assert(out@ =~= before + html_char(c));
        i = i + 1;
    }
    assert(v@.take(v.len() as int) =~= v@);
    text::string_of(&out)
}

/// The label of a chat kind.
pub open spec fn chat_kind_text(kind: Seq<char>) -> Seq<char> {
    if kind == "direct"@ {
        "個人聊天室"@
    } else if kind == "group"@ {
        "群組聊天室"@
    } else if kind == "community"@ {
        "社群"@
    } else {
        "聊天室"@
    }
}

/// Law: each chat kind has its own label, and every kind but direct,
/// group and community reads as a plain chat room.
pub proof fn lemma_chat_kind_labels(kind: Seq<char>)
    ensures
        chat_kind_text(kind) == "個人聊天室"@ <==> kind == "direct"@,
        chat_kind_text(kind) == "群組聊天室"@ <==> kind == "group"@,
        chat_kind_text(kind) == "社群"@ <==> kind == "community"@,
        chat_kind_text(kind) == "聊天室"@ <==> !(kind == "direct"@ || kind == "group"@ || kind
            == "community"@),
{
    reveal_strlit("個人聊天室");
    reveal_strlit("群組聊天室");
    reveal_strlit("社群");
    reveal_strlit("聊天室");
    assert("個人聊天室"@.len() == 5 && "群組聊天室"@.len() == 5 && "社群"@.len() == 2 && "聊天室"@.len() == 3);
    assert("個人聊天室"@[0] != "群組聊天室"@[0]);
    reveal_strlit("direct");
    reveal_strlit("group");
    reveal_strlit("community");
    assert("direct"@.len() == 6 && "group"@.len() == 5 && "community"@.len() == 9);
}

/// Names a chat kind for readers.
pub fn chat_kind_label(kind: &str) -> (r: &'static str)
    ensures
        r@ == chat_kind_text(kind@),
{
    let k = text::chars_of(kind);
    if text::eq_str(&k, "direct") {
        "個人聊天室"
    } else if text::eq_str(&k, "group") {
        "群組聊天室"
    } else if text::eq_str(&k, "community") {
        "社群"
    } else {
        "聊天室"
    }
}

/// The label of a message's content.
pub open spec fn content_text(content_type: Option<i64>, sticker: bool) -> Seq<char> {
    if sticker {
        "貼圖"@
    } else {
        match content_type {
            Some(t) => if t == 1 || t == 16 || t == 112 {
                "照片"@
            } else if t == 2 || t == 17 {
                "影片"@
            } else if t == 3 {
                "語音"@
            } else if t == 4 || t == 14 {
                "檔案"@
            } else if t == 5 || t == 101 {
                "貼圖"@
            } else if t == 7 || t == 18 || t == 96 || t == 111 {
                "系統訊息"@
            } else if t == 100 {
                "位置"@
            } else if t == 107 {
                "連結"@
            } else {
                "附件"@
            },
            None => "附件"@,
        }
    }
}

/// Law: a message without text that is no legacy sticker is labelled by
/// its content type: photos (1, 16, 112), videos (2, 17), voice (3), files
/// (4, 14), stickers (5, 101), system messages (7, 18, 96, 111), location
/// (100), links (107), and any other or no type as an attachment; each
/// label names exactly those types. A legacy sticker is always a sticker.
pub proof fn lemma_content_labels_by_type(content_type: Option<i64>)
    ensures
        content_text(content_type, true) == "貼圖"@,
        content_text(content_type, false) == "照片"@ <==> (content_type matches Some(t) && (t == 1 || t == 16
            || t == 112)),
        content_text(content_type, false) == "影片"@ <==> (content_type matches Some(t) && (t == 2 || t
            == 17)),
        content_text(content_type, false) == "語音"@ <==> content_type == Some(3i64),
        content_text(content_type, false) == "檔案"@ <==> (content_type matches Some(t) && (t == 4 || t
            == 14)),
        content_text(content_type, false) == "貼圖"@ <==> (content_type matches Some(t) && (t == 5 || t
            == 101)),
        content_text(content_type, false) == "系統訊息"@ <==> (content_type matches Some(t) && (t == 7 || t
            == 18 || t == 96 || t == 111)),
        content_text(content_type, false) == "位置"@ <==> content_type == Some(100i64),
        content_text(content_type, false) == "連結"@ <==> content_type == Some(107i64),
        content_text(content_type, false) == "附件"@ <==> !(content_type matches Some(t) && (t == 1 || t
            == 16 || t == 112 || t == 2 || t == 17 || t == 3 || t == 4 || t == 14 || t == 5 || t == 101
            || t == 7 || t == 18 || t == 96 || t == 111 || t == 100 || t == 107)),
{
    reveal_strlit("照片");
    reveal_strlit("影片");
    reveal_strlit("語音");
    reveal_strlit("檔案");
    reveal_strlit("貼圖");
    reveal_strlit("系統訊息");
    reveal_strlit("位置");
    reveal_strlit("連結");
    reveal_strlit("附件");
    let labels = seq!["照片"@, "影片"@, "語音"@, "檔案"@, "貼圖"@, "系統訊息"@, "位置"@, "連結"@, "附件"@];
    assert forall|a: int, b: int| 0 <= a < b < 9 implies labels[a] != labels[b] by {
        if labels[a].len() == labels[b].len() {
            assert(labels[a][0] != labels[b][0] || labels[a][1] != labels[b][1]);
        }
    }
    assert(labels[0] == "照片"@ && labels[1] == "影片"@ && labels[2] == "語音"@ && labels[3] == "檔案"@);
    assert(labels[4] == "貼圖"@ && labels[5] == "系統訊息"@ && labels[6] == "位置"@ && labels[7] == "連結"@);
    assert(labels[8] == "附件"@);
}

/// Names what a message without text holds; `sticker` tells that the
/// message is a legacy sticker.
pub fn content_label(content_type: Option<i64>, sticker: bool) -> (r: &'static str)
    ensures
        r@ == content_text(content_type, sticker),
{
    if sticker {
        return "貼圖";
    }
    match content_type {
        Some(t) => {
            if t == 1 || t == 16 || t == 112 {
                "照片"
            } else if t == 2 || t == 17 {
                "影片"
            } else if t == 3 {
                "語音"
            } else if t == 4 || t == 14 {
                "檔案"
            } else if t == 5 || t == 101 {
                "貼圖"
            } else if t == 7 || t == 18 || t == 96 || t == 111 {
                "系統訊息"
            } else if t == 100 {
                "位置"
            } else if t == 107 {
                "連結"
            } else {
                "附件"
            }
        },
        None => "附件",
    }
}

/// Whether an archived message is shown as a system message: it is no
/// legacy sticker, and it has a system content type or is a sender-less,
/// status-0, id-less row.
pub fn is_system_message(
    content_type: Option<i64>,
    sender_pk: Option<i64>,
    send_status: Option<i64>,
    id: &str,
    sticker: bool,
) -> (r: bool)
    ensures
        r == (!sticker && crate::chats::system_message(content_type, sender_pk, send_status, id@)),
{
    let system = match content_type {
        Some(t) => t == 7 || t == 18 || t == 96 || t == 111,
        None => false,
    } || (sender_pk.is_none() && send_status == Some(0i64) && text::chars_of(id).len() == 0);
    !sticker && system
}

/// Whether a message shows images: an image content type, or an
/// attachment whose name ends with an image extension.
pub open spec fn image_content(content_type: Option<i64>, paths: Seq<Seq<char>>) -> bool {
    (content_type matches Some(t) && (t == 1 || t == 16 || t == 112)) || exists|i: int|
        0 <= i < paths.len() && image_path(#[trigger] paths[i])
}

/// A path that ends with an image extension, in any letter case.
pub open spec fn image_path(p: Seq<char>) -> bool {
    let l = text::lower_ascii(p);
    text::ends_with(l, ".jpg"@) || text::ends_with(l, ".jpeg"@) || text::ends_with(l, ".png"@)
        || text::ends_with(l, ".gif"@) || text::ends_with(l, ".webp"@) || text::ends_with(l, ".bmp"@)
        || text::ends_with(l, ".avif"@) || text::ends_with(l, ".heic"@) || text::ends_with(
        l,
        ".thumb"@,
    )
}

fn is_image_path(p: &str) -> (r: bool)
    ensures
        r == image_path(p@),
{
    let l = text::to_lower_ascii(&text::chars_of(p));
    text::has_suffix(&l, &text::chars_of(".jpg")) || text::has_suffix(&l, &text::chars_of(".jpeg"))
        || text::has_suffix(&l, &text::chars_of(".png")) || text::has_suffix(
        &l,
        &text::chars_of(".gif"),
    ) || text::has_suffix(&l, &text::chars_of(".webp")) || text::has_suffix(
        &l,
        &text::chars_of(".bmp"),
    ) || text::has_suffix(&l, &text::chars_of(".avif")) || text::has_suffix(
        &l,
        &text::chars_of(".heic"),
    ) || text::has_suffix(&l, &text::chars_of(".thumb"))
}

/// An extension the archive keeps: one to twelve ASCII letters or digits.
pub open spec fn safe_extension(e: Seq<char>) -> bool {
    0 < e.len() <= 12 && forall|i: int| 0 <= i < e.len() ==> text::is_alphanumeric_ascii(#[trigger] e[i])
}

/// The extension an archived attachment keeps: its own in lowercase when
/// that is safe, else `bin`.
pub open spec fn archive_extension(path: Seq<char>) -> Seq<char> {
    match paths::extension_of(path_file_name(path)) {
        Some(ext) => if safe_extension(text::lower_ascii(ext)) {
            text::lower_ascii(ext)
        } else {
            "bin"@
        },
        None => "bin"@,
    }
}

/// The archive name of an attachment: the digest of its source path, with
/// its extension.
pub open spec fn attachment_entry(path: Seq<char>) -> Seq<char> {
    "attachments/"@ + hex(sha256(utf8(path))) + "."@ + archive_extension(path)
}

fn extension_for(path: &str) -> (r: Vec<char>)
    ensures
        r@ == archive_extension(path@),
{
    let name = crate::candidate::file_name_of(path);
    match text::rfind_char(&name, '.') {
        Some(k) => {
            if k == 0 {
                return text::chars_of("bin");
            }
            let ext = text::to_lower_ascii(&text::slice(&name, k + 1, name.len()));
            let mut ok = ext.len() > 0 && ext.len() <= 12;
            let mut i: usize = 0;
            while i < ext.len()
                invariant
                    i <= ext.len(),
                    ok ==> 0 < ext@.len() <= 12,
                    ok ==> forall|j: int| 0 <= j < i ==> text::is_alphanumeric_ascii(#[trigger] ext@[j]),
                    !ok ==> !safe_extension(ext@),
                decreases ext.len() - i,
            {
                if !text::char_is_alphanumeric_ascii(ext[i]) {
                    ok = false;
                }
                i = i + 1;
            }
            if ok {
                ext
            } else {
                text::chars_of("bin")
            }
        },
        None => text::chars_of("bin"),
    }
}

/// Names an attachment inside the archive: `attachments/`, the SHA-256 of
/// its source path in hexadecimal, and its extension.
pub fn attachment_entry_name(source_path: &str) -> (r: String)
    ensures
        r@ == attachment_entry(source_path@),
{
    let mut bytes: Vec<u8> = Vec::new();
    crate::digest::push_str_bytes(&mut bytes, source_path);
    assert(bytes@ =~= utf8(source_path@));
    let digest = sha256_hex(&bytes);
    let mut v = text::chars_of("attachments/");
    text::append_str(&mut v, digest.as_str());
    v.push('.');
    text::append(&mut v, &extension_for(source_path));
    proof {
        reveal_strlit(".");
    }
    assert(v@ =~= attachment_entry(source_path@));
    text::string_of(&v)
}

/// Names an avatar inside the archive: `avatars/`, the SHA-256 of its URL
/// in hexadecimal, and the given extension.
pub fn avatar_entry_name(avatar_url: &str, extension: &str) -> (r: String)
    ensures
        r@ == "avatars/"@ + hex(sha256(utf8(avatar_url@))) + "."@ + extension@,
{
    let mut bytes: Vec<u8> = Vec::new();
    crate::digest::push_str_bytes(&mut bytes, avatar_url);
    assert(bytes@ =~= utf8(avatar_url@));
    let digest = sha256_hex(&bytes);
    let mut v = text::chars_of("avatars/");
    text::append_str(&mut v, digest.as_str());
    v.push('.');
    text::append_str(&mut v, extension);
    proof {
        reveal_strlit(".");
    }
    assert(v@ =~= "avatars/"@ + hex(sha256(utf8(avatar_url@))) + "."@ + extension@);
    text::string_of(&v)
}

/// The page start of an archived conversation.
pub open spec fn html_start_text(chat: Chat) -> Seq<char> {
    "<!doctype html><html lang=\"zh-Hant\"><head><meta charset=\"utf-8\"><meta name=\"viewport\" content=\"width=device-width,initial-scale=1\"><meta http-equiv=\"Content-Security-Policy\" content=\"default-src 'none'; img-src 'self' file: data: https://stickershop.line-scdn.net; media-src 'self' file:; style-src 'unsafe-inline'; script-src 'unsafe-inline'\"><title>"@
        + html_escaped(chat.title@) + "</title><style>"@ + EXPORT_STYLES@
        + "</style></head><body><header><p class=\"eyebrow\">LINE 討論串封存</p><h1>"@
        + html_escaped(chat.title@) + "</h1><p class=\"summary\">"@ + html_escaped(
        chat_kind_text(chat.kind@),
    ) + " · 共 "@ + text::decimal_int(if chat.message_count < 0 { 0 } else { chat.message_count as int })
        + " 則訊息 · 完整內容由最早到最新排列</p></header><main aria-label=\"討論串內容\">"@
}

/// The HTML that opens an archived conversation: its title, style, and
/// the header with the chat's kind and message count.
pub fn html_start(chat: &Chat) -> (r: String)
    ensures
        r@ == html_start_text(*chat),
{
    let title = escape_html(chat.title.as_str());
    let mut v = text::chars_of(
        "<!doctype html><html lang=\"zh-Hant\"><head><meta charset=\"utf-8\"><meta name=\"viewport\" content=\"width=device-width,initial-scale=1\"><meta http-equiv=\"Content-Security-Policy\" content=\"default-src 'none'; img-src 'self' file: data: https://stickershop.line-scdn.net; media-src 'self' file:; style-src 'unsafe-inline'; script-src 'unsafe-inline'\"><title>",
    );
    text::append_str(&mut v, title.as_str());
    text::append_str(&mut v, "</title><style>");
    text::append_str(&mut v, EXPORT_STYLES);
    text::append_str(&mut v, "</style></head><body><header><p class=\"eyebrow\">LINE 討論串封存</p><h1>");
    text::append_str(&mut v, title.as_str());
    text::append_str(&mut v, "</h1><p class=\"summary\">");
    text::append_str(&mut v, escape_html(chat_kind_label(chat.kind.as_str())).as_str());
    text::append_str(&mut v, " · 共 ");
    let count: i64 = if chat.message_count < 0 {
        0
    } else {
        chat.message_count
    };
    text::push_decimal_i64(&mut v, count);
    text::append_str(&mut v, " 則訊息 · 完整內容由最早到最新排列</p></header><main aria-label=\"討論串內容\">");
    assert(v@ =~= html_start_text(*chat));
    text::string_of(&v)
}

/// The HTML that closes an archived conversation.
pub fn html_end() -> (r: String)
    ensures
        r@ == EXPORT_END@,
{
    text::to_string(EXPORT_END)
}

/// The images an archived message shows: its original attachments, or all
/// when it has none, when the message shows images; at most twelve.
pub open spec fn preview_paths(content_type: Option<i64>, attachments: Seq<MessageAttachment>) -> Seq<Seq<char>> {
    let originals = originals_of(attachments);
    let chosen = if originals.len() == 0 {
        attachments.map_values(|a: MessageAttachment| a.path@)
    } else {
        originals
    };
    if !image_content(content_type, chosen) {
        seq![]
    } else if chosen.len() > 12 {
        chosen.take(12)
    } else {
        chosen
    }
}

/// The paths of the original attachments, in order.
pub open spec fn originals_of(attachments: Seq<MessageAttachment>) -> Seq<Seq<char>>
    decreases attachments.len(),
{
    if attachments.len() == 0 {
        seq![]
    } else {
        let prev = originals_of(attachments.drop_last());
        if attachments.last().kind == AttachmentKind::Original {
            prev.push(attachments.last().path@)
        } else {
            prev
        }
    }
}

/// Picks the attachments an archived message shows as images.
pub fn preview_attachment_paths(content_type: Option<i64>, attachments: &Vec<MessageAttachment>) -> (r: Vec<
    String,
>)
    ensures
        crate::source::string_views(r@) == preview_paths(content_type, attachments@),
{
    let mut originals: Vec<String> = Vec::new();
    let mut all: Vec<String> = Vec::new();
    let mut i: usize = 0;
    while i < attachments.len()
        invariant
            i <= attachments.len(),
            crate::source::string_views(originals@) == originals_of(attachments@.take(i as int)),
            crate::source::string_views(all@) == attachments@.take(i as int).map_values(
                |a: MessageAttachment| a.path@,
            ),
        decreases attachments.len() - i,
    {
        assert(attachments@.take(i + 1).drop_last() =~= attachments@.take(i as int));
        assert(attachments@.take(i + 1).last() == attachments@[i as int]);
        let a = &attachments[i];
        let ghost o0 = crate::source::string_views(originals@);
        let ghost a0 = crate::source::string_views(all@);
        match a.kind {
            AttachmentKind::Original => {
                originals.push(a.path.clone());
                assert(crate::source::string_views(originals@) =~= o0.push(a.path@));
            },
            AttachmentKind::Thumbnail => {},
        }
        all.push(a.path.clone());
        assert(crate::source::string_views(all@) =~= a0.push(a.path@));
        assert(attachments@.take(i + 1).map_values(|a: MessageAttachment| a.path@) =~= attachments@.take(
            i as int,
        ).map_values(|a: MessageAttachment| a.path@).push(a.path@));
        i = i + 1;
    }
    assert(attachments@.take(attachments.len() as int) =~= attachments@);
    let chosen = if originals.len() == 0 {
        all
    } else {
        originals
    };
    let ghost cv = crate::source::string_views(chosen@);
    let image_type = match content_type {
        Some(t) => t == 1 || t == 16 || t == 112,
        None => false,
    };
    let mut any_image = false;
    let mut j: usize = 0;
    while j < chosen.len()
        invariant
            j <= chosen.len(),
            cv == crate::source::string_views(chosen@),
            any_image == exists|k: int| 0 <= k < j && image_path(#[trigger] cv[k]),
        decreases chosen.len() - j,
    {
        if is_image_path(chosen[j].as_str()) {
            assert(image_path(cv[j as int]));
            any_image = true;
        }
        j = j + 1;
    }
    if !image_type && !any_image {
        return Vec::new();
    }
    let mut out = chosen;
    if out.len() > 12 {
        out.truncate(12);
        assert(crate::source::string_views(out@) =~= cv.take(12));
    }
    out
}

/// Every character of `s` is ASCII.
pub open spec fn ascii_text(s: Seq<char>) -> bool {
    forall|i: int| 0 <= i < s.len() ==> (#[trigger] s[i] as u32) < 128
}

/// Escaped text holds no markup: no `<`, `>`, `"` or `'` survives, so it
/// can open no tag and close no attribute.
pub proof fn lemma_escaped_html_is_inert(s: Seq<char>)
    ensures
        forall|i: int|
            0 <= i < html_escaped(s).len() ==> {
                let c = #[trigger] html_escaped(s)[i];
                c != '<' && c != '>' && c != '"' && c != '\''
            },
    decreases s.len(),
{
    if s.len() > 0 {
        lemma_escaped_html_is_inert(s.drop_last());
        let prev = html_escaped(s.drop_last());
        let step = html_char(s.last());
        assert(html_escaped(s) == prev + step);
        reveal_strlit("&amp;");
        reveal_strlit("&lt;");
        reveal_strlit("&gt;");
        reveal_strlit("&quot;");
        reveal_strlit("&#39;");
        assert forall|i: int| 0 <= i < html_escaped(s).len() implies {
            let c = #[trigger] html_escaped(s)[i];
            c != '<' && c != '>' && c != '"' && c != '\''
        } by {
            if i >= prev.len() {
                assert(html_escaped(s)[i] == step[i - prev.len()]);
            } else {
                assert(html_escaped(s)[i] == prev[i]);
            }
        }
    }
}

/// Reading HTML entities back, left to right: `&amp;`, `&lt;`, `&gt;`,
/// `&quot;` and `&#39;` each stand for their character; any other
/// character stands for itself.
pub open spec fn html_unescaped(s: Seq<char>) -> Seq<char>
    decreases s.len(),
{
    if s.len() == 0 {
        Seq::empty()
    } else if s[0] != '&' {
        seq![s[0]] + html_unescaped(s.skip(1))
    } else if s.len() >= 5 && s.take(5) == "&amp;"@ {
        seq!['&'] + html_unescaped(s.skip(5))
    } else if s.len() >= 4 && s.take(4) == "&lt;"@ {
        seq!['<'] + html_unescaped(s.skip(4))
    } else if s.len() >= 4 && s.take(4) == "&gt;"@ {
        seq!['>'] + html_unescaped(s.skip(4))
    } else if s.len() >= 6 && s.take(6) == "&quot;"@ {
        seq!['"'] + html_unescaped(s.skip(6))
    } else if s.len() >= 5 && s.take(5) == "&#39;"@ {
        seq!['\''] + html_unescaped(s.skip(5))
    } else {
        seq![s[0]] + html_unescaped(s.skip(1))
    }
}

proof fn lemma_escaped_prepend(c: char, r: Seq<char>)
    ensures
        html_escaped(seq![c] + r) == html_char(c) + html_escaped(r),
    decreases r.len(),
{
    if r.len() == 0 {
        assert(seq![c] + r =~= seq![c]);
        assert(seq![c].drop_last() =~= Seq::<char>::empty());
        assert(html_escaped(seq![c]) == html_escaped(Seq::<char>::empty()) + html_char(c));
        assert(html_char(c) + html_escaped(r) =~= html_char(c));
        assert(Seq::<char>::empty() + html_char(c) =~= html_char(c));
    } else {
        lemma_escaped_prepend(c, r.drop_last());
        assert((seq![c] + r).drop_last() =~= seq![c] + r.drop_last());
        assert((seq![c] + r).last() == r.last());
        assert(html_escaped(seq![c] + r) == html_escaped(seq![c] + r.drop_last()) + html_char(r.last()));
        assert(html_escaped(r) == html_escaped(r.drop_last()) + html_char(r.last()));
        assert(html_char(c) + html_escaped(r.drop_last()) + html_char(r.last()) =~= html_char(c) + (
        html_escaped(r.drop_last()) + html_char(r.last())));
    }
}

/// Escaping loses nothing: reading the entities back gives the text that
/// was escaped.
pub proof fn lemma_unescape_gives_back_escaped(s: Seq<char>)
    ensures
        html_unescaped(html_escaped(s)) == s,
    decreases s.len(),
{
    if s.len() > 0 {
        let c = s[0];
        let r = s.skip(1);
        assert(s =~= seq![c] + r);
        lemma_escaped_prepend(c, r);
        lemma_unescape_gives_back_escaped(r);
        let e = html_escaped(r);
        let x = html_char(c) + e;
        assert(html_escaped(s) == x);
        reveal_strlit("&amp;");
        reveal_strlit("&lt;");
        reveal_strlit("&gt;");
        reveal_strlit("&quot;");
        reveal_strlit("&#39;");
        let k = html_char(c).len() as int;
        assert(x.take(k) =~= html_char(c));
        assert(x.skip(k) =~= e);
        if c == '&' {
            assert(x.take(5) =~= "&amp;"@);
        } else if c == '<' {
            assert(x[0] == '&' && x[1] == 'l');
            assert(!(x.len() >= 5 && x.take(5) == "&amp;"@)) by { if x.len() >= 5 { assert(x.take(5)[1] == x[1]); assert(x[1] == html_char(c)[1]); } }
            assert(x.take(4) =~= "&lt;"@);
        } else if c == '>' {
            assert(!(x.len() >= 5 && x.take(5) == "&amp;"@)) by { if x.len() >= 5 { assert(x.take(5)[1] == x[1]); assert(x[1] == html_char(c)[1]); } }
            assert(!(x.len() >= 4 && x.take(4) == "&lt;"@)) by { if x.len() >= 4 { assert(x.take(4)[1] == x[1]); assert(x[1] == html_char(c)[1]); } }
            assert(x.take(4) =~= "&gt;"@);
        } else if c == '"' {
            assert(!(x.len() >= 5 && x.take(5) == "&amp;"@)) by { if x.len() >= 5 { assert(x.take(5)[1] == x[1]); assert(x[1] == html_char(c)[1]); } }
            assert(!(x.len() >= 4 && x.take(4) == "&lt;"@)) by { if x.len() >= 4 { assert(x.take(4)[1] == x[1]); assert(x[1] == html_char(c)[1]); } }
            assert(!(x.len() >= 4 && x.take(4) == "&gt;"@)) by { if x.len() >= 4 { assert(x.take(4)[1] == x[1]); assert(x[1] == html_char(c)[1]); } }
            assert(x.take(6) =~= "&quot;"@);
        } else if c == '\'' {
            assert(!(x.len() >= 5 && x.take(5) == "&amp;"@)) by { if x.len() >= 5 { assert(x.take(5)[1] == x[1]); assert(x[1] == html_char(c)[1]); } }
            assert(!(x.len() >= 4 && x.take(4) == "&lt;"@)) by { if x.len() >= 4 { assert(x.take(4)[1] == x[1]); assert(x[1] == html_char(c)[1]); } }
            assert(!(x.len() >= 4 && x.take(4) == "&gt;"@)) by { if x.len() >= 4 { assert(x.take(4)[1] == x[1]); assert(x[1] == html_char(c)[1]); } }
            assert(!(x.len() >= 6 && x.take(6) == "&quot;"@)) by { if x.len() >= 6 { assert(x.take(6)[1] == x[1]); assert(x[1] == html_char(c)[1]); } }
            assert(x.take(5) =~= "&#39;"@);
        } else {
            assert(x[0] == c);
        }
    }
}

proof fn lemma_hex_is_ascii(bytes: Seq<u8>)
    ensures
        ascii_text(hex(bytes)),
    decreases bytes.len(),
{
    if bytes.len() > 0 {
        lemma_hex_is_ascii(bytes.drop_last());
        let prev = hex(bytes.drop_last());
        let hi = crate::digest::hex_digit((bytes.last() / 16) as nat);
        let lo = crate::digest::hex_digit((bytes.last() % 16) as nat);
        assert(hex(bytes) == prev + seq![hi, lo]);
        assert((hi as u32) < 128 && (lo as u32) < 128);
        assert forall|i: int| 0 <= i < hex(bytes).len() implies (#[trigger] hex(bytes)[i] as u32) < 128 by {
            if i < prev.len() {
                assert(hex(bytes)[i] == prev[i]);
            }
        }
    }
}

/// The archive name of every attachment is plain ASCII, whatever its
/// source path holds, and starts with `attachments/`.
pub proof fn lemma_attachment_entry_is_ascii(path: Seq<char>)
    ensures
        ascii_text(attachment_entry(path)),
        attachment_entry(path).take(12) == "attachments/"@,
{
    let digest = hex(sha256(utf8(path)));
    lemma_hex_is_ascii(sha256(utf8(path)));
    let ext = archive_extension(path);
    reveal_strlit("attachments/");
    reveal_strlit(".");
    reveal_strlit("bin");
    assert(ascii_text(ext)) by {
        match paths::extension_of(path_file_name(path)) {
            Some(e) => {
                if safe_extension(text::lower_ascii(e)) {
                    assert forall|i: int| 0 <= i < ext.len() implies (#[trigger] ext[i] as u32) < 128 by {
                        assert(text::is_alphanumeric_ascii(ext[i]));
                    }
                }
            },
            None => {},
        }
    }
    let whole = attachment_entry(path);
    let head = "attachments/"@ + digest;
    assert(whole == head + "."@ + ext);
    assert forall|i: int| 0 <= i < whole.len() implies (#[trigger] whole[i] as u32) < 128 by {
        if i < 12 {
            assert(whole[i] == "attachments/"@[i]);
        } else if i < head.len() {
            assert(whole[i] == digest[i - 12]);
        } else if i == head.len() {
            assert(whole[i] == '.');
        } else {
            assert(whole[i] == ext[i - head.len() - 1]);
        }
    }
    assert(whole.take(12) =~= "attachments/"@);
}


// ---------------------------------------------------------------------
// One archived message
// ---------------------------------------------------------------------

/// A message as the archive shows it. What rests on floating point comes
/// in as text or a number: the legacy sticker id read from the location
/// fields, the coordinates to show (only when the message is no sticker
/// and its location is not zero), and each attachment's size label.
#[derive(Debug, Clone)]
pub struct ArchivedMessage {
    pub pk: i64,
    pub timestamp: i64,
    pub sender_pk: Option<i64>,
    pub sender_name: String,
    pub is_self: bool,
    pub send_status: Option<i64>,
    pub content_type: Option<i64>,
    pub id: String,
    pub text: String,
    pub sticker_id: Option<u64>,
    pub coordinates: Option<String>,
    pub attachments: Vec<MessageAttachment>,
    pub attachment_sizes: Vec<String>,
}

/// The message is shown as a system message.
pub open spec fn archived_system(m: ArchivedMessage) -> bool {
    m.sticker_id is None && crate::chats::system_message(m.content_type, m.sender_pk, m.send_status, m.id@)
}

/// The class of the message's `article`.
pub open spec fn message_class(m: ArchivedMessage) -> Seq<char> {
    if archived_system(m) {
        "message system"@
    } else if m.is_self {
        "message self"@
    } else {
        "message"@
    }
}

/// Who the message is shown as from.
pub open spec fn message_sender(m: ArchivedMessage) -> Seq<char> {
    if archived_system(m) {
        "系統"@
    } else if m.is_self {
        "我"@
    } else if m.sender_name@.len() == 0 {
        "未知使用者"@
    } else {
        m.sender_name@
    }
}

/// The first character of `s`, or `?`.
pub open spec fn initial_of(s: Seq<char>) -> Seq<char> {
    if s.len() > 0 {
        seq![s[0]]
    } else {
        "?"@
    }
}

/// The avatar shown beside a message of someone else: the sender's
/// initial and, when there is one, the archived avatar image.
pub open spec fn avatar_html(m: ArchivedMessage, avatar_entry: Option<Seq<char>>) -> Seq<char> {
    if !archived_system(m) && !m.is_self {
        "<span class=\"avatar\" aria-hidden=\"true\"><span>"@ + html_escaped(initial_of(message_sender(m)))
            + "</span>"@ + match avatar_entry {
            Some(e) => "<img src=\""@ + html_escaped(e) + "\" alt=\"\">"@,
            None => Seq::<char>::empty(),
        } + "</span>"@
    } else {
        Seq::empty()
    }
}

/// The message's text, or what it holds when it has none.
pub open spec fn body_html(m: ArchivedMessage) -> Seq<char> {
    if m.text@.len() == 0 {
        "<p class=\"kind\">["@ + html_escaped(content_text(m.content_type, m.sticker_id is Some)) + "]</p>"@
    } else {
        "<p class=\"text\">"@ + html_escaped(m.text@) + "</p>"@
    }
}

/// The sticker image of a legacy sticker, else the coordinates.
pub open spec fn extra_html(m: ArchivedMessage) -> Seq<char> {
    match m.sticker_id {
        Some(id) => "<figure class=\"sticker\"><img loading=\"lazy\" src=\"https://stickershop.line-scdn.net/stickershop/v1/sticker/"@
            + text::decimal(id as nat) + "/iPhone/sticker_animation@2x.png\" alt=\"LINE 貼圖 "@ + text::decimal(
            id as nat,
        ) + "\"></figure>"@,
        None => match m.coordinates {
            Some(c) => "<p class=\"coordinates\">位置："@ + c@ + "</p>"@,
            None => Seq::empty(),
        },
    }
}

/// The file name an attachment is shown under.
pub open spec fn shown_file_name(path: Seq<char>) -> Seq<char> {
    let last = text::split(paths::slashed(path), '/').last();
    if last.len() > 0 {
        last
    } else {
        "未命名附件"@
    }
}

/// One image preview, linking to the archived file.
pub open spec fn preview_item(path: Seq<char>) -> Seq<char> {
    "<a href=\""@ + attachment_entry(path) + "\" target=\"_blank\"><img loading=\"lazy\" src=\""@
        + attachment_entry(path) + "\" alt=\""@ + html_escaped(shown_file_name(path)) + "\"></a>"@
}

/// The previews of `paths`, in order.
pub open spec fn preview_items(paths: Seq<Seq<char>>) -> Seq<char>
    decreases paths.len(),
{
    if paths.len() == 0 {
        Seq::empty()
    } else {
        preview_items(paths.drop_last()) + preview_item(paths.last())
    }
}

/// The image previews of a message, when it shows images.
pub open spec fn media_html(m: ArchivedMessage) -> Seq<char> {
    let previews = preview_paths(m.content_type, m.attachments@);
    if (m.content_type matches Some(t) && (t == 1 || t == 16 || t == 112)) || previews.len() > 0 {
        "<div class=\"media\">"@ + preview_items(previews) + "</div>"@
    } else {
        Seq::empty()
    }
}

/// How an attachment is named in the list.
pub open spec fn attachment_kind_word(kind: AttachmentKind) -> Seq<char> {
    if kind == AttachmentKind::Thumbnail {
        "縮圖"@
    } else {
        "原始附件"@
    }
}

/// One entry of the attachment list.
pub open spec fn list_item(a: MessageAttachment, size: Seq<char>) -> Seq<char> {
    "<li><a href=\""@ + attachment_entry(a.path@) + "\" download>"@ + html_escaped(shown_file_name(a.path@))
        + "</a><span>"@ + attachment_kind_word(a.kind) + " · "@ + size + "</span></li>"@
}

/// The first `n` entries of the attachment list.
pub open spec fn list_items(atts: Seq<MessageAttachment>, sizes: Seq<String>, n: int) -> Seq<char>
    decreases n,
{
    if n <= 0 {
        Seq::empty()
    } else {
        list_items(atts, sizes, n - 1) + list_item(atts[n - 1], sizes[n - 1]@)
    }
}

/// The list of a message's attachments, when it has any.
pub open spec fn list_html(m: ArchivedMessage) -> Seq<char> {
    if m.attachments@.len() == 0 {
        Seq::empty()
    } else {
        "<ul class=\"attachments\">"@ + list_items(m.attachments@, m.attachment_sizes@, m.attachments@.len() as int)
            + "</ul>"@
    }
}

/// The HTML of one archived message.
pub open spec fn message_html_text(m: ArchivedMessage, avatar_entry: Option<Seq<char>>) -> Seq<char> {
    "<article class=\""@ + message_class(m) + "\" data-message-pk=\""@ + text::decimal_int(m.pk as int) + "\">"@
        + avatar_html(m, avatar_entry) + "<div class=\"bubble\"><div class=\"meta\"><strong>"@ + html_escaped(
        message_sender(m),
    ) + "</strong><time data-line-timestamp=\""@ + text::decimal_int(m.timestamp as int) + "\">"@
        + text::decimal_int(m.timestamp as int) + "</time></div>"@ + body_html(m) + extra_html(m) + media_html(m)
        + list_html(m) + "</div></article>"@
}

fn archived_is_system(m: &ArchivedMessage) -> (r: bool)
    ensures
        r == archived_system(*m),
{
    is_system_message(m.content_type, m.sender_pk, m.send_status, m.id.as_str(), m.sticker_id.is_some())
}

fn sender_of(m: &ArchivedMessage, system: bool) -> (r: Vec<char>)
    requires
        system == archived_system(*m),
    ensures
        r@ == message_sender(*m),
{
    if system {
        text::chars_of("系統")
    } else if m.is_self {
        text::chars_of("我")
    } else {
        let name = text::chars_of(m.sender_name.as_str());
        if name.len() == 0 {
            text::chars_of("未知使用者")
        } else {
            name
        }
    }
}

fn push_escaped(v: &mut Vec<char>, t: &str)
    ensures
        final(v)@ == old(v)@ + html_escaped(t@),
{
    let e = escape_html(t);
    text::append_str(v, e.as_str());
}

fn avatar_part(m: &ArchivedMessage, system: bool, sender: &Vec<char>, avatar_entry: Option<&str>) -> (r: Vec<
    char,
>)
    requires
        system == archived_system(*m),
        sender@ == message_sender(*m),
    ensures
        r@ == avatar_html(
            *m,
            match avatar_entry {
                Some(e) => Some(e@),
                None => None,
            },
        ),
{
    let mut v: Vec<char> = Vec::new();
    if !system && !m.is_self {
        text::append_str(&mut v, "<span class=\"avatar\" aria-hidden=\"true\"><span>");
        let initial: Vec<char> = if sender.len() > 0 {
            let mut one: Vec<char> = Vec::new();
            one.push(sender[0]);
            one
        } else {
            text::chars_of("?")
        };
        assert(initial@ =~= initial_of(sender@));
        let initial_text = text::string_of(&initial);
        push_escaped(&mut v, initial_text.as_str());
        text::append_str(&mut v, "</span>");
        match avatar_entry {
            Some(e) => {
                text::append_str(&mut v, "<img src=\"");
                push_escaped(&mut v, e);
                text::append_str(&mut v, "\" alt=\"\">");
            },
            None => {},
        }
        text::append_str(&mut v, "</span>");
    }
    v
}

fn body_part(m: &ArchivedMessage) -> (r: Vec<char>)
    ensures
        r@ == body_html(*m),
{
    let mut v: Vec<char> = Vec::new();
    if text::chars_of(m.text.as_str()).len() == 0 {
        text::append_str(&mut v, "<p class=\"kind\">[");
        push_escaped(&mut v, content_label(m.content_type, m.sticker_id.is_some()));
        text::append_str(&mut v, "]</p>");
    } else {
        text::append_str(&mut v, "<p class=\"text\">");
        push_escaped(&mut v, m.text.as_str());
        text::append_str(&mut v, "</p>");
    }
    v
}

fn extra_part(m: &ArchivedMessage) -> (r: Vec<char>)
    ensures
        r@ == extra_html(*m),
{
    let mut v: Vec<char> = Vec::new();
    match m.sticker_id {
        Some(id) => {
            text::append_str(
                &mut v,
                "<figure class=\"sticker\"><img loading=\"lazy\" src=\"https://stickershop.line-scdn.net/stickershop/v1/sticker/",
            );
            text::push_decimal(&mut v, id);
            text::append_str(&mut v, "/iPhone/sticker_animation@2x.png\" alt=\"LINE 貼圖 ");
            text::push_decimal(&mut v, id);
            text::append_str(&mut v, "\"></figure>");
        },
        None => match &m.coordinates {
            Some(c) => {
                text::append_str(&mut v, "<p class=\"coordinates\">位置：");
                text::append_str(&mut v, c.as_str());
                text::append_str(&mut v, "</p>");
            },
            None => {},
        },
    }
    v
}

fn push_shown_name(v: &mut Vec<char>, path: &str)
    ensures
        final(v)@ == old(v)@ + html_escaped(shown_file_name(path@)),
{
    let name = paths::file_name(path);
    push_escaped(v, name.as_str());
}

fn media_part(m: &ArchivedMessage) -> (r: Vec<char>)
    ensures
        r@ == media_html(*m),
{
    let previews = preview_attachment_paths(m.content_type, &m.attachments);
    let ghost ps = crate::source::string_views(previews@);
    let image_type = match m.content_type {
        Some(t) => t == 1 || t == 16 || t == 112,
        None => false,
    };
    let mut v: Vec<char> = Vec::new();
    if image_type || previews.len() > 0 {
        text::append_str(&mut v, "<div class=\"media\">");
        let ghost start = v@;
        let mut i: usize = 0;
        while i < previews.len()
            invariant
                i <= previews.len(),
                ps == crate::source::string_views(previews@),
                v@ == start + preview_items(ps.take(i as int)),
            decreases previews.len() - i,
        {
            let p = previews[i].as_str();
            assert(ps[i as int] == p@);
            assert(ps.take(i + 1).drop_last() =~= ps.take(i as int));
            assert(ps.take(i + 1).last() == p@);
            let entry = attachment_entry_name(p);
            let ghost before = v@;
            text::append_str(&mut v, "<a href=\"");
            text::append_str(&mut v, entry.as_str());
            text::append_str(&mut v, "\" target=\"_blank\"><img loading=\"lazy\" src=\"");
            text::append_str(&mut v, entry.as_str());
            text::append_str(&mut v, "\" alt=\"");
            push_shown_name(&mut v, p);
            text::append_str(&mut v, "\"></a>");
            assert(v@ =~= before + preview_item(p@));
            i = i + 1;
        }
        assert(ps.take(previews.len() as int) =~= ps);
        text::append_str(&mut v, "</div>");
    }
    assert(ps.len() == previews@.len());
    v
}

fn list_item_part(a: &MessageAttachment, size: &String) -> (r: Vec<char>)
    ensures
        r@ == list_item(*a, size@),
{
    let mut v: Vec<char> = Vec::new();
    let entry = attachment_entry_name(a.path.as_str());
    text::append_str(&mut v, "<li><a href=\"");
    text::append_str(&mut v, entry.as_str());
    text::append_str(&mut v, "\" download>");
    push_shown_name(&mut v, a.path.as_str());
    text::append_str(&mut v, "</a><span>");
    match a.kind {
        AttachmentKind::Thumbnail => text::append_str(&mut v, "縮圖"),
        AttachmentKind::Original => text::append_str(&mut v, "原始附件"),
    }
    text::append_str(&mut v, " · ");
    text::append_str(&mut v, size.as_str());
    text::append_str(&mut v, "</span></li>");
    assert(v@ =~= list_item(*a, size@));
    v
}

fn list_part(m: &ArchivedMessage) -> (r: Vec<char>)
    requires
        m.attachment_sizes@.len() == m.attachments@.len(),
    ensures
        r@ == list_html(*m),
{
    let mut v: Vec<char> = Vec::new();
    if m.attachments.len() > 0 {
        text::append_str(&mut v, "<ul class=\"attachments\">");
        let ghost start = v@;
        let mut i: usize = 0;
        while i < m.attachments.len()
            invariant
                i <= m.attachments.len(),
                m.attachment_sizes@.len() == m.attachments@.len(),
                v@ == start + list_items(m.attachments@, m.attachment_sizes@, i as int),
            decreases m.attachments.len() - i,
        {
            let a = &m.attachments[i];
            let ghost before = v@;
            let item = list_item_part(a, &m.attachment_sizes[i]);
            text::append(&mut v, &item);
            assert(v@ =~= before + list_item(*a, m.attachment_sizes@[i as int]@));
            i = i + 1;
        }
        text::append_str(&mut v, "</ul>");
    }
    v
}

/// Renders one archived message as HTML: its class, the avatar of
/// someone else's message, the escaped sender and time, the text or what
/// the message holds, the sticker or coordinates, the image previews and
/// the attachment list.
pub fn message_html(m: &ArchivedMessage, avatar_entry: Option<&str>) -> (r: String)
    requires
        m.attachment_sizes@.len() == m.attachments@.len(),
    ensures
        r@ == message_html_text(
            *m,
            match avatar_entry {
                Some(e) => Some(e@),
                None => None,
            },
        ),
{
    let system = archived_is_system(m);
    let sender = sender_of(m, system);
    let mut v = text::chars_of("<article class=\"");
    if system {
        text::append_str(&mut v, "message system");
    } else if m.is_self {
        text::append_str(&mut v, "message self");
    } else {
        text::append_str(&mut v, "message");
    }
    text::append_str(&mut v, "\" data-message-pk=\"");
    text::push_decimal_i64(&mut v, m.pk);
    text::append_str(&mut v, "\">");
    let avatar = avatar_part(m, system, &sender, avatar_entry);
    text::append(&mut v, &avatar);
    text::append_str(&mut v, "<div class=\"bubble\"><div class=\"meta\"><strong>");
    let sender_text = text::string_of(&sender);
    push_escaped(&mut v, sender_text.as_str());
    text::append_str(&mut v, "</strong><time data-line-timestamp=\"");
    text::push_decimal_i64(&mut v, m.timestamp);
    text::append_str(&mut v, "\">");
    text::push_decimal_i64(&mut v, m.timestamp);
    text::append_str(&mut v, "</time></div>");
    let body = body_part(m);
    text::append(&mut v, &body);
    let extra = extra_part(m);
    text::append(&mut v, &extra);
    let media = media_part(m);
    text::append(&mut v, &media);
    let list = list_part(m);
    text::append(&mut v, &list);
    text::append_str(&mut v, "</div></article>");
    assert(v@ =~= message_html_text(
        *m,
        match avatar_entry {
            Some(e) => Some(e@),
            None => None,
        },
    ));
    text::string_of(&v)
}
} // verus!
