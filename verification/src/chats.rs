//! Reading the LINE databases: how chats are named and classified, how
//! messages are told apart, and how keyset pages are cut from the rows a
//! query returns.

use vstd::prelude::*;

use crate::error::CoreError;
use crate::model::{checked_page_size, page_size_ok, AttachmentContext, Chat, ChatCursor, ChatPage};
use crate::order::text_lt;
use crate::text::{self, lowercase, unicode_lowercase};
use vstd::utf8::{decode_utf8, encode_utf8, is_char_boundary};

verus! {

broadcast use vstd::seq_lib::group_to_multiset_ensures;

/// The kind of a chat from its LINE chat type.
pub open spec fn chat_kind_name(chat_type: i64) -> Seq<char> {
    if chat_type == 0 {
        "direct"@
    } else if chat_type == 1 || chat_type == 2 || chat_type == 4 {
        "group"@
    } else if chat_type == 100 {
        "community"@
    } else {
        "unknown"@
    }
}

/// Law: chat type 0 is a direct chat, types 1, 2 and 4 are groups, type
/// 100 is a community, and every other type is unknown; each kind names
/// exactly those types.
pub proof fn lemma_chat_kinds_by_type(chat_type: i64)
    ensures
        chat_kind_name(chat_type) == "direct"@ <==> chat_type == 0,
        chat_kind_name(chat_type) == "group"@ <==> (chat_type == 1 || chat_type == 2 || chat_type == 4),
        chat_kind_name(chat_type) == "community"@ <==> chat_type == 100,
        chat_kind_name(chat_type) == "unknown"@ <==> !(chat_type == 0 || chat_type == 1 || chat_type == 2
            || chat_type == 4 || chat_type == 100),
{
    reveal_strlit("direct");
    reveal_strlit("group");
    reveal_strlit("community");
    reveal_strlit("unknown");
    assert("direct"@.len() == 6 && "group"@.len() == 5 && "community"@.len() == 9 && "unknown"@.len() == 7);
}

/// The kind of a chat: direct, group, community or unknown.
pub fn chat_kind(chat_type: i64) -> (r: &'static str)
    ensures
        r@ == chat_kind_name(chat_type),
{
    match chat_type {
        0 => "direct",
        1 | 2 | 4 => "group",
        100 => "community",
        _ => "unknown",
    }
}

/// The key under which chat titles are looked up: the trimmed id in
/// lowercase.
pub fn lookup_id(value: &str) -> (r: String)
    ensures
        r@ == unicode_lowercase(text::trim(value@)),
{
    let t = text::trimmed(&text::chars_of(value));
    lowercase(text::string_of(&t).as_str())
}

/// The title of a chat and where it came from: a direct chat's contact
/// name; a group's name, or the name its last rename message gave it; the
/// chat's own name; its id; else a placeholder.
pub open spec fn chat_title(
    chat_type: i64,
    user_name: Seq<char>,
    group_name: Seq<char>,
    rename_name: Seq<char>,
    chat_name: Seq<char>,
    id: Seq<char>,
) -> (Seq<char>, Seq<char>) {
    if chat_type == 0 && user_name.len() > 0 {
        (user_name, "user"@)
    } else if chat_type != 0 && group_name.len() > 0 {
        (group_name, "group"@)
    } else if chat_type != 0 && rename_name.len() > 0 {
        (rename_name, "rename"@)
    } else if chat_name.len() > 0 {
        (chat_name, "chat"@)
    } else if id.len() > 0 {
        (id, "id"@)
    } else {
        ("未命名聊天室"@, "unresolved"@)
    }
}

/// Picks a chat's title and its source.
pub fn resolve_chat_title(
    chat_type: i64,
    user_name: &str,
    group_name: &str,
    rename_name: &str,
    chat_name: &str,
    id: &str,
) -> (r: (String, String))
    ensures
        (r.0@, r.1@) == chat_title(chat_type, user_name@, group_name@, rename_name@, chat_name@, id@),
{
    if chat_type == 0 && text::chars_of(user_name).len() > 0 {
        (text::to_string(user_name), text::to_string("user"))
    } else if chat_type != 0 && text::chars_of(group_name).len() > 0 {
        (text::to_string(group_name), text::to_string("group"))
    } else if chat_type != 0 && text::chars_of(rename_name).len() > 0 {
        (text::to_string(rename_name), text::to_string("rename"))
    } else if text::chars_of(chat_name).len() > 0 {
        (text::to_string(chat_name), text::to_string("chat"))
    } else if text::chars_of(id).len() > 0 {
        (text::to_string(id), text::to_string("id"))
    } else {
        (text::to_string("未命名聊天室"), text::to_string("unresolved"))
    }
}

/// A system message: a system content type (7, 18, 96 or 111), or a
/// message without sender, with send status 0 and without id.
pub open spec fn system_message(
    content_type: Option<i64>,
    sender_pk: Option<i64>,
    send_status: Option<i64>,
    id: Seq<char>,
) -> bool {
    (content_type matches Some(t) && (t == 7 || t == 18 || t == 96 || t == 111)) || (sender_pk is None
        && send_status == Some(0i64) && id.len() == 0)
}

/// A message the account itself sent: its sender is the account, or it has
/// no sender, is no system message, and is marked sent (status 1 or type
/// `S`).
pub open spec fn own_message(
    account_id: Option<Seq<char>>,
    sender_id: Seq<char>,
    sender_pk: Option<i64>,
    is_system: bool,
    send_status: Option<i64>,
    message_type: Seq<char>,
) -> bool {
    (account_id matches Some(a) && sender_id.len() > 0 && sender_id == a) || (sender_pk is None
        && !is_system && (send_status == Some(1i64) || text::eq_ignore_case(message_type, "S"@)))
}

/// Whether a message row is a system message, and whether the account sent it.
pub fn message_flags(
    id: &str,
    sender_pk: Option<i64>,
    sender_id: &str,
    send_status: Option<i64>,
    content_type: Option<i64>,
    message_type: &str,
    account_id: Option<&str>,
) -> (r: (bool, bool))
    ensures
        r.0 == system_message(content_type, sender_pk, send_status, id@),
        r.1 == own_message(
            match account_id {
                Some(a) => Some(a@),
                None => None,
            },
            sender_id@,
            sender_pk,
            r.0,
            send_status,
            message_type@,
        ),
{
    let is_system = match content_type {
        Some(t) => t == 7 || t == 18 || t == 96 || t == 111,
        None => false,
    } || (sender_pk.is_none() && send_status == Some(0i64) && text::chars_of(id).len() == 0);
    let sid = text::chars_of(sender_id);
    let by_account = match account_id {
        Some(a) => sid.len() > 0 && text::eq_chars(&sid, &text::chars_of(a)),
        None => false,
    };
    let is_self = by_account || (sender_pk.is_none() && !is_system && (send_status == Some(1i64)
        || text::eq_ignore_ascii_case(&text::chars_of(message_type), &text::chars_of("S"))));
    (is_system, is_self)
}

// ---------------------------------------------------------------------
// Keyset pages
// ---------------------------------------------------------------------

/// Refuses a page request with both an after and a before cursor, or a
/// bad page size; gives the page size.
pub fn check_page_request(has_after: bool, has_before: bool, limit: u32) -> (r: Result<usize, CoreError>)
    ensures
        has_after && has_before ==> r == Err::<usize, CoreError>(CoreError::TwoCursors),
        !(has_after && has_before) && !page_size_ok(limit) ==> r == Err::<usize, CoreError>(
            CoreError::PageSize,
        ),
        !(has_after && has_before) && page_size_ok(limit) ==> r == Ok::<usize, CoreError>(
            limit as usize,
        ),
{
    if has_after && has_before {
        return Err(CoreError::TwoCursors);
    }
    checked_page_size(limit)
}

/// A page cut from the rows of a query that asked for one row more than
/// the page holds.
#[derive(Debug)]
pub struct PageParts<T> {
    /// The rows of the page, in listing order.
    pub items: Vec<T>,
    /// Whether the next cursor is the last item's position.
    pub cursor_from_last: bool,
    pub has_previous: bool,
}

/// The rows of a page: at most `limit` of the fetched `rows`, turned to
/// listing order when the page was read backwards from a before cursor.
pub open spec fn page_items<T>(rows: Seq<T>, limit: usize, before: bool) -> Seq<T> {
    let kept = if rows.len() > limit {
        rows.take(limit as int)
    } else {
        rows
    };
    if before {
        kept.reverse()
    } else {
        kept
    }
}

/// Cuts a page from `rows`, fetched in reading order with one row more
/// than the page holds: the extra row tells that more follow. A page read
/// from a before cursor is turned to listing order, ends at its last item,
/// and has a previous page when more rows came; a page read from an after
/// cursor has a previous page.
pub fn assemble_page<T>(rows: Vec<T>, limit: usize, has_after: bool, has_before: bool) -> (r: PageParts<T>)
    ensures
        r.items@ == page_items(rows@, limit, has_before),
        r.cursor_from_last == ((has_before && page_items(rows@, limit, has_before).len() > 0)
            || rows@.len() > limit),
        r.has_previous == if has_before {
            rows@.len() > limit
        } else {
            has_after
        },
{
    let ghost original = rows@;
    let has_extra = rows.len() > limit;
    let mut kept = rows;
    if has_extra {
        kept.truncate(limit);
    }
    assert(kept@ == if original.len() > limit {
        original.take(limit as int)
    } else {
        original
    }) by {
        if original.len() > limit {
            assert(kept@ =~= original.take(limit as int));
        }
    }
    let items = if has_before {
        let ghost forward = kept@;
        let mut reversed: Vec<T> = Vec::new();
        while kept.len() > 0
            invariant
                forward.len() == reversed.len() + kept.len(),
                kept@ == forward.take(kept.len() as int),
                reversed@ == forward.skip(kept.len() as int).reverse(),
            decreases kept.len(),
        {
            let ghost n = kept.len();
            let x = kept.pop().unwrap();
            assert(x == forward[n - 1]);
            reversed.push(x);
            assert(kept@ =~= forward.take(n - 1));
            assert(reversed@ =~= forward.skip(n - 1).reverse()) by {
                assert forall|i: int| 0 <= i < reversed@.len() implies reversed@[i] == forward.skip(
                    n - 1,
                ).reverse()[i] by {
                    if i < reversed@.len() - 1 {
                        assert(forward.skip(n - 1).reverse()[i] == forward.skip(n - 1)[forward.skip(
                            n - 1,
                        ).len() - 1 - i]);
                        assert(forward.skip(n as int).reverse()[i] == forward.skip(n as int)[forward.skip(
                            n as int,
                        ).len() - 1 - i]);
                    }
                }
            }
        }
        assert(forward.skip(0) =~= forward);
        reversed
    } else {
        kept
    };
    let cursor_from_last = (has_before && items.len() > 0) || has_extra;
    let has_previous = if has_before {
        has_extra
    } else {
        has_after
    };
    PageParts { items, cursor_from_last, has_previous }
}

/// Cuts a page of chats from the fetched rows; its next cursor is the
/// position of its last chat when there is one to give.
pub fn chat_page(rows: Vec<Chat>, limit: usize, has_after: bool, has_before: bool) -> (r: ChatPage)
    ensures
        r.items@ == page_items(rows@, limit, has_before),
        r.has_previous == if has_before {
            rows@.len() > limit
        } else {
            has_after
        },
        ((has_before && page_items(rows@, limit, has_before).len() > 0) || rows@.len() > limit)
            && page_items(rows@, limit, has_before).len() > 0 ==> (r.next_cursor matches Some(c) && {
            let last = page_items(rows@, limit, has_before).last();
            &&& c.last_updated == last.last_updated
            &&& c.source@ == last.source@
            &&& c.pk == last.pk
        }),
        !(((has_before && page_items(rows@, limit, has_before).len() > 0) || rows@.len() > limit)
            && page_items(rows@, limit, has_before).len() > 0) ==> r.next_cursor is None,
{
    let parts = assemble_page(rows, limit, has_after, has_before);
    let next_cursor = if parts.cursor_from_last && parts.items.len() > 0 {
        let last = &parts.items[parts.items.len() - 1];
        Some(ChatCursor { last_updated: last.last_updated, source: last.source.clone(), pk: last.pk })
    } else {
        None
    };
    ChatPage { items: parts.items, next_cursor, has_previous: parts.has_previous }
}

/// Requests both cursor halves or neither: a cursor is its two parts.
pub fn paired_cursor(left: Option<i64>, right: Option<i64>) -> (r: Result<Option<(i64, i64)>, CoreError>)
    ensures
        r == match (left, right) {
            (None, None) => Ok::<Option<(i64, i64)>, CoreError>(None),
            (Some(a), Some(b)) => Ok(Some((a, b))),
            _ => Err(CoreError::HalfCursor),
        },
{
    match (left, right) {
        (None, None) => Ok(None),
        (Some(a), Some(b)) => Ok(Some((a, b))),
        _ => Err(CoreError::HalfCursor),
    }
}

// ---------------------------------------------------------------------
// Search patterns
// ---------------------------------------------------------------------

/// `s` with `\`, `%` and `_` escaped by a backslash, for `LIKE ... ESCAPE '\'`.
pub open spec fn like_escape(s: Seq<char>) -> Seq<char> {
    text::flat_map_chars(
        s,
        |c: char|
            if c == '\\' || c == '%' || c == '_' {
                seq!['\\', c]
            } else {
                seq![c]
            },
    )
}

/// `s` with `"` doubled, for a quoted FTS phrase.
pub open spec fn quote_escape(s: Seq<char>) -> Seq<char> {
    text::flat_map_chars(s, |c: char| if c == '"' { seq!['"', '"'] } else { seq![c] })
}

/// The refusal of a search text: blank after trimming, or longer than
/// 1,024 UTF-8 bytes after trimming.
pub open spec fn search_refusal(query: Seq<char>) -> Option<CoreError> {
    let t = text::trim(query);
    if t.len() == 0 {
        Some(CoreError::EmptySearch)
    } else if vstd::utf8::encode_utf8(t).len() > 1024 {
        Some(CoreError::SearchTooLong)
    } else {
        None
    }
}

fn checked_search(query: &str) -> (r: Result<Vec<char>, CoreError>)
    ensures
        match search_refusal(query@) {
            Some(e) => r == Err::<Vec<char>, CoreError>(e),
            None => r matches Ok(t) && t@ == text::trim(query@),
        },
{
    let t = text::trimmed(&text::chars_of(query));
    if t.len() == 0 {
        return Err(CoreError::EmptySearch);
    }
    let s = text::string_of(&t);
    let bytes = s.as_str().as_bytes();
    if bytes.len() > 1024 {
        return Err(CoreError::SearchTooLong);
    }
    Ok(t)
}

fn escape_with(t: &Vec<char>, fts: bool) -> (r: Vec<char>)
    ensures
        fts ==> r@ == quote_escape(t@),
        !fts ==> r@ == like_escape(t@),
{
    let mut out: Vec<char> = Vec::new();
    let mut i: usize = 0;
    while i < t.len()
        invariant
            i <= t.len(),
            fts ==> out@ == quote_escape(t@.take(i as int)),
            !fts ==> out@ == like_escape(t@.take(i as int)),
        decreases t.len() - i,
    {
        let c = t[i];
        assert(t@.take(i + 1).drop_last() =~= t@.take(i as int));
        assert(t@.take(i + 1).last() == c);
        if fts {
            if c == '"' {
                out.push('"');
            }
        } else if c == '\\' || c == '%' || c == '_' {
            out.push('\\');
        }
        out.push(c);
        proof {
            let ghost step_l = if c == '\\' || c == '%' || c == '_' {
                seq!['\\', c]
            } else {
                seq![c]
            };
            let ghost step_q = if c == '"' {
                seq!['"', '"']
            } else {
                seq![c]
            };
            if fts {
                assert(out@ =~= quote_escape(t@.take(i as int)) + step_q);
            } else {
                assert(out@ =~= like_escape(t@.take(i as int)) + step_l);
            }
        }
        i = i + 1;
    }
    assert(t@.take(t.len() as int) =~= t@);
    out
}

/// The `LIKE` pattern of a message search: the trimmed text, escaped,
/// anywhere in the message.
pub fn validated_search_pattern(query: &str) -> (r: Result<String, CoreError>)
    ensures
        match search_refusal(query@) {
            Some(e) => r == Err::<String, CoreError>(e),
            None => r matches Ok(p) && p@ == seq!['%'] + like_escape(text::trim(query@)) + seq!['%'],
        },
{
    let t = checked_search(query)?;
    let mut out: Vec<char> = Vec::new();
    out.push('%');
    text::append(&mut out, &escape_with(&t, false));
    out.push('%');
    assert(out@ =~= seq!['%'] + like_escape(text::trim(query@)) + seq!['%']);
    Ok(text::string_of(&out))
}

/// The FTS query of a message search: the trimmed text as a quoted phrase,
/// matched as a prefix.
pub fn validated_fts_pattern(query: &str) -> (r: Result<String, CoreError>)
    ensures
        match search_refusal(query@) {
            Some(e) => r == Err::<String, CoreError>(e),
            None => r matches Ok(p) && p@ == seq!['"'] + quote_escape(text::trim(query@)) + seq![
                '"',
                '*',
            ],
        },
{
    let t = checked_search(query)?;
    let mut out: Vec<char> = Vec::new();
    out.push('"');
    text::append(&mut out, &escape_with(&t, true));
    out.push('"');
    out.push('*');
    assert(out@ =~= seq!['"'] + quote_escape(text::trim(query@)) + seq!['"', '*']);
    Ok(text::string_of(&out))
}

// ---------------------------------------------------------------------
// SQL column expressions
// ---------------------------------------------------------------------

/// Whether the table has the column `name`.
pub open spec fn has_column(columns: Seq<String>, name: Seq<char>) -> bool {
    exists|i: int| 0 <= i < columns.len() && #[trigger] columns[i]@ == name
}

fn has_col(columns: &Vec<String>, name: &str) -> (r: bool)
    ensures
        r == has_column(columns@, name@),
{
    let w = text::chars_of(name);
    let mut i: usize = 0;
    while i < columns.len()
        invariant
            i <= columns.len(),
            w@ == name@,
            forall|j: int| 0 <= j < i ==> #[trigger] columns@[j]@ != name@,
        decreases columns.len() - i,
    {
        if text::eq_chars(&text::chars_of(columns[i].as_str()), &w) {
            return true;
        }
        i = i + 1;
    }
    false
}

/// `CAST(alias.name AS TEXT)`, or with `nullif` that wrapped in
/// `NULLIF(..., '')`, for each present candidate column in order.
pub open spec fn text_casts(alias: Seq<char>, columns: Seq<String>, candidates: Seq<String>, nullif: bool) -> Seq<
    Seq<char>,
>
    decreases candidates.len(),
{
    if candidates.len() == 0 {
        seq![]
    } else {
        let prev = text_casts(alias, columns, candidates.drop_last(), nullif);
        let name = candidates.last()@;
        if has_column(columns, name) {
            let cast = "CAST("@ + alias + "."@ + name + " AS TEXT)"@;
            prev.push(if nullif { "NULLIF("@ + cast + ", '')"@ } else { cast })
        } else {
            prev
        }
    }
}

/// The first non-empty text of the present candidate columns, or `''`.
pub open spec fn coalesce_expr(exprs: Seq<Seq<char>>) -> Seq<char> {
    if exprs.len() == 0 {
        "''"@
    } else {
        "COALESCE("@ + text::join(exprs, ", "@) + ", '')"@
    }
}

fn join_with(parts: &Vec<Vec<char>>, sep: &str) -> (r: Vec<char>)
    ensures
        r@ == text::join(text::views(parts@), sep@),
{
    let mut r: Vec<char> = Vec::new();
    let mut i: usize = 0;
    while i < parts.len()
        invariant
            i <= parts.len(),
            r@ == text::join(text::views(parts@).take(i as int), sep@),
        decreases parts.len() - i,
    {
        let ghost before = text::views(parts@).take(i as int);
        let ghost after = text::views(parts@).take(i + 1);
        assert(after.drop_last() =~= before);
        assert(after.last() == parts@[i as int]@);
        if i > 0 {
            text::append_str(&mut r, sep);
        } else {
            assert(after =~= seq![parts@[0]@]);
        }
        text::append(&mut r, &parts[i]);
        proof {
            if i > 0 {
                assert(r@ =~= text::join(before, sep@) + sep@ + after.last());
            } else {
                assert(r@ =~= parts@[0]@);
            }
        }
        i = i + 1;
    }
    assert(text::views(parts@).take(parts.len() as int) =~= text::views(parts@));
    r
}

fn casts(alias: &str, columns: &Vec<String>, candidates: &Vec<String>, nullif: bool) -> (r: Vec<Vec<char>>)
    ensures
        text::views(r@) == text_casts(alias@, columns@, candidates@, nullif),
{
    let mut out: Vec<Vec<char>> = Vec::new();
    let mut i: usize = 0;
    while i < candidates.len()
        invariant
            i <= candidates.len(),
            text::views(out@) == text_casts(alias@, columns@, candidates@.take(i as int), nullif),
        decreases candidates.len() - i,
    {
        assert(candidates@.take(i + 1).drop_last() =~= candidates@.take(i as int));
        assert(candidates@.take(i + 1).last() == candidates@[i as int]);
        let name = candidates[i].as_str();
        if has_col(columns, name) {
            let mut cast = text::chars_of("CAST(");
            text::append_str(&mut cast, alias);
            cast.push('.');
            text::append_str(&mut cast, name);
            text::append_str(&mut cast, " AS TEXT)");
            let piece = if nullif {
                let mut v = text::chars_of("NULLIF(");
                text::append(&mut v, &cast);
                text::append_str(&mut v, ", '')");
                v
            } else {
                cast
            };
            proof {
                reveal_strlit(".");
                let ghost c = "CAST("@ + alias@ + "."@ + name@ + " AS TEXT)"@;
                assert(cast@ =~= c);
            }
            let ghost before = text::views(out@);
            out.push(piece);
            assert(text::views(out@) =~= before.push(piece@));
        }
        i = i + 1;
    }
    assert(candidates@.take(candidates.len() as int) =~= candidates@);
    out
}

fn coalesce(exprs: &Vec<Vec<char>>) -> (r: String)
    ensures
        r@ == coalesce_expr(text::views(exprs@)),
{
    if exprs.len() == 0 {
        return text::to_string("''");
    }
    let mut v = text::chars_of("COALESCE(");
    text::append(&mut v, &join_with(exprs, ", "));
    text::append_str(&mut v, ", '')");
    assert(v@ =~= coalesce_expr(text::views(exprs@)));
    text::string_of(&v)
}

/// The text of the first present candidate column, as text; `''` when
/// none is present or all are null.
pub fn text_expr(alias: &str, columns: &Vec<String>, candidates: &Vec<String>) -> (r: String)
    ensures
        r@ == coalesce_expr(text_casts(alias@, columns@, candidates@, false)),
{
    coalesce(&casts(alias, columns, candidates, false))
}

/// The first non-empty text of the present candidate columns; `''` when
/// there is none.
pub fn coalesced_text_expr(alias: &str, columns: &Vec<String>, candidates: &Vec<String>) -> (r: String)
    ensures
        r@ == coalesce_expr(text_casts(alias@, columns@, candidates@, true)),
{
    coalesce(&casts(alias, columns, candidates, true))
}

/// A column as an integer, `fallback` when it is null or missing.
pub fn integer_expr(alias: &str, columns: &Vec<String>, column: &str, fallback: &str) -> (r: String)
    ensures
        has_column(columns@, column@) ==> r@ == "CAST(COALESCE("@ + alias@ + "."@ + column@ + ", "@
            + fallback@ + ") AS INTEGER)"@,
        !has_column(columns@, column@) ==> r@ == fallback@,
{
    if has_col(columns, column) {
        let mut v = text::chars_of("CAST(COALESCE(");
        text::append_str(&mut v, alias);
        v.push('.');
        text::append_str(&mut v, column);
        text::append_str(&mut v, ", ");
        text::append_str(&mut v, fallback);
        text::append_str(&mut v, ") AS INTEGER)");
        proof {
            reveal_strlit(".");
        }
        assert(v@ =~= "CAST(COALESCE("@ + alias@ + "."@ + column@ + ", "@ + fallback@ + ") AS INTEGER)"@);
        text::string_of(&v)
    } else {
        text::to_string(fallback)
    }
}

/// A column cast to `kind` (`INTEGER` or `REAL`), `NULL` when missing.
fn nullable_expr(alias: &str, columns: &Vec<String>, column: &str, kind: &str) -> (r: String)
    ensures
        has_column(columns@, column@) ==> r@ == "CAST("@ + alias@ + "."@ + column@ + " AS "@ + kind@
            + ")"@,
        !has_column(columns@, column@) ==> r@ == "NULL"@,
{
    if has_col(columns, column) {
        let mut v = text::chars_of("CAST(");
        text::append_str(&mut v, alias);
        v.push('.');
        text::append_str(&mut v, column);
        text::append_str(&mut v, " AS ");
        text::append_str(&mut v, kind);
        v.push(')');
        proof {
            reveal_strlit(".");
            reveal_strlit(")");
        }
        assert(v@ =~= "CAST("@ + alias@ + "."@ + column@ + " AS "@ + kind@ + ")"@);
        text::string_of(&v)
    } else {
        text::to_string("NULL")
    }
}

/// A column as a nullable integer.
pub fn nullable_integer_expr(alias: &str, columns: &Vec<String>, column: &str) -> (r: String)
    ensures
        has_column(columns@, column@) ==> r@ == "CAST("@ + alias@ + "."@ + column@ + " AS "@
            + "INTEGER"@ + ")"@,
        !has_column(columns@, column@) ==> r@ == "NULL"@,
{
    nullable_expr(alias, columns, column, "INTEGER")
}

/// A column as a nullable real number.
pub fn nullable_real_expr(alias: &str, columns: &Vec<String>, column: &str) -> (r: String)
    ensures
        has_column(columns@, column@) ==> r@ == "CAST("@ + alias@ + "."@ + column@ + " AS "@ + "REAL"@
            + ")"@,
        !has_column(columns@, column@) ==> r@ == "NULL"@,
{
    nullable_expr(alias, columns, column, "REAL")
}

/// The SQL condition that a message `alias` is written by a person: not a
/// system content type, and not a sender-less, status-0, id-less row; each
/// part only where its columns exist, `1` when none does.
pub open spec fn human_predicate(alias: Seq<char>, columns: Seq<String>) -> Seq<char> {
    let content = "("@ + alias + ".ZCONTENTTYPE IS NULL OR CAST("@ + alias
        + ".ZCONTENTTYPE AS INTEGER) NOT IN (7, 18, 96, 111))"@;
    let sender = "NOT (("@ + alias + ".ZSENDER IS NULL OR CAST("@ + alias
        + ".ZSENDER AS TEXT) = '') AND CAST(COALESCE("@ + alias
        + ".ZSENDSTATUS, 0) AS INTEGER) = 0 AND ("@ + alias + ".ZID IS NULL OR CAST("@ + alias
        + ".ZID AS TEXT) = ''))"@;
    let has_content = has_column(columns, "ZCONTENTTYPE"@);
    let has_sender = has_column(columns, "ZSENDER"@) && has_column(columns, "ZSENDSTATUS"@)
        && has_column(columns, "ZID"@);
    if has_content && has_sender {
        content + " AND "@ + sender
    } else if has_content {
        content
    } else if has_sender {
        sender
    } else {
        "1"@
    }
}

/// Builds the SQL condition that a message is written by a person.
pub fn human_message_predicate(alias: &str, message_columns: &Vec<String>) -> (r: String)
    ensures
        r@ == human_predicate(alias@, message_columns@),
{
    let has_content = has_col(message_columns, "ZCONTENTTYPE");
    let has_sender = has_col(message_columns, "ZSENDER") && has_col(message_columns, "ZSENDSTATUS")
        && has_col(message_columns, "ZID");
    let mut content = text::chars_of("(");
    text::append_str(&mut content, alias);
    text::append_str(&mut content, ".ZCONTENTTYPE IS NULL OR CAST(");
    text::append_str(&mut content, alias);
    text::append_str(&mut content, ".ZCONTENTTYPE AS INTEGER) NOT IN (7, 18, 96, 111))");
    let mut sender = text::chars_of("NOT ((");
    text::append_str(&mut sender, alias);
    text::append_str(&mut sender, ".ZSENDER IS NULL OR CAST(");
    text::append_str(&mut sender, alias);
    text::append_str(&mut sender, ".ZSENDER AS TEXT) = '') AND CAST(COALESCE(");
    text::append_str(&mut sender, alias);
    text::append_str(&mut sender, ".ZSENDSTATUS, 0) AS INTEGER) = 0 AND (");
    text::append_str(&mut sender, alias);
    text::append_str(&mut sender, ".ZID IS NULL OR CAST(");
    text::append_str(&mut sender, alias);
    text::append_str(&mut sender, ".ZID AS TEXT) = ''))");
    let out = if has_content && has_sender {
        let mut v = content;
        text::append_str(&mut v, " AND ");
        text::append(&mut v, &sender);
        v
    } else if has_content {
        content
    } else if has_sender {
        sender
    } else {
        text::chars_of("1")
    };
    assert(out@ =~= human_predicate(alias@, message_columns@));
    text::string_of(&out)
}

/// The SQL expression for the text of a chat's latest rename message: the
/// newest message of content type 18 that names the group, `''` without the
/// columns it needs.
pub open spec fn rename_text_expr(chat_expression: Seq<char>, columns: Seq<String>, alias: Seq<char>) -> Seq<
    char,
> {
    if !has_column(columns, "ZCHAT"@) || !has_column(columns, "ZCONTENTTYPE"@) || !has_column(
        columns,
        "ZTEXT"@,
    ) {
        "''"@
    } else {
        let timestamp = if has_column(columns, "ZTIMESTAMP"@) {
            "CAST(COALESCE("@ + alias + "."@ + "ZTIMESTAMP"@ + ", "@ + "0"@ + ") AS INTEGER)"@
        } else {
            "0"@
        };
        "COALESCE((SELECT CAST("@ + alias + ".ZTEXT AS TEXT) FROM ZMESSAGE "@ + alias + " WHERE "@
            + alias + ".ZCHAT = "@ + chat_expression + " AND CAST("@ + alias
            + ".ZCONTENTTYPE AS INTEGER) = 18 AND "@ + alias + ".ZTEXT IS NOT NULL AND ("@ + alias
            + ".ZTEXT LIKE '%群組名稱%' OR LOWER(CAST("@ + alias
            + ".ZTEXT AS TEXT)) LIKE '%group%name%') ORDER BY "@ + timestamp + " DESC, "@ + alias
            + ".Z_PK DESC LIMIT 1), '')"@
    }
}

/// Builds the SQL expression for a chat's latest rename text.
pub fn group_rename_text_expr(chat_expression: &str, message_columns: &Vec<String>, alias: &str) -> (r:
    String)
    ensures
        r@ == rename_text_expr(chat_expression@, message_columns@, alias@),
{
    if !has_col(message_columns, "ZCHAT") || !has_col(message_columns, "ZCONTENTTYPE") || !has_col(
        message_columns,
        "ZTEXT",
    ) {
        return text::to_string("''");
    }
    let timestamp = integer_expr(alias, message_columns, "ZTIMESTAMP", "0");
    let mut v = text::chars_of("COALESCE((SELECT CAST(");
    text::append_str(&mut v, alias);
    text::append_str(&mut v, ".ZTEXT AS TEXT) FROM ZMESSAGE ");
    text::append_str(&mut v, alias);
    text::append_str(&mut v, " WHERE ");
    text::append_str(&mut v, alias);
    text::append_str(&mut v, ".ZCHAT = ");
    text::append_str(&mut v, chat_expression);
    text::append_str(&mut v, " AND CAST(");
    text::append_str(&mut v, alias);
    text::append_str(&mut v, ".ZCONTENTTYPE AS INTEGER) = 18 AND ");
    text::append_str(&mut v, alias);
    text::append_str(&mut v, ".ZTEXT IS NOT NULL AND (");
    text::append_str(&mut v, alias);
    text::append_str(&mut v, ".ZTEXT LIKE '%群組名稱%' OR LOWER(CAST(");
    text::append_str(&mut v, alias);
    text::append_str(&mut v, ".ZTEXT AS TEXT)) LIKE '%group%name%') ORDER BY ");
    text::append_str(&mut v, timestamp.as_str());
    text::append_str(&mut v, " DESC, ");
    text::append_str(&mut v, alias);
    text::append_str(&mut v, ".Z_PK DESC LIMIT 1), '')");
    assert(v@ =~= rename_text_expr(chat_expression@, message_columns@, alias@));
    text::string_of(&v)
}

/// The SQL condition for chats of `source` after a cursor in `cursor_source`
/// at the same time: a later source comes after, an earlier one before,
/// and the same source goes by key.
pub open spec fn tie_filter(source: Seq<char>, cursor_source: Seq<char>, pk_expression: Seq<char>, pk_parameter: Seq<
    char,
>, before: bool) -> Seq<char> {
    if text_lt(cursor_source, source) {
        if before { "1 = 0"@ } else { "1 = 1"@ }
    } else if source == cursor_source {
        pk_expression + (if before { " < "@ } else { " > "@ }) + pk_parameter
    } else {
        if before { "1 = 1"@ } else { "1 = 0"@ }
    }
}

fn cursor_filter(source: &str, cursor_source: &str, pk_expression: &str, pk_parameter: &str, before: bool) -> (r:
    String)
    ensures
        r@ == tie_filter(source@, cursor_source@, pk_expression@, pk_parameter@, before),
{
    let s = text::chars_of(source);
    let c = text::chars_of(cursor_source);
    if crate::order::text_less(&c, &s) {
        text::to_string(if before { "1 = 0" } else { "1 = 1" })
    } else if text::eq_chars(&s, &c) {
        let mut v = text::chars_of(pk_expression);
        text::append_str(&mut v, if before { " < " } else { " > " });
        text::append_str(&mut v, pk_parameter);
        assert(v@ =~= tie_filter(source@, cursor_source@, pk_expression@, pk_parameter@, before));
        text::string_of(&v)
    } else {
        text::to_string(if before { "1 = 1" } else { "1 = 0" })
    }
}

/// The condition for rows after a cursor at the same time.
pub fn source_cursor_tie_filter(source: &str, cursor_source: &str, pk_expression: &str, pk_parameter: &str) -> (r:
    String)
    ensures
        r@ == tie_filter(source@, cursor_source@, pk_expression@, pk_parameter@, false),
{
    cursor_filter(source, cursor_source, pk_expression, pk_parameter, false)
}

/// The condition for rows before a cursor at the same time.
pub fn source_cursor_before_filter(source: &str, cursor_source: &str, pk_expression: &str, pk_parameter: &str) -> (r:
    String)
    ensures
        r@ == tie_filter(source@, cursor_source@, pk_expression@, pk_parameter@, true),
{
    cursor_filter(source, cursor_source, pk_expression, pk_parameter, true)
}

// ---------------------------------------------------------------------
// Titles from the companion databases
// ---------------------------------------------------------------------

/// A chat title found in the community or group database, under the
/// lookup key of the chat id.
#[derive(Debug, Clone)]
pub struct CompanionChatTitle {
    pub key: String,
    pub title: String,
    pub kind: String,
    pub source: String,
}

/// The lookup key of an id.
pub open spec fn lookup_key(id: Seq<char>) -> Seq<char> {
    unicode_lowercase(text::trim(id))
}

/// The distinct lookup keys of `ids`, in order, each once.
pub fn normalized_lookup_ids(ids: &Vec<String>) -> (r: Vec<String>)
    ensures
        crate::order::sorted_texts(crate::source::string_views(r@)),
        crate::source::string_views(r@).no_duplicates(),
        forall|k: Seq<char>|
            crate::source::string_views(r@).contains(k) <==> exists|i: int|
                0 <= i < ids.len() && k == lookup_key(#[trigger] ids@[i]@),
{
    let mut uniq: Vec<String> = Vec::new();
    let mut i: usize = 0;
    while i < ids.len()
        invariant
            i <= ids.len(),
            crate::source::string_views(uniq@).no_duplicates(),
            forall|k: Seq<char>|
                crate::source::string_views(uniq@).contains(k) <==> exists|j: int|
                    0 <= j < i && k == lookup_key(#[trigger] ids@[j]@),
        decreases ids.len() - i,
    {
        let key = lookup_id(ids[i].as_str());
        let ghost before = crate::source::string_views(uniq@);
        crate::candidate::push_unique_string(&mut uniq, key);
        proof {
            let now = crate::source::string_views(uniq@);
            assert forall|k: Seq<char>| now.contains(k) <==> exists|j: int|
                0 <= j < i + 1 && k == lookup_key(#[trigger] ids@[j]@) by {
                assert(now.to_set().contains(k) <==> now.contains(k));
                assert(before.to_set().contains(k) <==> before.contains(k));
                if k == lookup_key(ids@[i as int]@) {
                    assert(now.to_set().contains(k));
                }
            }
        }
        i = i + 1;
    }
    let sorted = crate::order::sort_strings(&uniq);
    proof {
        let uv = crate::source::string_views(uniq@);
        let sv = crate::source::string_views(sorted@);
        uv.lemma_multiset_has_no_duplicates();
        assert forall|x: Seq<char>| sv.to_multiset().contains(x) implies sv.to_multiset().count(x)
            == 1 by {}
        sv.lemma_multiset_has_no_duplicates_conv();
        assert forall|k: Seq<char>| sv.contains(k) <==> uv.contains(k) by {
            assert(sv.contains(k) <==> sv.to_multiset().count(k) > 0);
            assert(uv.contains(k) <==> uv.to_multiset().count(k) > 0);
        }
    }
    sorted
}

/// A title row of the group database: its name, with the kind of its
/// group type.
pub fn unified_group_title(id: &str, title: String, group_type: i64) -> (r: CompanionChatTitle)
    ensures
        r.key@ == lookup_key(id@),
        r.title@ == title@,
        r.kind@ == chat_kind_name(group_type),
        r.source@ == "unified-group"@,
{
    CompanionChatTitle {
        key: lookup_id(id),
        title,
        kind: text::to_string(chat_kind(group_type)),
        source: text::to_string("unified-group"),
    }
}

/// A title row of the community database: the community's name, else the
/// chat's; none when both are empty.
pub fn square_chat_title(id: &str, chat_name: String, square_name: String) -> (r: Option<CompanionChatTitle>)
    ensures
        ({
            let title = if square_name@.len() == 0 { chat_name@ } else { square_name@ };
            &&& title.len() == 0 ==> r is None
            &&& title.len() > 0 ==> (r matches Some(t) && t.key@ == lookup_key(id@) && t.title@ == title
                && t.kind@ == "community"@ && t.source@ == "line-square"@)
        }),
{
    let title = if text::chars_of(square_name.as_str()).len() == 0 {
        chat_name
    } else {
        square_name
    };
    if text::chars_of(title.as_str()).len() == 0 {
        return None;
    }
    Some(CompanionChatTitle {
        key: lookup_id(id),
        title,
        kind: text::to_string("community"),
        source: text::to_string("line-square"),
    })
}

/// The last title of `titles` under `key`: a later row takes the place of
/// an earlier one.
pub open spec fn last_title(titles: Seq<CompanionChatTitle>, key: Seq<char>) -> Option<CompanionChatTitle>
    decreases titles.len(),
{
    if titles.len() == 0 {
        None
    } else if titles.last().key@ == key {
        Some(titles.last())
    } else {
        last_title(titles.drop_last(), key)
    }
}

fn find_title(titles: &Vec<CompanionChatTitle>, key: &Vec<char>) -> (r: Option<usize>)
    ensures
        match last_title(titles@, key@) {
            Some(t) => r matches Some(i) && i < titles.len() && titles@[i as int] == t,
            None => r is None,
        },
{
    let mut i: usize = titles.len();
    assert(titles@.take(i as int) =~= titles@);
    while i > 0
        invariant
            i <= titles.len(),
            last_title(titles@, key@) == last_title(titles@.take(i as int), key@),
        decreases i,
    {
        assert(titles@.take(i as int).drop_last() =~= titles@.take(i - 1));
        assert(titles@.take(i as int).last() == titles@[i - 1]);
        if text::eq_chars(&text::chars_of(titles[i - 1].key.as_str()), key) {
            return Some(i - 1);
        }
        i = i - 1;
    }
    None
}

/// The title a chat takes from the companion databases: the community
/// database's, else the group database's, for a group or community chat
/// with an id.
pub open spec fn companion_title(
    c: Chat,
    square: Seq<CompanionChatTitle>,
    unified: Seq<CompanionChatTitle>,
) -> Option<CompanionChatTitle> {
    if c.chat_type == 0 || c.id@.len() == 0 {
        None
    } else {
        match last_title(square, lookup_key(c.id@)) {
            Some(t) => Some(t),
            None => last_title(unified, lookup_key(c.id@)),
        }
    }
}

/// `after` is `before` with the companion title `t` applied.
pub open spec fn titled(before: Chat, after: Chat, t: Option<CompanionChatTitle>) -> bool {
    match t {
        Some(t) => {
            &&& after.title@ == t.title@
            &&& after.title_source@ == t.source@
            &&& after.kind@ == (if t.kind@ == "community"@ { t.kind@ } else { before.kind@ })
            &&& after.pk == before.pk && after.source == before.source && after.id == before.id
            &&& after.chat_type == before.chat_type && after.message_count == before.message_count
            &&& after.human_message_count == before.human_message_count
            &&& after.last_updated == before.last_updated && after.last_message == before.last_message
            &&& after.planned_for_removal == before.planned_for_removal
        },
        None => after == before,
    }
}

/// Gives group and community chats the titles the companion databases
/// hold for them.
pub fn enrich_chat_titles(
    chats: &mut Vec<Chat>,
    square_titles: &Vec<CompanionChatTitle>,
    unified_titles: &Vec<CompanionChatTitle>,
)
    ensures
        final(chats)@.len() == old(chats)@.len(),
        forall|i: int|
            0 <= i < old(chats)@.len() ==> titled(
                old(chats)@[i],
                #[trigger] final(chats)@[i],
                companion_title(old(chats)@[i], square_titles@, unified_titles@),
            ),
{
    let ghost start = chats@;
    let mut i: usize = 0;
    while i < chats.len()
        invariant
            i <= chats.len(),
            chats@.len() == start.len(),
            forall|j: int|
                0 <= j < i ==> titled(
                    start[j],
                    #[trigger] chats@[j],
                    companion_title(start[j], square_titles@, unified_titles@),
                ),
            forall|j: int| i <= j < chats@.len() ==> chats@[j] == start[j],
        decreases chats.len() - i,
    {
        if chats[i].chat_type != 0 && text::chars_of(chats[i].id.as_str()).len() > 0 {
            let key = text::chars_of(lookup_id(chats[i].id.as_str()).as_str());
            let found = match find_title(square_titles, &key) {
                Some(k) => Some(&square_titles[k]),
                None => match find_title(unified_titles, &key) {
                    Some(k) => Some(&unified_titles[k]),
                    None => None,
                },
            };
            match found {
                Some(t) => {
                    let mut c = chats.remove(i);
                    let ghost before = c;
                    c.title = t.title.clone();
                    c.title_source = t.source.clone();
                    if text::eq_str(&text::chars_of(t.kind.as_str()), "community") {
                        c.kind = t.kind.clone();
                    }
                    chats.insert(i, c);
                    assert(titled(before, chats@[i as int], Some(*t)));
                },
                None => {},
            }
        }
        i = i + 1;
    }
}


/// `a` comes before `b` in the combined chat list of both databases: newer
/// first, then by source name, then by key.
pub open spec fn newer_before(a: Chat, b: Chat) -> bool {
    a.last_updated > b.last_updated || (a.last_updated == b.last_updated && (text_lt(
        a.source@,
        b.source@,
    ) || (a.source@ == b.source@ && a.pk < b.pk)))
}

/// No chat of `s` is listed before one that comes before it.
pub open spec fn newest_first(s: Seq<Chat>) -> bool {
    forall|i: int, j: int| 0 <= i < j < s.len() ==> !newer_before(#[trigger] s[j], #[trigger] s[i])
}

proof fn lemma_newer_asymmetric(a: Chat, b: Chat)
    ensures
        !(newer_before(a, b) && newer_before(b, a)),
{
    crate::order::lemma_text_lt_asymmetric(a.source@, b.source@);
    crate::order::lemma_text_lt_irreflexive(a.source@);
}

proof fn lemma_newer_transitive(a: Chat, b: Chat, c: Chat)
    requires
        newer_before(a, b),
        newer_before(b, c),
    ensures
        newer_before(a, c),
{
    crate::order::lemma_text_lt_irreflexive(a.source@);
    crate::order::lemma_text_lt_irreflexive(b.source@);
    if text_lt(a.source@, b.source@) && text_lt(b.source@, c.source@) {
        crate::order::lemma_text_lt_transitive(a.source@, b.source@, c.source@);
    }
}

proof fn lemma_newer_tie(a: Chat, b: Chat, x: Chat)
    requires
        !newer_before(a, b),
        !newer_before(b, a),
    ensures
        newer_before(x, a) == newer_before(x, b),
{
    crate::order::lemma_text_lt_total(a.source@, b.source@);
}

fn newer(a: &Chat, b: &Chat) -> (r: bool)
    ensures
        r == newer_before(*a, *b),
{
    if a.last_updated != b.last_updated {
        return a.last_updated > b.last_updated;
    }
    let a_source = text::chars_of(a.source.as_str());
    let b_source = text::chars_of(b.source.as_str());
    if crate::order::text_less(&a_source, &b_source) {
        return true;
    }
    text::eq_chars(&a_source, &b_source) && a.pk < b.pk
}

fn insert_newest_first(out: &mut Vec<Chat>, c: Chat)
    requires
        newest_first(old(out)@),
    ensures
        newest_first(final(out)@),
        final(out)@.to_multiset() == old(out)@.to_multiset().insert(c),
{
    broadcast use vstd::seq_lib::group_to_multiset_ensures;
    let mut p: usize = 0;
    while p < out.len()
        invariant
            p <= out.len(),
            out@ == old(out)@,
            forall|k: int| 0 <= k < p ==> !newer_before(c, #[trigger] out@[k]),
        ensures
            p <= out.len(),
            out@ == old(out)@,
            forall|k: int| 0 <= k < p ==> !newer_before(c, #[trigger] out@[k]),
            p < out.len() ==> newer_before(c, out@[p as int]),
        decreases out.len() - p,
    {
        if newer(&c, &out[p]) {
            break;
        }
        p = p + 1;
    }
    let ghost prev = out@;
    proof {
        assert forall|k: int| p <= k < prev.len() implies newer_before(c, #[trigger] prev[k]) by {
            if k > p {
                assert(!newer_before(prev[k], prev[p as int]));
                if newer_before(prev[p as int], prev[k]) {
                    lemma_newer_transitive(c, prev[p as int], prev[k]);
                } else {
                    lemma_newer_tie(prev[p as int], prev[k], c);
                }
            }
        }
    }
    out.insert(p, c);
    proof {
        let now = out@;
        assert forall|a: int, b: int| 0 <= a < b < now.len() implies !newer_before(
            #[trigger] now[b],
            #[trigger] now[a],
        ) by {
            if a < p && b == p {
                assert(now[a] == prev[a]);
            } else if a == p {
                assert(now[b] == prev[b - 1]);
                lemma_newer_asymmetric(now[a], now[b]);
            } else if b < p {
                assert(now[a] == prev[a] && now[b] == prev[b]);
            } else if a < p {
                assert(now[a] == prev[a] && now[b] == prev[b - 1]);
            } else {
                assert(now[a] == prev[a - 1] && now[b] == prev[b - 1]);
            }
        }
    }
}

/// Whether one database's page of chats has more before or after it.
#[derive(Debug, Clone, Copy, PartialEq, Eq)]
pub struct PageEdges {
    pub has_next: bool,
    pub has_previous: bool,
}

/// Joins the pages of chats that the LINE and the LINE Square databases
/// gave for one request into one page: all chats newest first, cut to the
/// limit. A page read backwards has a next page when it holds any chat and
/// a previous one when it was cut or either database has more; a page read
/// forwards has a next page when it was cut or either database has more,
/// and a previous one when it started after a cursor. Its next cursor is the
/// position of its last chat when it has a next page.
pub fn combine_chat_pages(
    items: Vec<Chat>,
    limit: u32,
    has_after: bool,
    has_before: bool,
    line: PageEdges,
    square: PageEdges,
) -> (r: ChatPage)
    ensures
        exists|sorted: Seq<Chat>|
            {
                &&& sorted.to_multiset() == items@.to_multiset()
                &&& newest_first(sorted)
                &&& r.items@ == if items@.len() <= limit {
                    sorted
                } else {
                    sorted.take(limit as int)
                }
            },
        r.has_previous == if has_before {
            items@.len() > limit || line.has_previous || square.has_previous
        } else {
            has_after
        },
        ({
            let has_next = if has_before {
                items@.len() > 0
            } else {
                items@.len() > limit || line.has_next || square.has_next
            };
            if has_next && r.items@.len() > 0 {
                r.next_cursor matches Some(c) && {
                    let last = r.items@.last();
                    &&& c.last_updated == last.last_updated
                    &&& c.source@ == last.source@
                    &&& c.pk == last.pk
                }
            } else {
                r.next_cursor is None
            }
        }),
{
    broadcast use vstd::seq_lib::group_to_multiset_ensures;
    let combined_len = items.len();
    let mut sorted: Vec<Chat> = Vec::new();
    let mut rest = items;
    let ghost original = rest@;
    while rest.len() > 0
        invariant
            newest_first(sorted@),
            sorted@.to_multiset().add(rest@.to_multiset()) == original.to_multiset(),
        decreases rest.len(),
    {
        let ghost before_pop = rest@;
        let c = rest.pop().unwrap();
        proof {
            assert(before_pop =~= rest@.push(c));
        }
        insert_newest_first(&mut sorted, c);
        proof {
            assert(sorted@.to_multiset().add(rest@.to_multiset()) =~= original.to_multiset());
        }
    }
    assert(sorted@.to_multiset() =~= original.to_multiset());
    let ghost full = sorted@;
    assert(full.len() == combined_len) by {
        assert(full.to_multiset().len() == full.len());
        assert(original.to_multiset().len() == original.len());
    }
    let has_next = if has_before {
        combined_len > 0
    } else {
        combined_len > limit as usize || line.has_next || square.has_next
    };
    let has_previous = if has_before {
        combined_len > limit as usize || line.has_previous || square.has_previous
    } else {
        has_after
    };
    sorted.truncate(limit as usize);
    proof {
        if combined_len > limit {
            assert(full.take(limit as int) =~= full.subrange(0, limit as int));
        }
        assert(original == items@);
        assert(newest_first(full));
        assert(sorted@ == if items@.len() <= limit {
            full
        } else {
            full.take(limit as int)
        });
    }
    let next_cursor = if has_next && sorted.len() > 0 {
        let last = &sorted[sorted.len() - 1];
        Some(ChatCursor { last_updated: last.last_updated, source: last.source.clone(), pk: last.pk })
    } else {
        None
    };
    ChatPage { items: sorted, next_cursor, has_previous }
}


/// A character that LINE puts around names and that a rename notice is
/// read without: directional isolates, the zero-width space and the byte
/// order mark.
pub open spec fn invisible_mark(c: char) -> bool {
    c == '\u{2068}' || c == '\u{2069}' || c == '\u{200b}' || c == '\u{feff}'
}

/// `s` without its invisible marks.
pub open spec fn without_invisible(s: Seq<char>) -> Seq<char>
    decreases s.len(),
{
    if s.len() == 0 {
        seq![]
    } else if invisible_mark(s.last()) {
        without_invisible(s.drop_last())
    } else {
        without_invisible(s.drop_last()).push(s.last())
    }
}

/// The text of a system message as a rename notice is read: without
/// invisible marks, trimmed.
pub open spec fn cleaned_notice(s: Seq<char>) -> Seq<char> {
    text::trim(without_invisible(s))
}

/// `p` occurs in `s` at byte `i`.
pub open spec fn bytes_at(s: Seq<u8>, p: Seq<u8>, i: int) -> bool {
    0 <= i && i + p.len() <= s.len() && s.subrange(i, i + p.len()) == p
}

/// The first byte at which `p` occurs in `s`.
pub open spec fn first_bytes_at(s: Seq<u8>, p: Seq<u8>) -> Option<int> {
    if exists|i: int| bytes_at(s, p, i) {
        Some(choose|i: int| bytes_at(s, p, i) && forall|j: int| 0 <= j < i ==> !bytes_at(s, p, j))
    } else {
        None
    }
}

/// The first index of `c` in `s`.
pub open spec fn first_char_at(s: Seq<char>, c: char) -> Option<int> {
    if exists|i: int| 0 <= i < s.len() && s[i] == c {
        Some(choose|i: int| 0 <= i < s.len() && s[i] == c && forall|j: int| 0 <= j < i ==> s[j] != c)
    } else {
        None
    }
}

/// Where in the cleaned notice its group name is announced, as a byte
/// offset: the first Chinese marker in the notice, else the first
/// `group name` in its lowercase form.
pub open spec fn group_marker(cleaned: Seq<u8>, lowered: Seq<u8>) -> Option<int> {
    match first_bytes_at(cleaned, encode_utf8("群組名稱"@)) {
        Some(i) => Some(i),
        None => first_bytes_at(lowered, encode_utf8("group name"@)),
    }
}

/// The trimmed text between the first `open` of `tail` and the first `close`
/// after it; empty when there is none.
pub open spec fn quoted_between(tail: Seq<char>, open: char, close: char) -> Seq<char> {
    match first_char_at(tail, open) {
        Some(j) => {
            let content = tail.skip(j + 1);
            match first_char_at(content, close) {
                Some(k) => text::trim(content.take(k)),
                None => seq![],
            }
        },
        None => seq![],
    }
}

/// The first non-empty name quoted in `tail`, trying corner brackets,
/// white corner brackets, curly quotes and straight quotes in turn.
pub open spec fn quoted_name(tail: Seq<char>) -> Seq<char> {
    let a = quoted_between(tail, '「', '」');
    let b = quoted_between(tail, '『', '』');
    let c = quoted_between(tail, '“', '”');
    let d = quoted_between(tail, '"', '"');
    if a.len() > 0 {
        a
    } else if b.len() > 0 {
        b
    } else if c.len() > 0 {
        c
    } else {
        d
    }
}

fn find_bytes(s: &[u8], p: &[u8]) -> (r: Option<usize>)
    ensures
        r == match first_bytes_at(s@, p@) {
            Some(i) => Some(i as usize),
            None => None::<usize>,
        },
        first_bytes_at(s@, p@) matches Some(i) ==> 0 <= i <= s@.len() <= usize::MAX,
{
    if p.len() > s.len() {
        assert(!exists|i: int| bytes_at(s@, p@, i));
        return None;
    }
    let mut i: usize = 0;
    while i <= s.len() - p.len()
        invariant
            p.len() <= s.len(),
            i <= s.len() - p.len() + 1,
            forall|j: int| 0 <= j < i ==> !bytes_at(s@, p@, j),
        decreases s.len() - p.len() + 1 - i,
    {
        let mut k: usize = 0;
        let mut same = true;
        while k < p.len()
            invariant
                p.len() <= s.len(),
                i <= s.len() - p.len(),
                k <= p.len(),
                same == forall|q: int| 0 <= q < k ==> s@[i + q] == p@[q],
            decreases p.len() - k,
        {
            if s[i + k] != p[k] {
                same = false;
            }
            k = k + 1;
        }
        if same {
            assert(s@.subrange(i as int, i + p.len()) =~= p@);
            assert(bytes_at(s@, p@, i as int));
            let ghost w = choose|x: int| bytes_at(s@, p@, x) && forall|j: int| 0 <= j < x ==> !bytes_at(s@, p@, j);
            assert(bytes_at(s@, p@, w) && forall|j: int| 0 <= j < w ==> !bytes_at(s@, p@, j));
            assert(w == i) by {
                if w < i {
                    assert(!bytes_at(s@, p@, w));
                } else if w > i {
                    assert(!bytes_at(s@, p@, i as int));
                }
            }
            return Some(i);
        }
        assert(!bytes_at(s@, p@, i as int)) by {
            let q = choose|q: int| 0 <= q < p.len() && s@[i + q] != p@[q];
            assert(s@.subrange(i as int, i + p.len())[q] == s@[i + q]);
        }
        i = i + 1;
    }
    assert(!exists|x: int| bytes_at(s@, p@, x)) by {
        if exists|x: int| bytes_at(s@, p@, x) {
            let x = choose|x: int| bytes_at(s@, p@, x);
            assert(x <= s.len() - p.len());
        }
    }
    None
}

fn find_char(s: &Vec<char>, c: char) -> (r: Option<usize>)
    ensures
        r == match first_char_at(s@, c) {
            Some(i) => Some(i as usize),
            None => None::<usize>,
        },
        first_char_at(s@, c) matches Some(i) ==> 0 <= i < s@.len(),
{
    let mut i: usize = 0;
    while i < s.len()
        invariant
            i <= s.len(),
            forall|j: int| 0 <= j < i ==> s@[j] != c,
        decreases s.len() - i,
    {
        if s[i] == c {
            let ghost w = choose|x: int| 0 <= x < s@.len() && s@[x] == c && forall|j: int| 0 <= j < x ==> s@[j] != c;
            assert(0 <= w < s@.len() && s@[w] == c && forall|j: int| 0 <= j < w ==> s@[j] != c);
            assert(w == i) by {
                if w < i {
                    assert(s@[w] != c);
                } else if w > i {
                    assert(s@[i as int] != c);
                }
            }
            return Some(i);
        }
        i = i + 1;
    }
    None
}

fn between(tail: &Vec<char>, open: char, close: char) -> (r: Vec<char>)
    ensures
        r@ == quoted_between(tail@, open, close),
{
    match find_char(tail, open) {
        Some(j) => {
            assert(j < tail.len());
            let content = text::slice(tail, j + 1, tail.len());
            assert(content@ =~= tail@.skip(j + 1));
            match find_char(&content, close) {
                Some(k) => {
                    let inner = text::slice(&content, 0, k);
                    assert(inner@ =~= content@.take(k as int));
                    text::trimmed(&inner)
                },
                None => Vec::new(),
            }
        },
        None => Vec::new(),
    }
}

/// The group name quoted in the notice from byte `marker` of `cleaned` on.
pub fn group_name_after(cleaned: &str, marker: usize) -> (r: String)
    requires
        is_char_boundary(encode_utf8(cleaned@), marker as int),
    ensures
        r@ == quoted_name(decode_utf8(encode_utf8(cleaned@).skip(marker as int))),
{
    broadcast use vstd::utf8::group_utf8_lib;

    let (_, tail) = cleaned.split_at(marker);
    assert(encode_utf8(cleaned@).skip(marker as int) =~= encode_utf8(tail@));
    let chars = text::chars_of(tail);
    let a = between(&chars, '「', '」');
    if a.len() > 0 {
        return text::string_of(&a);
    }
    let b = between(&chars, '『', '』');
    if b.len() > 0 {
        return text::string_of(&b);
    }
    let c = between(&chars, '“', '”');
    if c.len() > 0 {
        return text::string_of(&c);
    }
    let d = between(&chars, '"', '"');
    text::string_of(&d)
}

/// Where the group name is announced in the cleaned notice, given the
/// notice in lowercase.
pub fn group_name_marker(cleaned: &str, lowered: &str) -> (r: Option<usize>)
    ensures
        r == match group_marker(encode_utf8(cleaned@), encode_utf8(lowered@)) {
            Some(i) => Some(i as usize),
            None => None::<usize>,
        },
        group_marker(encode_utf8(cleaned@), encode_utf8(lowered@)) matches Some(i) ==> 0 <= i
            <= usize::MAX,
{
    match find_bytes(cleaned.as_bytes(), "群組名稱".as_bytes()) {
        Some(i) => Some(i),
        None => find_bytes(lowered.as_bytes(), "group name".as_bytes()),
    }
}

fn strip_invisible(s: &Vec<char>) -> (r: Vec<char>)
    ensures
        r@ == without_invisible(s@),
{
    let mut out: Vec<char> = Vec::new();
    let mut i: usize = 0;
    while i < s.len()
        invariant
            i <= s.len(),
            out@ == without_invisible(s@.take(i as int)),
        decreases s.len() - i,
    {
        assert(s@.take(i + 1).drop_last() =~= s@.take(i as int));
        let c = s[i];
        if !(c == '\u{2068}' || c == '\u{2069}' || c == '\u{200b}' || c == '\u{feff}') {
            out.push(c);
        }
        i = i + 1;
    }
    assert(s@.take(s.len() as int) =~= s@);
    out
}

/// The group name a rename notice announces: the first non-empty quoted
/// name after the announcement, or empty when the notice announces none.
/// `None` where the announcement found in the lowercase notice does not fall
/// on a character of the notice itself.
pub fn extract_group_name_from_system_text(value: &str) -> (r: Option<String>)
    ensures
        ({
            let cleaned = cleaned_notice(value@);
            match group_marker(encode_utf8(cleaned), encode_utf8(unicode_lowercase(cleaned))) {
                Some(i) => if is_char_boundary(encode_utf8(cleaned), i) {
                    r matches Some(name) && name@ == quoted_name(decode_utf8(encode_utf8(cleaned).skip(i)))
                } else {
                    r is None
                },
                None => r matches Some(name) && name@.len() == 0,
            }
        }),
{
    let cleaned_chars = text::trimmed(&strip_invisible(&text::chars_of(value)));
    let cleaned = text::string_of(&cleaned_chars);
    let lowered = lowercase(cleaned.as_str());
    match group_name_marker(cleaned.as_str(), lowered.as_str()) {
        Some(marker) => {
            if cleaned.as_str().is_char_boundary(marker) {
                Some(group_name_after(cleaned.as_str(), marker))
            } else {
                None
            }
        },
        None => Some(String::new()),
    }
}


/// The title of the community chat a community message belongs to: the
/// community's name, else the chat's name, else its id, else a placeholder.
pub open spec fn square_context_title_of(chat_id: Seq<char>, chat_name: Seq<char>, square_name: Seq<char>) -> Seq<
    char,
> {
    if square_name.len() > 0 {
        square_name
    } else if chat_name.len() > 0 {
        chat_name
    } else if chat_id.len() > 0 {
        chat_id
    } else {
        "未命名社群"@
    }
}

/// Picks the chat title of a community message.
pub fn square_context_title(chat_id: &str, chat_name: &str, square_name: &str) -> (r: String)
    ensures
        r@ == square_context_title_of(chat_id@, chat_name@, square_name@),
{
    if text::chars_of(square_name).len() > 0 {
        text::to_string(square_name)
    } else if text::chars_of(chat_name).len() > 0 {
        text::to_string(chat_name)
    } else if text::chars_of(chat_id).len() > 0 {
        text::to_string(chat_id)
    } else {
        text::to_string("未命名社群")
    }
}

/// The title a matched message's chat takes from the companion databases:
/// the community database's, else the group database's, for a chat that is
/// not a direct one and has an id.
pub open spec fn context_companion_title(
    c: AttachmentContext,
    square: Seq<CompanionChatTitle>,
    unified: Seq<CompanionChatTitle>,
) -> Option<CompanionChatTitle> {
    if c.chat_kind@ == "direct"@ || c.chat_id@.len() == 0 {
        None
    } else {
        match last_title(square, lookup_key(c.chat_id@)) {
            Some(t) => Some(t),
            None => last_title(unified, lookup_key(c.chat_id@)),
        }
    }
}

/// `after` is `before` with the companion title `t` applied.
pub open spec fn context_titled(before: AttachmentContext, after: AttachmentContext, t: Option<CompanionChatTitle>) -> bool {
    match t {
        Some(t) => {
            &&& after.chat_title@ == t.title@
            &&& after.chat_kind@ == (if t.kind@ == "community"@ { t.kind@ } else { before.chat_kind@ })
            &&& after.source == before.source && after.message_pk == before.message_pk
            &&& after.chat_pk == before.chat_pk && after.chat_id == before.chat_id
            &&& after.timestamp == before.timestamp && after.sender_pk == before.sender_pk
            &&& after.sender_name == before.sender_name && after.content_type == before.content_type
            &&& after.text == before.text
        },
        None => after == before,
    }
}

/// Gives the chats of matched messages the titles the companion databases
/// hold for them.
pub fn enrich_context_titles(
    contexts: &mut Vec<AttachmentContext>,
    square_titles: &Vec<CompanionChatTitle>,
    unified_titles: &Vec<CompanionChatTitle>,
)
    ensures
        final(contexts)@.len() == old(contexts)@.len(),
        forall|i: int|
            0 <= i < old(contexts)@.len() ==> context_titled(
                old(contexts)@[i],
                #[trigger] final(contexts)@[i],
                context_companion_title(old(contexts)@[i], square_titles@, unified_titles@),
            ),
{
    let ghost start = contexts@;
    let mut i: usize = 0;
    while i < contexts.len()
        invariant
            i <= contexts.len(),
            contexts@.len() == start.len(),
            forall|j: int|
                0 <= j < i ==> context_titled(
                    start[j],
                    #[trigger] contexts@[j],
                    context_companion_title(start[j], square_titles@, unified_titles@),
                ),
            forall|j: int| i <= j < contexts@.len() ==> contexts@[j] == start[j],
        decreases contexts.len() - i,
    {
        if !text::eq_str(&text::chars_of(contexts[i].chat_kind.as_str()), "direct") && text::chars_of(
            contexts[i].chat_id.as_str(),
        ).len() > 0 {
            let key = text::chars_of(lookup_id(contexts[i].chat_id.as_str()).as_str());
            let found = match find_title(square_titles, &key) {
                Some(k) => Some(&square_titles[k]),
                None => match find_title(unified_titles, &key) {
                    Some(k) => Some(&unified_titles[k]),
                    None => None,
                },
            };
            match found {
                Some(t) => {
                    let mut c = contexts.remove(i);
                    let ghost before = c;
                    c.chat_title = t.title.clone();
                    if text::eq_str(&text::chars_of(t.kind.as_str()), "community") {
                        c.chat_kind = t.kind.clone();
                    }
                    contexts.insert(i, c);
                    assert(context_titled(before, contexts@[i as int], Some(*t)));
                },
                None => {},
            }
        }
        i = i + 1;
    }
}

} // verus!
