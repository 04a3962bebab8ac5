//! The rules of the file catalog: how a scanned file is recorded, how
//! cleanup queries are checked and paged, and how account folders and
//! planned removals are summarised.
//!
//! The catalog itself lives in SQLite; the caller runs the queries and
//! hands the rows to these functions.

use vstd::prelude::*;

use crate::error::CoreError;
use crate::model::{
    checked_page_size, page_size_ok, AttachmentContext, AttachmentItem, AttachmentKind, Chat,
    AttachmentCursor, AttachmentPage, CleanupCategoryTotal, CleanupPlanPreview, CleanupReview,
    DuplicateGroup, DuplicateGroupCursor, DuplicateGroupPage, DuplicateMemberPage, MAX_PAGE_SIZE,
};
use crate::paths;
use crate::text;

verus! {

broadcast use vstd::seq_lib::group_to_multiset_ensures;

/// Progress of a catalog scan.
#[derive(Debug, Clone, Copy, PartialEq, Eq)]
pub struct CatalogScanProgress {
    pub files: u64,
    pub bytes: u64,
    pub attachments: u64,
}

/// Progress of matching attachment files to messages.
#[derive(Debug, Clone, Copy, PartialEq, Eq)]
pub struct CatalogContextProgress {
    pub processed_files: u64,
    pub total_files: u64,
    pub referenced_files: u64,
    pub unreferenced_files: u64,
    pub unconfirmed_files: u64,
}

/// A chat whose rows a database cleanup removes.
#[derive(Debug, Clone, PartialEq, Eq)]
pub struct PlannedChat {
    pub source: String,
    pub chat_pk: i64,
    pub message_count: i64,
}

/// A message without a chat that a database cleanup removes.
#[derive(Debug, Clone, PartialEq, Eq)]
pub struct PlannedMessage {
    pub source: String,
    pub message_pk: i64,
}

/// The database rows a cleanup removes.
#[derive(Debug, Clone, PartialEq, Eq)]
pub struct DatabaseCleanupPlan {
    pub chats: Vec<PlannedChat>,
    pub orphan_messages: Vec<PlannedMessage>,
}

impl DatabaseCleanupPlan {
    /// Whether the plan removes no rows at all.
    pub fn is_empty(&self) -> (r: bool)
        ensures
            r == (self.chats@.len() == 0 && self.orphan_messages@.len() == 0),
    {
        self.chats.len() == 0 && self.orphan_messages.len() == 0
    }
}

/// Account folders of the backup and what belongs to accounts other than the current one.
#[derive(Debug, Clone, Copy, PartialEq, Eq)]
pub struct OldAccountSummary {
    pub current_account_found: bool,
    pub account_folders: u64,
    pub old_account_folders: u64,
    pub old_account_files: u64,
    pub old_account_bytes: u64,
}

/// Files and bytes a bulk removal covers.
#[derive(Debug, Clone, Copy, PartialEq, Eq)]
pub struct BulkRemovalSummary {
    pub files: u64,
    pub bytes: u64,
}

/// One file of a group of identical files.
#[derive(Debug, Clone, PartialEq, Eq)]
pub struct DuplicateLinkMember {
    pub path: String,
    pub bytes: u64,
}

/// What the catalog records of one scanned file.
#[derive(Debug, Clone, PartialEq, Eq)]
pub struct FileRecord {
    pub path: String,
    pub bytes: u64,
    pub modified_ns: i64,
    pub content_sha256: String,
    pub kind: Option<AttachmentKind>,
    pub message_id: String,
    pub chat_hint: String,
}

// ---------------------------------------------------------------------
// Recording scanned files
// ---------------------------------------------------------------------

fn find_attachment_folder(segs: &Vec<Vec<char>>) -> (r: Option<usize>)
    ensures
        match r {
            Some(k) => k < segs.len() && attachment_folder_index(text::views(segs@)) == Some(
                k as int,
            ),
            None => attachment_folder_index(text::views(segs@)) is None,
        },
{
    let ghost sv = text::views(segs@);
    let ghost f = |s: Seq<char>| s == "Message Attachments"@ || s == "Message Thumbnails"@;
    let attachments = text::chars_of("Message Attachments");
    let thumbnails = text::chars_of("Message Thumbnails");
    let mut i: usize = 0;
    while i < segs.len()
        invariant
            i <= segs.len(),
            sv == text::views(segs@),
            attachments@ == "Message Attachments"@,
            thumbnails@ == "Message Thumbnails"@,
            f == (|s: Seq<char>| s == "Message Attachments"@ || s == "Message Thumbnails"@),
            forall|j: int| 0 <= j < i ==> !f(#[trigger] sv[j]),
        decreases segs.len() - i,
    {
        if text::eq_chars(&segs[i], &attachments) || text::eq_chars(&segs[i], &thumbnails) {
            proof {
                paths::lemma_first_index_found(sv, f, i as int);
            }
            return Some(i);
        }
        i = i + 1;
    }
    proof {
        paths::lemma_first_index_none(sv, f);
    }
    None
}

/// `a + b`, held at the largest `u64`.
pub open spec fn sat_add(a: int, b: int) -> int {
    if a + b > u64::MAX {
        u64::MAX as int
    } else {
        a + b
    }
}

/// Counts one more scanned file into the progress.
pub fn update_progress(progress: &mut CatalogScanProgress, record: &FileRecord)
    requires
        old(progress).files < u64::MAX,
        old(progress).attachments < u64::MAX,
    ensures
        final(progress).files == old(progress).files + 1,
        final(progress).bytes == sat_add(old(progress).bytes as int, record.bytes as int),
        final(progress).attachments == old(progress).attachments + if record.kind is Some {
            1int
        } else {
            0int
        },
{
    progress.files = progress.files + 1;
    progress.bytes = progress.bytes.saturating_add(record.bytes);
    if record.kind.is_some() {
        progress.attachments = progress.attachments + 1;
    }
}

/// Index of the first `Message Attachments` or `Message Thumbnails` segment.
pub open spec fn attachment_folder_index(segs: Seq<Seq<char>>) -> Option<int> {
    paths::first_index(
        segs,
        |s: Seq<char>| s == "Message Attachments"@ || s == "Message Thumbnails"@,
    )
}

/// The attachment kind of a path, by its attachment folder.
pub open spec fn record_kind(p: Seq<char>) -> Option<AttachmentKind> {
    let segs = paths::segments(p);
    match attachment_folder_index(segs) {
        Some(k) => if segs[k] == "Message Thumbnails"@ {
            Some(AttachmentKind::Thumbnail)
        } else {
            Some(AttachmentKind::Original)
        },
        None => None,
    }
}

/// The chat folder name after the attachment folder, unless it is the file itself.
pub open spec fn record_chat_hint(p: Seq<char>) -> Seq<char> {
    let segs = paths::segments(p);
    match attachment_folder_index(segs) {
        Some(k) => if k + 1 < segs.len() && segs[k + 1] != segs.last() {
            segs[k + 1]
        } else {
            Seq::empty()
        },
        None => Seq::empty(),
    }
}

/// The catalog record of a scanned file: slashes for separators, the
/// attachment kind by folder, the message id from the file name, the chat
/// folder as a hint.
pub fn file_record(path: String, bytes: u64, modified_ns: i64, content_sha256: String) -> (r:
    FileRecord)
    ensures
        r.path@ == paths::slashed(path@),
        r.bytes == bytes,
        r.modified_ns == modified_ns,
        r.content_sha256 == content_sha256,
        r.kind == record_kind(path@),
        r.message_id@ == paths::message_id_of(paths::segments(path@).last()),
        r.chat_hint@ == record_chat_hint(path@),
{
    let p = text::chars_of(path.as_str());
    let normalized = text::replace_all_char(&p, '\\', '/');
    let segs = text::split_on(&normalized, '/');
    let ghost sv = text::views(segs@);
    let ghost f = |s: Seq<char>| s == "Message Attachments"@ || s == "Message Thumbnails"@;
    let thumbnails = text::chars_of("Message Thumbnails");
    let found = find_attachment_folder(&segs);
    let last = &segs[segs.len() - 1];
    assert(sv.last() == last@);
    let kind = match found {
        Some(k) => if text::eq_chars(&segs[k], &thumbnails) {
            Some(AttachmentKind::Thumbnail)
        } else {
            Some(AttachmentKind::Original)
        },
        None => None,
    };
    let message_id = paths::leading_message_id(text::string_of(last).as_str());
    let chat_hint = match found {
        Some(k) => {
            if k + 1 < segs.len() && !text::eq_chars(&segs[k + 1], last) {
                text::string_of(&segs[k + 1])
            } else {
                String::new()
            }
        },
        None => String::new(),
    };
    FileRecord {
        path: text::string_of(&normalized),
        bytes,
        modified_ns,
        content_sha256,
        kind,
        message_id,
        chat_hint,
    }
}

// ---------------------------------------------------------------------
// Cleanup queries
// ---------------------------------------------------------------------

/// A backslash before each `\`, `%` and `_`, so that `LIKE` matches them literally.
pub open spec fn like_escaped(s: Seq<char>) -> Seq<char> {
    text::flat_map_chars(s, |c: char| if c == '\\' || c == '%' || c == '_' { seq!['\\', c] } else { seq![c] })
}

fn escape_like_chars(v: &Vec<char>) -> (r: Vec<char>)
    ensures
        r@ == like_escaped(v@),
{
    let ghost g = |c: char| if c == '\\' || c == '%' || c == '_' { seq!['\\', c] } else { seq![c] };
    let mut out: Vec<char> = Vec::new();
    let mut i: usize = 0;
    while i < v.len()
        invariant
            i <= v.len(),
            g == (|c: char| if c == '\\' || c == '%' || c == '_' { seq!['\\', c] } else { seq![c] }),
            out@ == text::flat_map_chars(v@.take(i as int), g),
        decreases v.len() - i,
    {
        assert(v@.take(i + 1).drop_last() =~= v@.take(i as int));
        let c = v[i];
        if c == '\\' || c == '%' || c == '_' {
            out.push('\\');
        }
        out.push(c);
        assert(out@ =~= text::flat_map_chars(v@.take(i + 1), g));
        i = i + 1;
    }
    assert(v@.take(v.len() as int) =~= v@);
    out
}

/// Text for a `LIKE ... ESCAPE '\'` pattern that matches `value` literally.
pub fn escape_like(value: &str) -> (r: String)
    ensures
        r@ == like_escaped(value@),
{
    let v = text::chars_of(value);
    let e = escape_like_chars(&v);
    text::string_of(&e)
}

/// The `LIKE` pattern for a cleanup search: the trimmed text anywhere;
/// no pattern for an absent or blank search.
pub fn cleanup_search_pattern(search: Option<&str>) -> (r: Option<String>)
    ensures
        match search {
            Some(s) => if text::trim(s@).len() > 0 {
                r matches Some(p) && p@ == seq!['%'] + like_escaped(text::trim(s@)) + seq!['%']
            } else {
                r is None
            },
            None => r is None,
        },
{
    match search {
        Some(s) => {
            let t = text::trimmed(&text::chars_of(s));
            if t.len() == 0 {
                None
            } else {
                let mut out: Vec<char> = Vec::new();
                out.push('%');
                let e = escape_like_chars(&t);
                text::append(&mut out, &e);
                out.push('%');
                Some(text::string_of(&out))
            }
        },
        None => None,
    }
}

/// Accepted attachment kind filters of the cleanup listing.
pub open spec fn cleanup_kind_ok(kind: Seq<char>) -> bool {
    kind == "all"@ || kind == "original"@ || kind == "thumbnail"@ || kind == "marked"@
}

/// Accepted categories of the cleanup listing.
pub open spec fn cleanup_category_ok(category: Seq<char>) -> bool {
    ||| category == "all"@
    ||| category == "individual"@
    ||| category == "group"@
    ||| category == "community"@
    ||| category == "unreferenced"@
    ||| category == "unconfirmed"@
}

/// Accepted sort orders of the cleanup listing.
pub open spec fn cleanup_sort_ok(sort: Seq<char>) -> bool {
    sort == "recent"@ || sort == "oldest"@ || sort == "size"@ || sort == "path"@
}

fn sort_ok(sort: &Vec<char>) -> (r: bool)
    ensures
        r == cleanup_sort_ok(sort@),
{
    text::eq_str(sort, "recent") || text::eq_str(sort, "oldest") || text::eq_str(sort, "size")
        || text::eq_str(sort, "path")
}

/// The first rule a cleanup query breaks, checked in order: page, page
/// size, kind, category, sort.
pub open spec fn cleanup_query_error(
    page: u32,
    page_size: u32,
    kind: Seq<char>,
    category: Seq<char>,
    sort: Seq<char>,
) -> Option<CoreError> {
    if page == 0 {
        Some(CoreError::CleanupPageZero)
    } else if !page_size_ok(page_size) {
        Some(CoreError::PageSize)
    } else if !cleanup_kind_ok(kind) {
        Some(CoreError::CleanupKind)
    } else if !cleanup_category_ok(category) {
        Some(CoreError::CleanupCategory)
    } else if !cleanup_sort_ok(sort) {
        Some(CoreError::CleanupSort)
    } else {
        None
    }
}

/// Checks a cleanup listing request.
pub fn validate_cleanup_query(page: u32, page_size: u32, kind: &str, category: &str, sort: &str) -> (r:
    Result<(), CoreError>)
    ensures
        match cleanup_query_error(page, page_size, kind@, category@, sort@) {
            Some(e) => r == Err::<(), CoreError>(e),
            None => r is Ok,
        },
{
    if page == 0 {
        return Err(CoreError::CleanupPageZero);
    }
    checked_page_size(page_size)?;
    let k = text::chars_of(kind);
    if !(text::eq_str(&k, "all") || text::eq_str(&k, "original") || text::eq_str(&k, "thumbnail")
        || text::eq_str(&k, "marked")) {
        return Err(CoreError::CleanupKind);
    }
    let c = text::chars_of(category);
    if !(text::eq_str(&c, "all") || text::eq_str(&c, "individual") || text::eq_str(&c, "group")
        || text::eq_str(&c, "community") || text::eq_str(&c, "unreferenced") || text::eq_str(
        &c,
        "unconfirmed",
    )) {
        return Err(CoreError::CleanupCategory);
    }
    if !sort_ok(&text::chars_of(sort)) {
        return Err(CoreError::CleanupSort);
    }
    Ok(())
}

/// Checks a cleanup group key: non-empty and at most 1,024 UTF-8 bytes.
pub fn validate_cleanup_group_key(group_key: &str) -> (r: Result<(), CoreError>)
    ensures
        (group_key@.len() > 0 && group_key.len() <= 1024) ==> r is Ok,
        !(group_key@.len() > 0 && group_key.len() <= 1024) ==> r
            == Err::<(), CoreError>(CoreError::CleanupGroupKey),
{
    if group_key.is_empty() || group_key.len() > 1024 {
        return Err(CoreError::CleanupGroupKey);
    }
    Ok(())
}

/// The number of items before page `page` of `page_size` items.
pub fn cleanup_offset(page: u32, page_size: usize) -> (r: Result<i64, CoreError>)
    requires
        page >= 1,
    ensures
        (page - 1) * page_size > u64::MAX ==> r == Err::<i64, CoreError>(
            CoreError::PageOffsetOverflow,
        ),
        (page - 1) * page_size <= u64::MAX && (page - 1) * page_size > i64::MAX ==> r == Err::<
            i64,
            CoreError,
        >(CoreError::PageOffsetTooLarge),
        (page - 1) * page_size <= i64::MAX ==> r == Ok::<i64, CoreError>(
            ((page - 1) * page_size) as i64,
        ),
{
    let before: u64 = (page - 1) as u64;
    let size: u64 = page_size as u64;
    match before.checked_mul(size) {
        Some(offset) => {
            if offset > i64::MAX as u64 {
                Err(CoreError::PageOffsetTooLarge)
            } else {
                Ok(offset as i64)
            }
        },
        None => Err(CoreError::PageOffsetOverflow),
    }
}

/// The number of pages of `page_size` items that `total_items` fill; an
/// empty listing still has one page.
pub open spec fn total_pages(total_items: u64, page_size: u32) -> int {
    if total_items == 0 {
        1
    } else {
        (total_items + page_size - 1) / (page_size as int)
    }
}

/// The number of pages of a cleanup listing.
pub fn cleanup_total_pages(total_items: u64, page_size: u32) -> (r: u64)
    requires
        page_size > 0,
    ensures
        r == total_pages(total_items, page_size),
{
    if total_items == 0 {
        return 1;
    }
    let size = page_size as u64;
    let q = total_items / size;
    let rem = total_items % size;
    assert(rem > 0 ==> q < u64::MAX) by (nonlinear_arith)
        requires
            size > 0,
            q == total_items / size,
            rem == total_items % size,
    {
        assert(total_items == q * size + rem);
        assert(q * size <= q * size);
        if rem > 0 && q >= u64::MAX {
            assert(q * size >= q);
        }
    }
    let r: u64 = if rem > 0 {
        q + 1
    } else {
        q
    };
    assert(r == (total_items + page_size - 1) / (page_size as int)) by (nonlinear_arith)
        requires
            size == page_size,
            size > 0,
            q == total_items / size,
            rem == total_items % size,
            r == if rem > 0 {
                q + 1
            } else {
                q as int
            },
    {
        assert(total_items == q * size + rem);
        assert(0 <= rem < size);
        if rem > 0 {
            assert(total_items + size - 1 == (q + 1) * size + (rem - 1));
        } else {
            assert(total_items + size - 1 == q * size + (size - 1));
        }
    }
    r
}

/// Whether `value` is a SHA-256 digest written as 64 hexadecimal digits.
pub open spec fn sha256_text(value: Seq<char>) -> bool {
    value.len() == 64 && forall|i: int| 0 <= i < value.len() ==> text::is_hex_digit(#[trigger] value[i])
}

/// Checks that a digest is 64 hexadecimal digits.
pub fn validate_sha256(value: &str) -> (r: Result<(), CoreError>)
    ensures
        sha256_text(value@) ==> r is Ok,
        !sha256_text(value@) ==> r == Err::<(), CoreError>(CoreError::Sha256Format),
{
    let v = text::chars_of(value);
    if v.len() != 64 {
        return Err(CoreError::Sha256Format);
    }
    let mut i: usize = 0;
    while i < v.len()
        invariant
            i <= v.len(),
            v@ == value@,
            forall|j: int| 0 <= j < i ==> text::is_hex_digit(#[trigger] v@[j]),
        decreases v.len() - i,
    {
        if !text::char_is_hex_digit(v[i]) {
            assert(!text::is_hex_digit(v@[i as int]));
            return Err(CoreError::Sha256Format);
        }
        i = i + 1;
    }
    Ok(())
}

/// Checks the reason of a bulk cleanup: `community` or `old_account`.
pub fn validate_bulk_reason(reason: &str) -> (r: Result<(), CoreError>)
    ensures
        (reason@ == "community"@ || reason@ == "old_account"@) ==> r is Ok,
        !(reason@ == "community"@ || reason@ == "old_account"@) ==> r == Err::<(), CoreError>(
            CoreError::BulkReason,
        ),
{
    let v = text::chars_of(reason);
    if text::eq_str(&v, "community") || text::eq_str(&v, "old_account") {
        Ok(())
    } else {
        Err(CoreError::BulkReason)
    }
}


// ---------------------------------------------------------------------
// Account folders
// ---------------------------------------------------------------------

/// A catalog row as plain values: the path and its size in bytes.
pub open spec fn path_rows(rows: Seq<(String, i64)>) -> Seq<(Seq<char>, i64)> {
    rows.map_values(|r: (String, i64)| (r.0@, r.1))
}

/// Whether a row belongs to an account other than the current one.
pub open spec fn row_is_old(row: (Seq<char>, i64), current: Option<Seq<char>>) -> bool {
    current is Some && (paths::private_store_account(row.0) matches Some((id, _)) && id
        != current.unwrap())
}

/// Whether a row belongs to the current account.
pub open spec fn row_is_current(row: (Seq<char>, i64), current: Option<Seq<char>>) -> bool {
    current is Some && (paths::private_store_account(row.0) matches Some((id, _)) && id
        == current.unwrap())
}

/// The account folders the rows lie in.
pub open spec fn account_folder_set(rows: Seq<(Seq<char>, i64)>) -> Set<Seq<char>>
    decreases rows.len(),
{
    if rows.len() == 0 {
        Set::empty()
    } else {
        let prev = account_folder_set(rows.drop_last());
        match paths::private_store_account(rows.last().0) {
            Some((_, folder)) => prev.insert(folder),
            None => prev,
        }
    }
}

/// The account folders of accounts other than the current one.
pub open spec fn old_folder_set(rows: Seq<(Seq<char>, i64)>, current: Option<Seq<char>>) -> Set<
    Seq<char>,
>
    decreases rows.len(),
{
    if rows.len() == 0 {
        Set::empty()
    } else {
        let prev = old_folder_set(rows.drop_last(), current);
        if row_is_old(rows.last(), current) {
            prev.insert(paths::private_store_account(rows.last().0).unwrap().1)
        } else {
            prev
        }
    }
}

/// Whether some row lies in the current account's folder.
pub open spec fn current_found(rows: Seq<(Seq<char>, i64)>, current: Option<Seq<char>>) -> bool
    decreases rows.len(),
{
    if rows.len() == 0 {
        false
    } else {
        current_found(rows.drop_last(), current) || row_is_current(rows.last(), current)
    }
}

/// Files of other accounts, counted up to the largest `u64`.
pub open spec fn old_file_count(rows: Seq<(Seq<char>, i64)>, current: Option<Seq<char>>) -> int
    decreases rows.len(),
{
    if rows.len() == 0 {
        0
    } else {
        let prev = old_file_count(rows.drop_last(), current);
        if row_is_old(rows.last(), current) {
            sat_add(prev, 1)
        } else {
            prev
        }
    }
}

/// Bytes of other accounts' files, negative sizes as zero, summed up to the largest `u64`.
pub open spec fn old_byte_count(rows: Seq<(Seq<char>, i64)>, current: Option<Seq<char>>) -> int
    decreases rows.len(),
{
    if rows.len() == 0 {
        0
    } else {
        let prev = old_byte_count(rows.drop_last(), current);
        if row_is_old(rows.last(), current) {
            sat_add(prev, if rows.last().1 < 0 { 0 } else { rows.last().1 as int })
        } else {
            prev
        }
    }
}

/// Adds `item` to a list of distinct texts unless it is already there.
fn push_unique(list: &mut Vec<Vec<char>>, item: Vec<char>)
    requires
        text::views(old(list)@).no_duplicates(),
    ensures
        text::views(final(list)@).no_duplicates(),
        text::views(final(list)@).to_set() == text::views(old(list)@).to_set().insert(item@),
{
    let ghost before = text::views(list@);
    let mut i: usize = 0;
    while i < list.len()
        invariant
            i <= list.len(),
            before == text::views(list@),
            before.no_duplicates(),
            forall|j: int| 0 <= j < i ==> list@[j]@ != item@,
        decreases list.len() - i,
    {
        if text::eq_chars(&list[i], &item) {
            proof {
                assert(before[i as int] == list@[i as int]@);
                assert(before[i as int] == item@);
                assert(before.to_set().contains(item@));
                assert(before.to_set().insert(item@) =~= before.to_set());
            }
            return;
        }
        i = i + 1;
    }
    let ghost it = item@;
    list.push(item);
    proof {
        assert(text::views(list@) =~= before.push(it));
        assert(!before.contains(it)) by {
            if before.contains(it) {
                let j = choose|j: int| 0 <= j < before.len() && before[j] == it;
                assert(list@[j]@ == it);
            }
        }
        assert forall|x: Seq<char>| before.push(it).to_set().contains(x) <==> before.to_set().insert(it).contains(x) by {
            if before.push(it).contains(x) {
                let k = choose|k: int| 0 <= k < before.push(it).len() && before.push(it)[k] == x;
                if k < before.len() {
                    assert(before[k] == x);
                }
            }
            if before.contains(x) {
                let k = choose|k: int| 0 <= k < before.len() && before[k] == x;
                assert(before.push(it)[k] == x);
            }
            assert(before.push(it)[before.len() as int] == it);
        }
        assert(before.push(it).to_set() =~= before.to_set().insert(it));
    }
}

/// Account folders of the catalog and what lies in accounts other than
/// the current one. Other accounts' folders are only counted once the
/// current account's folder has been seen.
pub fn old_account_summary(rows: &Vec<(String, i64)>, current_account_id: Option<&str>) -> (r:
    OldAccountSummary)
    ensures
        ({
            let rs = path_rows(rows@);
            let cur = match current_account_id {
                Some(c) => Some(c@),
                None => None,
            };
            &&& r.current_account_found == current_found(rs, cur)
            &&& r.account_folders == account_folder_set(rs).len()
            &&& r.old_account_folders == if current_found(rs, cur) {
                old_folder_set(rs, cur).len()
            } else {
                0
            }
            &&& r.old_account_files == old_file_count(rs, cur)
            &&& r.old_account_bytes == old_byte_count(rs, cur)
        }),
{
    let ghost rs = path_rows(rows@);
    let ghost cur = match current_account_id {
        Some(c) => Some(c@),
        None => None::<Seq<char>>,
    };
    let current: Option<Vec<char>> = match current_account_id {
        Some(c) => Some(text::chars_of(c)),
        None => None,
    };
    let mut folders: Vec<Vec<char>> = Vec::new();
    let mut old_folders: Vec<Vec<char>> = Vec::new();
    let mut found = false;
    let mut files: u64 = 0;
    let mut bytes: u64 = 0;
    let mut i: usize = 0;
    while i < rows.len()
        invariant
            i <= rows.len(),
            rs == path_rows(rows@),
            cur == match current {
                Some(c) => Some(c@),
                None => None::<Seq<char>>,
            },
            text::views(folders@).no_duplicates(),
            text::views(old_folders@).no_duplicates(),
            text::views(folders@).to_set() == account_folder_set(rs.take(i as int)),
            text::views(old_folders@).to_set() == old_folder_set(rs.take(i as int), cur),
            found == current_found(rs.take(i as int), cur),
            files == old_file_count(rs.take(i as int), cur),
            bytes == old_byte_count(rs.take(i as int), cur),
        decreases rows.len() - i,
    {
        let ghost before = rs.take(i as int);
        assert(rs.take(i + 1).drop_last() =~= before);
        assert(rs.take(i + 1).last() == rs[i as int]);
        let path = text::chars_of(rows[i].0.as_str());
        let size = rows[i].1;
        assert(rs[i as int] == (path@, size));
        match paths::private_store_account_chars(&path) {
            Some((id, folder)) => {
                let folder_copy = text::copy_chars(&folder);
                push_unique(&mut folders, folder_copy);
                match &current {
                    Some(c) => {
                        if text::eq_chars(c, &id) {
                            found = true;
                        } else {
                            push_unique(&mut old_folders, folder);
                            files = files.saturating_add(1);
                            let add: u64 = if size < 0 {
                                0
                            } else {
                                size as u64
                            };
                            bytes = bytes.saturating_add(add);
                        }
                    },
                    None => {},
                }
            },
            None => {},
        }
        i = i + 1;
    }
    assert(rs.take(rows.len() as int) =~= rs);
    proof {
        text::views(folders@).unique_seq_to_set();
        text::views(old_folders@).unique_seq_to_set();
    }
    let old_count: u64 = if found {
        old_folders.len() as u64
    } else {
        0
    };
    OldAccountSummary {
        current_account_found: found,
        account_folders: folders.len() as u64,
        old_account_folders: old_count,
        old_account_files: files,
        old_account_bytes: bytes,
    }
}
/// The size of the last of `rows` naming `path`, negative sizes as zero.
pub open spec fn last_size(rows: Seq<(String, i64)>, path: Seq<char>) -> Option<u64>
    decreases rows.len(),
{
    if rows.len() == 0 {
        None
    } else if rows.last().0@ == path {
        Some(if rows.last().1 < 0 { 0 } else { rows.last().1 as u64 })
    } else {
        last_size(rows.drop_last(), path)
    }
}

/// The paths of `items`.
pub open spec fn item_keys(items: Seq<(String, u64)>) -> Seq<Seq<char>> {
    items.map_values(|t: (String, u64)| t.0@)
}

/// What a keyed list says of `rows`: distinct paths, each with the size of
/// its last row, and every path of the rows.
pub open spec fn keyed_by_last(items: Seq<(String, u64)>, rows: Seq<(String, i64)>) -> bool {
    &&& item_keys(items).no_duplicates()
    &&& forall|i: int| 0 <= i < items.len() ==> last_size(rows, (#[trigger] items[i]).0@) == Some(items[i].1)
    &&& forall|p: Seq<char>| #[trigger] last_size(rows, p) is Some ==> item_keys(items).contains(p)
}

proof fn lemma_keys_unique_items_unique(items: Seq<(String, u64)>)
    requires
        item_keys(items).no_duplicates(),
    ensures
        items.no_duplicates(),
{
    assert forall|i: int, j: int| 0 <= i < items.len() && 0 <= j < items.len() && i != j implies items[i]
        != items[j] by {
        assert(item_keys(items)[i] == items[i].0@);
        assert(item_keys(items)[j] == items[j].0@);
    }
}

fn key_position(map: &Vec<(String, u64)>, path: &str) -> (r: Option<usize>)
    ensures
        r matches Some(q) ==> q < map.len() && map@[q as int].0@ == path@,
        r is None ==> forall|q: int| 0 <= q < map.len() ==> #[trigger] map@[q].0@ != path@,
{
    let w = text::chars_of(path);
    let mut k: usize = 0;
    while k < map.len()
        invariant
            k <= map.len(),
            w@ == path@,
            forall|q: int| 0 <= q < k ==> #[trigger] map@[q].0@ != path@,
        decreases map.len() - k,
    {
        if text::eq_chars(&text::chars_of(map[k].0.as_str()), &w) {
            return Some(k);
        }
        k = k + 1;
    }
    None
}

/// The files of a community cleanup, from the catalog rows `(path, bytes)`
/// that name them: each path once with the size of its last row (negative
/// sizes as zero), ordered by path.
pub fn community_cleanup_paths(rows: &Vec<(String, i64)>) -> (r: Vec<(String, u64)>)
    ensures
        crate::order::keys_sorted(r@),
        keyed_by_last(r@, rows@),
{
    let mut map: Vec<(String, u64)> = Vec::new();
    let mut n: usize = 0;
    while n < rows.len()
        invariant
            n <= rows.len(),
            keyed_by_last(map@, rows@.take(n as int)),
        decreases rows.len() - n,
    {
        let ghost prev_rows = rows@.take(n as int);
        let ghost next_rows = rows@.take(n + 1);
        assert(next_rows.drop_last() =~= prev_rows);
        assert(next_rows.last() == rows@[n as int]);
        let path = &rows[n].0;
        let size: u64 = if rows[n].1 < 0 {
            0
        } else {
            rows[n].1 as u64
        };
        let found = key_position(&map, path.as_str());
        let ghost old_map = map@;
        match found {
            Some(q) => {
                map.remove(q);
                map.insert(q, (path.clone(), size));
                proof {
                    assert(map@ =~= old_map.update(q as int, (map@[q as int].0, size)));
                    assert(item_keys(map@) =~= item_keys(old_map));
                    assert forall|i: int| 0 <= i < map@.len() implies last_size(next_rows, (#[trigger] map@[i]).0@)
                        == Some(map@[i].1) by {
                        if i != q {
                            assert(item_keys(old_map)[i] == old_map[i].0@);
                            assert(item_keys(old_map)[q as int] == old_map[q as int].0@);
                        }
                    }
                    assert forall|p: Seq<char>| #[trigger] last_size(next_rows, p) is Some implies item_keys(
                        map@,
                    ).contains(p) by {
                        if p == path@ {
                            assert(item_keys(map@)[q as int] == p);
                        } else {
                            assert(last_size(prev_rows, p) is Some);
                            assert(item_keys(old_map).contains(p));
                        }
                    }
                }
            },
            None => {
                map.push((path.clone(), size));
                proof {
                    assert(item_keys(map@) =~= item_keys(old_map).push(path@));
                    assert(!item_keys(old_map).contains(path@)) by {
                        if item_keys(old_map).contains(path@) {
                            let q = choose|q: int| 0 <= q < old_map.len() && item_keys(old_map)[q] == path@;
                            assert(old_map[q].0@ == path@);
                        }
                    }
                    assert forall|i: int| 0 <= i < map@.len() implies last_size(next_rows, (#[trigger] map@[i]).0@)
                        == Some(map@[i].1) by {
                        if i < old_map.len() {
                            assert(map@[i] == old_map[i]);
                        }
                    }
                    assert forall|p: Seq<char>| #[trigger] last_size(next_rows, p) is Some implies item_keys(
                        map@,
                    ).contains(p) by {
                        if p == path@ {
                            assert(item_keys(map@)[old_map.len() as int] == p);
                        } else {
                            assert(last_size(prev_rows, p) is Some);
                            let q = choose|q: int| 0 <= q < old_map.len() && item_keys(old_map)[q] == p;
                            assert(item_keys(map@)[q] == p);
                        }
                    }
                }
            },
        }
        n = n + 1;
    }
    assert(rows@.take(rows.len() as int) =~= rows@);
    let ghost unsorted = map@;
    let sorted = crate::order::sort_keyed(map);
    proof {
        let s = sorted@;
        lemma_keys_unique_items_unique(unsorted);
        unsorted.lemma_multiset_has_no_duplicates();
        assert forall|x: (String, u64)| s.to_multiset().contains(x) implies s.to_multiset().count(x)
            == 1 by {}
        s.lemma_multiset_has_no_duplicates_conv();
        assert forall|i: int| 0 <= i < s.len() implies #[trigger] unsorted.contains(s[i]) by {
            assert(s.to_multiset().count(s[i]) > 0);
        }
        assert forall|i: int| 0 <= i < s.len() implies last_size(rows@, (#[trigger] s[i]).0@) == Some(
            s[i].1,
        ) by {
            assert(unsorted.contains(s[i]));
            let j = choose|j: int| 0 <= j < unsorted.len() && unsorted[j] == s[i];
        }
        assert forall|a: int, b: int| 0 <= a < s.len() && 0 <= b < s.len() && a != b implies item_keys(
            s,
        )[a] != item_keys(s)[b] by {
            assert(unsorted.contains(s[a]));
            assert(unsorted.contains(s[b]));
            let ja = choose|j: int| 0 <= j < unsorted.len() && unsorted[j] == s[a];
            let jb = choose|j: int| 0 <= j < unsorted.len() && unsorted[j] == s[b];
            if item_keys(s)[a] == item_keys(s)[b] {
                assert(item_keys(unsorted)[ja] == item_keys(unsorted)[jb]);
                assert(ja == jb);
            }
        }
        assert forall|p: Seq<char>| #[trigger] last_size(rows@, p) is Some implies item_keys(s).contains(p) by {
            let j = choose|j: int| 0 <= j < unsorted.len() && item_keys(unsorted)[j] == p;
            assert(unsorted.to_multiset().count(unsorted[j]) > 0);
            assert(s.to_multiset().count(unsorted[j]) > 0);
            let i = choose|i: int| 0 <= i < s.len() && s[i] == unsorted[j];
            assert(item_keys(s)[i] == p);
        }
    }
    sorted
}

/// Files and bytes of a community cleanup; bytes add up to the largest
/// `u64`.
pub fn community_cleanup_summary(paths: &Vec<(String, u64)>) -> (r: BulkRemovalSummary)
    ensures
        r.files == paths.len(),
        r.bytes == size_total(paths@),
{
    let mut bytes: u64 = 0;
    let mut i: usize = 0;
    while i < paths.len()
        invariant
            i <= paths.len(),
            bytes == size_total(paths@.take(i as int)),
        decreases paths.len() - i,
    {
        assert(paths@.take(i + 1).drop_last() =~= paths@.take(i as int));
        assert(paths@.take(i + 1).last() == paths@[i as int]);
        bytes = bytes.saturating_add(paths[i].1);
        i = i + 1;
    }
    assert(paths@.take(paths.len() as int) =~= paths@);
    BulkRemovalSummary { files: paths.len() as u64, bytes }
}

/// Sizes of `paths`, added up to the largest `u64`.
pub open spec fn size_total(paths: Seq<(String, u64)>) -> int
    decreases paths.len(),
{
    if paths.len() == 0 {
        0
    } else {
        sat_add(size_total(paths.drop_last()), paths.last().1 as int)
    }
}

/// The old account folders are account folders: they are a part of what
/// the catalog counts as account folders, and never more of them.
pub proof fn lemma_old_folders_are_account_folders(rows: Seq<(Seq<char>, i64)>, current: Option<Seq<char>>)
    ensures
        old_folder_set(rows, current).subset_of(account_folder_set(rows)),
        old_folder_set(rows, current).finite(),
        account_folder_set(rows).finite(),
        old_folder_set(rows, current).len() <= account_folder_set(rows).len(),
    decreases rows.len(),
{
    if rows.len() > 0 {
        lemma_old_folders_are_account_folders(rows.drop_last(), current);
    }
    vstd::set_lib::lemma_len_subset(old_folder_set(rows, current), account_folder_set(rows));
}

/// The pages of a listing hold all its items and no more: every item lies
/// on a page, and the last page is not empty unless the listing is.
pub proof fn lemma_pages_cover_items(total_items: u64, page_size: u32)
    requires
        page_size > 0,
    ensures
        total_pages(total_items, page_size) >= 1,
        total_pages(total_items, page_size) * page_size >= total_items,
        total_items > 0 ==> (total_pages(total_items, page_size) - 1) * page_size < total_items,
{
    if total_items > 0 {
        let p = total_pages(total_items, page_size);
        let n = total_items as int;
        let s = page_size as int;
        assert(p == (n + s - 1) / s);
        assert(p * s >= n && (p - 1) * s < n && p >= 1) by (nonlinear_arith)
            requires
                p == (n + s - 1) / s,
                s > 0,
                n > 0,
        {
            let q = (n + s - 1) / s;
            let r = (n + s - 1) % s;
            assert(n + s - 1 == q * s + r);
            assert(0 <= r < s);
        }
    }
}


/// A LINE Square message whose chat no longer exists.
#[derive(Debug, Clone, PartialEq, Eq)]
pub struct OrphanMessage {
    pub pk: i64,
    pub id: String,
    pub chat_pk: Option<i64>,
}

/// Why the automatic cleanup offers a chat for removal.
#[derive(Debug, Clone, Copy, PartialEq, Eq)]
pub enum AutomaticRemovalReason {
    Empty,
    SystemOnly,
}

impl AutomaticRemovalReason {
    /// The reason as the catalog stores it.
    pub fn as_str(self) -> (r: &'static str)
        ensures
            self is Empty ==> r@ == "empty"@,
            self is SystemOnly ==> r@ == "system_only"@,
    {
        match self {
            AutomaticRemovalReason::Empty => "empty",
            AutomaticRemovalReason::SystemOnly => "system_only",
        }
    }
}

/// What the automatic cleanup does to the catalog.
#[derive(Debug, Clone, PartialEq, Eq)]
pub enum AutomaticCleanupStep {
    /// An automatic plan already stands: it is withdrawn and nothing is planned.
    Withdraw,
    /// The chats at these positions are planned with these reasons; the orphan
    /// messages are planned when `plan_orphans` holds; the activity log records
    /// `recorded_items`.
    Plan {
        chats: Vec<(usize, AutomaticRemovalReason)>,
        plan_orphans: bool,
        recorded_items: u64,
    },
}

/// The reason for one chat.
pub open spec fn automatic_reason(c: Chat) -> AutomaticRemovalReason {
    if c.message_count == 0 {
        AutomaticRemovalReason::Empty
    } else {
        AutomaticRemovalReason::SystemOnly
    }
}

/// The chats that the automatic cleanup plans, with their reasons: every chat
/// but the community ones when a community cleanup is already planned.
pub open spec fn automatic_targets(chats: Seq<Chat>, community_planned: bool) -> Seq<
    (usize, AutomaticRemovalReason),
>
    decreases chats.len(),
{
    if chats.len() == 0 {
        seq![]
    } else {
        let prev = automatic_targets(chats.drop_last(), community_planned);
        let c = chats.last();
        if community_planned && c.source@ == "square"@ {
            prev
        } else {
            prev.push(((chats.len() - 1) as usize, automatic_reason(c)))
        }
    }
}

/// Decides the automatic cleanup of empty and system-only chats and of
/// orphaned community messages. A second request withdraws the plan; chats and
/// messages of the community are left to a community cleanup that already
/// stands.
pub fn automatic_cleanup_step(
    already_planned: bool,
    community_planned: bool,
    chats: &Vec<Chat>,
    orphan_messages: &Vec<OrphanMessage>,
) -> (r: AutomaticCleanupStep)
    requires
        chats.len() + orphan_messages.len() <= usize::MAX,
    ensures
        already_planned ==> r == AutomaticCleanupStep::Withdraw,
        !already_planned ==> match r {
            AutomaticCleanupStep::Plan { chats: picked, plan_orphans, recorded_items } => {
                &&& picked@ == automatic_targets(chats@, community_planned)
                &&& plan_orphans == !community_planned
                &&& recorded_items == chats.len() + orphan_messages.len()
            },
            AutomaticCleanupStep::Withdraw => false,
        },
{
    if already_planned {
        return AutomaticCleanupStep::Withdraw;
    }
    let mut picked: Vec<(usize, AutomaticRemovalReason)> = Vec::new();
    let mut i: usize = 0;
    while i < chats.len()
        invariant
            i <= chats.len(),
            picked@ == automatic_targets(chats@.take(i as int), community_planned),
        decreases chats.len() - i,
    {
        assert(chats@.take(i + 1).drop_last() =~= chats@.take(i as int));
        let chat = &chats[i];
        let skip = community_planned && text::eq_str(&text::chars_of(chat.source.as_str()), "square");
        if !skip {
            let reason = if chat.message_count == 0 {
                AutomaticRemovalReason::Empty
            } else {
                AutomaticRemovalReason::SystemOnly
            };
            picked.push((i, reason));
        }
        i = i + 1;
    }
    assert(chats@.take(chats.len() as int) =~= chats@);
    let recorded = chats.len() + orphan_messages.len();
    AutomaticCleanupStep::Plan {
        chats: picked,
        plan_orphans: !community_planned,
        recorded_items: recorded as u64,
    }
}


/// A count read from the catalog, negative ones taken as none.
pub open spec fn clamped(v: i64) -> int {
    if v < 0 {
        0
    } else {
        v as int
    }
}

/// The overview category a grouped row is counted under: its own when it is
/// one of the four named ones, else `unconfirmed`.
pub open spec fn overview_slot(name: Seq<char>) -> Seq<char> {
    if name == "individual"@ || name == "group"@ || name == "community"@ || name
        == "unreferenced"@ {
        name
    } else {
        "unconfirmed"@
    }
}

/// The `k`th category of the cleanup overview, in the order it lists them.
pub open spec fn overview_category(k: int) -> Seq<char> {
    if k == 0 {
        "all"@
    } else if k == 1 {
        "individual"@
    } else if k == 2 {
        "group"@
    } else if k == 3 {
        "community"@
    } else if k == 4 {
        "unreferenced"@
    } else {
        "unconfirmed"@
    }
}

/// Files and bytes of `slot` over the grouped rows `(category, files, bytes)`;
/// `all` counts every row. Sums are held at the largest `u64`.
pub open spec fn overview_tally(rows: Seq<(String, i64, i64)>, slot: Seq<char>) -> (int, int)
    decreases rows.len(),
{
    if rows.len() == 0 {
        (0, 0)
    } else {
        let prev = overview_tally(rows.drop_last(), slot);
        let r = rows.last();
        if slot == "all"@ || overview_slot(r.0@) == slot {
            (sat_add(prev.0, clamped(r.1)), sat_add(prev.1, clamped(r.2)))
        } else {
            prev
        }
    }
}

proof fn lemma_overview_distinct(a: int, b: int)
    requires
        0 <= a < 6,
        0 <= b < 6,
        a != b,
    ensures
        overview_category(a) != overview_category(b),
{
    reveal_strlit("all");
    reveal_strlit("individual");
    reveal_strlit("group");
    reveal_strlit("community");
    reveal_strlit("unreferenced");
    reveal_strlit("unconfirmed");
    assert("all"@.len() == 3);
    assert("individual"@.len() == 10);
    assert("group"@.len() == 5);
    assert("community"@.len() == 9);
    assert("unreferenced"@.len() == 12);
    assert("unconfirmed"@.len() == 11);
    assert(overview_category(a).len() != overview_category(b).len());
}

/// Files (`files`) or bytes (`!files`) of the rows counted under `slot`,
/// summed without a bound.
pub open spec fn slot_sum(rows: Seq<(String, i64, i64)>, slot: Seq<char>, files: bool) -> int
    decreases rows.len(),
{
    if rows.len() == 0 {
        0
    } else {
        let r = rows.last();
        slot_sum(rows.drop_last(), slot, files) + if slot == "all"@ || overview_slot(r.0@) == slot {
            if files {
                clamped(r.1)
            } else {
                clamped(r.2)
            }
        } else {
            0
        }
    }
}

proof fn lemma_slot_sum_monotone(rows: Seq<(String, i64, i64)>, slot: Seq<char>, files: bool)
    ensures
        0 <= slot_sum(rows.drop_last(), slot, files) <= slot_sum(rows, slot, files) || rows.len() == 0,
        0 <= slot_sum(rows, slot, files),
    decreases rows.len(),
{
    if rows.len() > 0 {
        lemma_slot_sum_monotone(rows.drop_last(), slot, files);
    }
}

proof fn lemma_tally_unbounded(rows: Seq<(String, i64, i64)>, slot: Seq<char>)
    requires
        slot_sum(rows, slot, true) <= u64::MAX,
        slot_sum(rows, slot, false) <= u64::MAX,
    ensures
        overview_tally(rows, slot) == (slot_sum(rows, slot, true), slot_sum(rows, slot, false)),
    decreases rows.len(),
{
    if rows.len() > 0 {
        lemma_slot_sum_monotone(rows, slot, true);
        lemma_slot_sum_monotone(rows, slot, false);
        lemma_slot_sum_monotone(rows.drop_last(), slot, true);
        lemma_slot_sum_monotone(rows.drop_last(), slot, false);
        lemma_tally_unbounded(rows.drop_last(), slot);
    }
}

proof fn lemma_all_is_sum_of_slots(rows: Seq<(String, i64, i64)>, files: bool)
    ensures
        slot_sum(rows, "all"@, files) == slot_sum(rows, overview_category(1), files) + slot_sum(
            rows,
            overview_category(2),
            files,
        ) + slot_sum(rows, overview_category(3), files) + slot_sum(rows, overview_category(4), files)
            + slot_sum(rows, overview_category(5), files),
    decreases rows.len(),
{
    if rows.len() > 0 {
        lemma_all_is_sum_of_slots(rows.drop_last(), files);
        let name = overview_slot(rows.last().0@);
        reveal_strlit("all");
        reveal_strlit("individual");
        reveal_strlit("group");
        reveal_strlit("community");
        reveal_strlit("unreferenced");
        reveal_strlit("unconfirmed");
        assert(name == overview_category(1) || name == overview_category(2) || name
            == overview_category(3) || name == overview_category(4) || name == overview_category(5));
        lemma_overview_distinct(1, 2);
        lemma_overview_distinct(1, 3);
        lemma_overview_distinct(1, 4);
        lemma_overview_distinct(1, 5);
        lemma_overview_distinct(2, 3);
        lemma_overview_distinct(2, 4);
        lemma_overview_distinct(2, 5);
        lemma_overview_distinct(3, 4);
        lemma_overview_distinct(3, 5);
        lemma_overview_distinct(4, 5);
        lemma_overview_distinct(0, 1);
        lemma_overview_distinct(0, 2);
        lemma_overview_distinct(0, 3);
        lemma_overview_distinct(0, 4);
        lemma_overview_distinct(0, 5);
    }
}

/// Law: in the cleanup overview, the `all` total is the sum of the five
/// category totals, for files and for bytes, whenever no total reaches the
/// largest `u64`: every grouped row counts under exactly one category.
pub proof fn lemma_all_category_is_the_sum(rows: Seq<(String, i64, i64)>)
    requires
        slot_sum(rows, "all"@, true) <= u64::MAX,
        slot_sum(rows, "all"@, false) <= u64::MAX,
    ensures
        overview_tally(rows, overview_category(0)).0 == overview_tally(rows, overview_category(1)).0
            + overview_tally(rows, overview_category(2)).0 + overview_tally(rows, overview_category(3)).0
            + overview_tally(rows, overview_category(4)).0 + overview_tally(
            rows,
            overview_category(5),
        ).0,
        overview_tally(rows, overview_category(0)).1 == overview_tally(rows, overview_category(1)).1
            + overview_tally(rows, overview_category(2)).1 + overview_tally(rows, overview_category(3)).1
            + overview_tally(rows, overview_category(4)).1 + overview_tally(
            rows,
            overview_category(5),
        ).1,
{
    lemma_all_is_sum_of_slots(rows, true);
    lemma_all_is_sum_of_slots(rows, false);
    lemma_slot_sum_monotone(rows, overview_category(1), true);
    lemma_slot_sum_monotone(rows, overview_category(2), true);
    lemma_slot_sum_monotone(rows, overview_category(3), true);
    lemma_slot_sum_monotone(rows, overview_category(4), true);
    lemma_slot_sum_monotone(rows, overview_category(5), true);
    lemma_slot_sum_monotone(rows, overview_category(1), false);
    lemma_slot_sum_monotone(rows, overview_category(2), false);
    lemma_slot_sum_monotone(rows, overview_category(3), false);
    lemma_slot_sum_monotone(rows, overview_category(4), false);
    lemma_slot_sum_monotone(rows, overview_category(5), false);
    lemma_tally_unbounded(rows, overview_category(0));
    lemma_tally_unbounded(rows, overview_category(1));
    lemma_tally_unbounded(rows, overview_category(2));
    lemma_tally_unbounded(rows, overview_category(3));
    lemma_tally_unbounded(rows, overview_category(4));
    lemma_tally_unbounded(rows, overview_category(5));
}

fn overview_index(name: &str) -> (r: usize)
    ensures
        1 <= r < 6,
        overview_category(r as int) == overview_slot(name@),
{
    let v = text::chars_of(name);
    if text::eq_str(&v, "individual") {
        1
    } else if text::eq_str(&v, "group") {
        2
    } else if text::eq_str(&v, "community") {
        3
    } else if text::eq_str(&v, "unreferenced") {
        4
    } else {
        5
    }
}

fn clamp_count(v: i64) -> (r: u64)
    ensures
        r == clamped(v),
{
    if v < 0 {
        0
    } else {
        v as u64
    }
}

/// Totals of the cleanup overview from the catalog's rows grouped by
/// category: one total per overview category, `all` first; a row of a
/// category the overview does not name counts as unconfirmed.
/// `lemma_all_category_is_the_sum` shows that `all` is the sum of the
/// other five.
pub fn cleanup_category_totals(rows: &Vec<(String, i64, i64)>) -> (r: Vec<CleanupCategoryTotal>)
    ensures
        r.len() == 6,
        forall|k: int|
            0 <= k < 6 ==> {
                &&& (#[trigger] r@[k]).category@ == overview_category(k)
                &&& r@[k].file_count == overview_tally(rows@, overview_category(k)).0
                &&& r@[k].bytes == overview_tally(rows@, overview_category(k)).1
            },
{
    let mut files: Vec<u64> = vec![0, 0, 0, 0, 0, 0];
    let mut bytes: Vec<u64> = vec![0, 0, 0, 0, 0, 0];
    let mut i: usize = 0;
    while i < rows.len()
        invariant
            i <= rows.len(),
            files.len() == 6,
            bytes.len() == 6,
            forall|k: int|
                0 <= k < 6 ==> #[trigger] files@[k] == overview_tally(rows@.take(i as int), overview_category(k)).0,
            forall|k: int|
                0 <= k < 6 ==> #[trigger] bytes@[k] == overview_tally(rows@.take(i as int), overview_category(k)).1,
        decreases rows.len() - i,
    {
        assert(rows@.take(i + 1).drop_last() =~= rows@.take(i as int));
        assert(rows@.take(i + 1).last() == rows@[i as int]);
        let row = &rows[i];
        let slot = overview_index(row.0.as_str());
        let f = clamp_count(row.1);
        let b = clamp_count(row.2);
        let ghost before_files = files@;
        let ghost before_bytes = bytes@;
        let nf = files[slot].saturating_add(f);
        files.set(slot, nf);
        let nb = bytes[slot].saturating_add(b);
        bytes.set(slot, nb);
        let af = files[0].saturating_add(f);
        files.set(0, af);
        let ab = bytes[0].saturating_add(b);
        bytes.set(0, ab);
        proof {
            assert forall|k: int| 0 <= k < 6 implies #[trigger] files@[k] == overview_tally(
                rows@.take(i + 1),
                overview_category(k),
            ).0 by {
                if k != 0 {
                    lemma_overview_distinct(k, 0);
                }
                if k != 0 && k != slot {
                    lemma_overview_distinct(k, slot as int);
                }
            }
            assert forall|k: int| 0 <= k < 6 implies #[trigger] bytes@[k] == overview_tally(
                rows@.take(i + 1),
                overview_category(k),
            ).1 by {
                if k != 0 {
                    lemma_overview_distinct(k, 0);
                }
                if k != 0 && k != slot {
                    lemma_overview_distinct(k, slot as int);
                }
            }
        }
        i = i + 1;
    }
    assert(rows@.take(rows.len() as int) =~= rows@);
    let mut out: Vec<CleanupCategoryTotal> = Vec::new();
    let mut k: usize = 0;
    while k < 6
        invariant
            k <= 6,
            files.len() == 6,
            bytes.len() == 6,
            out.len() == k,
            forall|q: int| 0 <= q < 6 ==> #[trigger] files@[q] == overview_tally(rows@, overview_category(q)).0,
            forall|q: int| 0 <= q < 6 ==> #[trigger] bytes@[q] == overview_tally(rows@, overview_category(q)).1,
            forall|q: int|
                0 <= q < k ==> {
                    &&& (#[trigger] out@[q]).category@ == overview_category(q)
                    &&& out@[q].file_count == files@[q]
                    &&& out@[q].bytes == bytes@[q]
                },
        decreases 6 - k,
    {
        let name = if k == 0 {
            "all"
        } else if k == 1 {
            "individual"
        } else if k == 2 {
            "group"
        } else if k == 3 {
            "community"
        } else if k == 4 {
            "unreferenced"
        } else {
            "unconfirmed"
        };
        out.push(CleanupCategoryTotal { category: text::to_string(name), file_count: files[k], bytes: bytes[k] });
        k = k + 1;
    }
    out
}


/// A reason the catalog keeps for a planned chat removal.
pub open spec fn chat_reason_ok(reason: Seq<char>) -> bool {
    reason == "selected"@ || reason == "empty"@ || reason == "system_only"@
}

/// The first rule a chat removal request breaks, if any: its source, its
/// reason, and, when it plans a community chat, a community cleanup that
/// already holds all community data.
pub open spec fn chat_removal_error(
    source: Seq<char>,
    reason: Seq<char>,
    planned: bool,
    community_planned: bool,
) -> Option<CoreError> {
    if !(source == "line"@ || source == "square"@) {
        Some(CoreError::ChatSource)
    } else if !chat_reason_ok(reason) {
        Some(CoreError::ChatRemovalReason)
    } else if planned && source == "square"@ && community_planned {
        Some(CoreError::CommunityAlreadyPlanned)
    } else {
        None
    }
}

/// Checks a request to plan or withdraw the removal of one chat.
pub fn check_chat_removal(source: &str, reason: &str, planned: bool, community_planned: bool) -> (r:
    Result<(), CoreError>)
    ensures
        r == match chat_removal_error(source@, reason@, planned, community_planned) {
            Some(e) => Err::<(), CoreError>(e),
            None => Ok(()),
        },
{
    let s = text::chars_of(source);
    let is_line = text::eq_str(&s, "line");
    let is_square = text::eq_str(&s, "square");
    if !(is_line || is_square) {
        return Err(CoreError::ChatSource);
    }
    let reason_chars = text::chars_of(reason);
    if !(text::eq_str(&reason_chars, "selected") || text::eq_str(&reason_chars, "empty")
        || text::eq_str(&reason_chars, "system_only")) {
        return Err(CoreError::ChatRemovalReason);
    }
    if planned && is_square && community_planned {
        return Err(CoreError::CommunityAlreadyPlanned);
    }
    Ok(())
}

/// The activity a chat removal request records, and the chat it names:
/// `<source>:<key>`.
pub fn chat_removal_activity(planned: bool, source: &str, chat_pk: i64) -> (r: (&'static str, String))
    ensures
        r.0@ == if planned {
            "plan_chat_removal"@
        } else {
            "clear_chat_removal"@
        },
        r.1@ == source@ + ":"@ + text::decimal_int(chat_pk as int),
{
    let mut target = text::chars_of(source);
    text::append_str(&mut target, ":");
    text::push_decimal_i64(&mut target, chat_pk);
    let name = if planned {
        "plan_chat_removal"
    } else {
        "clear_chat_removal"
    };
    (name, text::string_of(&target))
}

/// A relative entry path of the LINE Square database inside a backup.
pub open spec fn square_entry_ok(entry: Seq<char>) -> bool {
    &&& entry.len() > 0
    &&& !text::starts_with(entry, "/"@)
    &&& !text::has_char(entry, '\\')
    &&& text::ends_with(entry, "/Messages/LineSquare.sqlite"@)
}

/// Checks a request for a community cleanup: the LINE Square database
/// entry, and that every chat handed in is a community chat.
pub fn check_community_request(chats: &Vec<Chat>, database_entry: &str) -> (r: Result<(), CoreError>)
    ensures
        r == if !square_entry_ok(database_entry@) {
            Err::<(), CoreError>(CoreError::SquareSourcePath)
        } else if exists|i: int| 0 <= i < chats@.len() && #[trigger] chats@[i].source@ != "square"@ {
            Err(CoreError::NonCommunityChat)
        } else {
            Ok(())
        },
{
    let e = text::chars_of(database_entry);
    if e.len() == 0 || text::has_prefix(&e, &text::chars_of("/")) || text::contains_char(&e, '\\')
        || !text::has_suffix(&e, &text::chars_of("/Messages/LineSquare.sqlite")) {
        return Err(CoreError::SquareSourcePath);
    }
    let mut i: usize = 0;
    while i < chats.len()
        invariant
            i <= chats.len(),
            square_entry_ok(database_entry@),
            forall|j: int| 0 <= j < i ==> (#[trigger] chats@[j]).source@ == "square"@,
        decreases chats.len() - i,
    {
        if !text::eq_str(&text::chars_of(chats[i].source.as_str()), "square") {
            return Err(CoreError::NonCommunityChat);
        }
        i = i + 1;
    }
    Ok(())
}

/// What a community cleanup stores and records.
#[derive(Debug, Clone, Copy, PartialEq, Eq)]
pub struct CommunityPlanCounts {
    pub chat_count: i64,
    pub message_count: i64,
    /// Files and bytes the activity log records: those of the cleanup when
    /// it is planned, none when it is withdrawn.
    pub recorded_files: u64,
    pub recorded_bytes: u64,
}

/// Counts a community cleanup from the files it removes. Planning it needs
/// the LINE Square database among those files; its counts must fit the
/// catalog's integers.
pub fn community_plan_counts(
    paths: &Vec<(String, u64)>,
    database_entry: &str,
    planned: bool,
    chat_count: usize,
    message_count: u64,
) -> (r: Result<CommunityPlanCounts, CoreError>)
    ensures
        r == if planned && !(exists|i: int|
            0 <= i < paths@.len() && #[trigger] paths@[i].0@ == database_entry@) {
            Err::<CommunityPlanCounts, CoreError>(CoreError::SquareDatabaseNotCataloged)
        } else if chat_count > i64::MAX {
            Err(CoreError::TooManyCommunityChats)
        } else if message_count > i64::MAX {
            Err(CoreError::TooManyCommunityMessages)
        } else {
            Ok(
                CommunityPlanCounts {
                    chat_count: chat_count as i64,
                    message_count: message_count as i64,
                    recorded_files: if planned {
                        paths.len() as u64
                    } else {
                        0
                    },
                    recorded_bytes: if planned {
                        size_total(paths@) as u64
                    } else {
                        0
                    },
                },
            )
        },
{
    let summary = community_cleanup_summary(paths);
    if planned {
        let entry = text::chars_of(database_entry);
        let mut found = false;
        let mut i: usize = 0;
        while i < paths.len()
            invariant
                i <= paths.len(),
                entry@ == database_entry@,
                found == exists|j: int| 0 <= j < i && #[trigger] paths@[j].0@ == database_entry@,
            decreases paths.len() - i,
        {
            if text::eq_chars(&text::chars_of(paths[i].0.as_str()), &entry) {
                found = true;
            }
            i = i + 1;
        }
        if !found {
            return Err(CoreError::SquareDatabaseNotCataloged);
        }
    }
    if chat_count as u64 > 0x7fff_ffff_ffff_ffffu64 {
        return Err(CoreError::TooManyCommunityChats);
    }
    if message_count > 0x7fff_ffff_ffff_ffffu64 {
        return Err(CoreError::TooManyCommunityMessages);
    }
    Ok(
        CommunityPlanCounts {
            chat_count: chat_count as i64,
            message_count: message_count as i64,
            recorded_files: if planned {
                summary.files
            } else {
                0
            },
            recorded_bytes: if planned {
                summary.bytes
            } else {
                0
            },
        },
    )
}

/// What a request on one cleanup group does.
#[derive(Debug, Clone, Copy, PartialEq, Eq)]
pub enum GroupAction {
    /// Plans every file of the group, or withdraws them all when all are
    /// planned; while thumbnails are kept, the kept thumbnails stay out.
    ToggleAll,
    /// Plans the image originals whose thumbnails stay, or withdraws that.
    KeepThumbnail,
}

/// Checks a request on a cleanup group: its key, then its action.
pub fn cleanup_group_action(group_key: &str, action: &str) -> (r: Result<GroupAction, CoreError>)
    ensures
        !(group_key@.len() > 0 && group_key.len() <= 1024) ==> r == Err::<GroupAction, CoreError>(
            CoreError::CleanupGroupKey,
        ),
        group_key@.len() > 0 && group_key.len() <= 1024 ==> r == if action@ == "toggle_all"@ {
            Ok::<GroupAction, CoreError>(GroupAction::ToggleAll)
        } else if action@ == "keep_thumbnail"@ {
            Ok(GroupAction::KeepThumbnail)
        } else {
            Err(CoreError::CleanupGroupAction)
        },
{
    validate_cleanup_group_key(group_key)?;
    let a = text::chars_of(action);
    if text::eq_str(&a, "toggle_all") {
        Ok(GroupAction::ToggleAll)
    } else if text::eq_str(&a, "keep_thumbnail") {
        Ok(GroupAction::KeepThumbnail)
    } else {
        Err(CoreError::CleanupGroupAction)
    }
}

/// The files of a cleanup group as the catalog counts them: all of them,
/// the planned ones, the thumbnail-backed image originals (planned or
/// not), the image thumbnails kept for an original, and the planned ones
/// among those.
#[derive(Debug, Clone, Copy, PartialEq, Eq)]
pub struct GroupCounts {
    pub total: i64,
    pub marked: i64,
    pub thumbnail_backed_images: i64,
    pub marked_thumbnail_backed_images: i64,
    pub image_thumbnails: i64,
    pub marked_image_thumbnails: i64,
}

/// Thumbnails are being kept in the group: every thumbnail-backed original
/// is planned and none of their thumbnails is.
pub open spec fn keeping_thumbnails(c: GroupCounts) -> bool {
    c.thumbnail_backed_images > 0 && c.marked_thumbnail_backed_images == c.thumbnail_backed_images
        && c.marked_image_thumbnails == 0
}

/// The change a group action makes to the removal plan.
#[derive(Debug, Clone, Copy, PartialEq, Eq)]
pub enum GroupPlanChange {
    /// Withdraw every file of the group.
    UnmarkAll,
    /// Plan every file of the group.
    MarkAll,
    /// Plan every file of the group but the kept image thumbnails.
    MarkAllButKeptThumbnails,
    /// Withdraw every file of the group but the thumbnail-backed image
    /// originals, which keeping thumbnails plans.
    UnmarkAllButKeptOriginals,
    /// Withdraw the image originals whose thumbnails were being kept.
    RestoreOriginals,
    /// Plan the image originals whose thumbnails stay, and withdraw those
    /// thumbnails.
    KeepThumbnails,
}

/// What a group action changes, on the group's counts.
pub open spec fn group_plan(action: GroupAction, c: GroupCounts) -> Result<GroupPlanChange, CoreError> {
    if c.total == 0 {
        Err(CoreError::CleanupGroupMissing)
    } else {
        match action {
            GroupAction::ToggleAll => if keeping_thumbnails(c) {
                if c.marked == c.total - c.image_thumbnails {
                    Ok(GroupPlanChange::UnmarkAllButKeptOriginals)
                } else {
                    Ok(GroupPlanChange::MarkAllButKeptThumbnails)
                }
            } else if c.marked == c.total {
                Ok(GroupPlanChange::UnmarkAll)
            } else {
                Ok(GroupPlanChange::MarkAll)
            },
            GroupAction::KeepThumbnail => if c.thumbnail_backed_images == 0 {
                Err(CoreError::NoThumbnailBackedImages)
            } else if keeping_thumbnails(c) {
                Ok(GroupPlanChange::RestoreOriginals)
            } else {
                Ok(GroupPlanChange::KeepThumbnails)
            },
        }
    }
}

/// Law: outside keeping thumbnails, toggling a non-empty group withdraws
/// it exactly when every file of it is planned, and plans every file
/// otherwise: a partly planned group is planned whole.
pub proof fn lemma_toggle_withdraws_only_a_fully_planned_group(c: GroupCounts)
    requires
        c.total != 0,
        !keeping_thumbnails(c),
    ensures
        group_plan(GroupAction::ToggleAll, c) is Ok,
        group_plan(GroupAction::ToggleAll, c) == Ok::<GroupPlanChange, CoreError>(GroupPlanChange::UnmarkAll)
            <==> c.marked == c.total,
        group_plan(GroupAction::ToggleAll, c) == Ok::<GroupPlanChange, CoreError>(GroupPlanChange::MarkAll)
            <==> c.marked != c.total,
{
}

/// Law: while thumbnails are kept, toggling withdraws everything but the
/// kept originals exactly when all else is planned, and otherwise plans
/// everything but the kept thumbnails; it never plans or withdraws the
/// whole group.
pub proof fn lemma_toggle_while_keeping(c: GroupCounts)
    requires
        c.total != 0,
        keeping_thumbnails(c),
    ensures
        group_plan(GroupAction::ToggleAll, c) == Ok::<GroupPlanChange, CoreError>(
            GroupPlanChange::UnmarkAllButKeptOriginals,
        ) <==> c.marked == c.total - c.image_thumbnails,
        group_plan(GroupAction::ToggleAll, c) == Ok::<GroupPlanChange, CoreError>(
            GroupPlanChange::MarkAllButKeptThumbnails,
        ) <==> c.marked != c.total - c.image_thumbnails,
{
}

/// Law: an empty group is refused whatever the action.
pub proof fn lemma_empty_group_is_refused(action: GroupAction, c: GroupCounts)
    requires
        c.total == 0,
    ensures
        group_plan(action, c) == Err::<GroupPlanChange, CoreError>(CoreError::CleanupGroupMissing),
{
}

/// Decides what a group action changes. An empty group is refused; so is
/// keeping thumbnails in a group without an image original that has one.
/// Toggling withdraws the group when every file is planned and plans it
/// otherwise; while thumbnails are kept, keeping takes precedence: the
/// kept thumbnails are never planned and the backed originals stay
/// planned. Keeping thumbnails is withdrawn when it already stands.
pub fn group_plan_change(action: GroupAction, counts: GroupCounts) -> (r: Result<GroupPlanChange, CoreError>)
    ensures
        r == group_plan(action, counts),
{
    if counts.total == 0 {
        return Err(CoreError::CleanupGroupMissing);
    }
    let keeping = counts.thumbnail_backed_images > 0 && counts.marked_thumbnail_backed_images
        == counts.thumbnail_backed_images && counts.marked_image_thumbnails == 0;
    match action {
        GroupAction::ToggleAll => if keeping {
            if counts.marked as i128 == counts.total as i128 - counts.image_thumbnails as i128 {
                Ok(GroupPlanChange::UnmarkAllButKeptOriginals)
            } else {
                Ok(GroupPlanChange::MarkAllButKeptThumbnails)
            }
        } else if counts.marked == counts.total {
            Ok(GroupPlanChange::UnmarkAll)
        } else {
            Ok(GroupPlanChange::MarkAll)
        },
        GroupAction::KeepThumbnail => {
            if counts.thumbnail_backed_images == 0 {
                Err(CoreError::NoThumbnailBackedImages)
            } else if keeping {
                Ok(GroupPlanChange::RestoreOriginals)
            } else {
                Ok(GroupPlanChange::KeepThumbnails)
            }
        },
    }
}

/// Checks a request about old account folders: the current account must be
/// known and its folder catalogued.
pub fn check_old_account_request(current_account_id: Option<&str>, current_found: bool) -> (r: Result<
    (),
    CoreError,
>)
    ensures
        r == match current_account_id {
            None => Err::<(), CoreError>(CoreError::CurrentAccountUnknown),
            Some(_) => if current_found {
                Ok(())
            } else {
                Err(CoreError::CurrentAccountMissing)
            },
        },
{
    match current_account_id {
        None => Err(CoreError::CurrentAccountUnknown),
        Some(_) => if current_found {
            Ok(())
        } else {
            Err(CoreError::CurrentAccountMissing)
        },
    }
}

/// The catalogued paths that lie in the folder of an account other than
/// `current`, in their order.
pub open spec fn old_account_paths(paths: Seq<String>, current: Seq<char>) -> Seq<Seq<char>>
    decreases paths.len(),
{
    if paths.len() == 0 {
        seq![]
    } else {
        let prev = old_account_paths(paths.drop_last(), current);
        match paths::private_store_account(paths.last()@) {
            Some((id, _)) => if id != current {
                prev.push(paths.last()@)
            } else {
                prev
            },
            None => prev,
        }
    }
}

/// The folders of the accounts other than `current` that hold a catalogued path.
pub open spec fn old_account_prefixes(paths: Seq<String>, current: Seq<char>) -> Set<Seq<char>>
    decreases paths.len(),
{
    if paths.len() == 0 {
        Set::empty()
    } else {
        let prev = old_account_prefixes(paths.drop_last(), current);
        match paths::private_store_account(paths.last()@) {
            Some((id, folder)) => if id != current {
                prev.insert(folder)
            } else {
                prev
            },
            None => prev,
        }
    }
}

/// What an old account cleanup removes: the files, and each old account
/// folder once.
#[derive(Debug, Clone, PartialEq, Eq)]
pub struct OldAccountRemoval {
    pub files: Vec<String>,
    pub prefixes: Vec<String>,
}

/// Picks, among the catalogued paths, those in the folders of accounts
/// other than the current one, and those folders.
pub fn old_account_removal(paths: &Vec<String>, current_account_id: &str) -> (r: OldAccountRemoval)
    ensures
        crate::source::string_views(r.files@) == old_account_paths(paths@, current_account_id@),
        crate::source::string_views(r.prefixes@).no_duplicates(),
        crate::source::string_views(r.prefixes@).to_set() == old_account_prefixes(
            paths@,
            current_account_id@,
        ),
{
    let current = text::chars_of(current_account_id);
    let mut files: Vec<String> = Vec::new();
    let mut prefixes: Vec<Vec<char>> = Vec::new();
    let mut i: usize = 0;
    while i < paths.len()
        invariant
            i <= paths.len(),
            current@ == current_account_id@,
            crate::source::string_views(files@) == old_account_paths(paths@.take(i as int), current@),
            text::views(prefixes@).no_duplicates(),
            text::views(prefixes@).to_set() == old_account_prefixes(paths@.take(i as int), current@),
        decreases paths.len() - i,
    {
        assert(paths@.take(i + 1).drop_last() =~= paths@.take(i as int));
        assert(paths@.take(i + 1).last() == paths@[i as int]);
        let path = &paths[i];
        match paths::private_store_account_from_path(path.as_str()) {
            Some((id, folder)) => {
                if !text::eq_chars(&text::chars_of(id.as_str()), &current) {
                    let ghost before = files@;
                    files.push(text::to_string(path.as_str()));
                    assert(crate::source::string_views(files@) =~= crate::source::string_views(
                        before,
                    ).push(path@));
                    push_unique(&mut prefixes, text::chars_of(folder.as_str()));
                }
            },
            None => {},
        }
        i = i + 1;
    }
    assert(paths@.take(paths.len() as int) =~= paths@);
    let mut out: Vec<String> = Vec::new();
    let mut k: usize = 0;
    while k < prefixes.len()
        invariant
            k <= prefixes.len(),
            crate::source::string_views(out@) == text::views(prefixes@).take(k as int),
        decreases prefixes.len() - k,
    {
        let ghost before = out@;
        out.push(text::string_of(&prefixes[k]));
        assert(crate::source::string_views(out@) =~= crate::source::string_views(before).push(
            prefixes@[k as int]@,
        ));
        assert(text::views(prefixes@).take(k + 1) =~= text::views(prefixes@).take(k as int).push(
            prefixes@[k as int]@,
        ));
        k = k + 1;
    }
    assert(text::views(prefixes@).take(prefixes.len() as int) =~= text::views(prefixes@));
    OldAccountRemoval { files, prefixes: out }
}


/// Most files one cleanup review response carries.
pub const MAX_REVIEW_FILES: usize = 1000;

/// Two matched messages that agree on every field.
pub open spec fn same_context(a: Option<AttachmentContext>, b: Option<AttachmentContext>) -> bool {
    match (a, b) {
        (Some(x), Some(y)) => {
            &&& x.source@ == y.source@
            &&& x.message_pk == y.message_pk
            &&& x.chat_pk == y.chat_pk
            &&& x.chat_id@ == y.chat_id@
            &&& x.chat_title@ == y.chat_title@
            &&& x.chat_kind@ == y.chat_kind@
            &&& x.timestamp == y.timestamp
            &&& x.sender_pk == y.sender_pk
            &&& x.sender_name@ == y.sender_name@
            &&& x.content_type == y.content_type
            &&& x.text@ == y.text@
        },
        (None, None) => true,
        _ => false,
    }
}

fn copy_context(c: &Option<AttachmentContext>) -> (r: Option<AttachmentContext>)
    ensures
        same_context(r, *c),
{
    match c {
        Some(x) => Some(
            AttachmentContext {
                source: x.source.clone(),
                message_pk: x.message_pk,
                chat_pk: x.chat_pk,
                chat_id: x.chat_id.clone(),
                chat_title: x.chat_title.clone(),
                chat_kind: x.chat_kind.clone(),
                timestamp: x.timestamp,
                sender_pk: x.sender_pk,
                sender_name: x.sender_name.clone(),
                content_type: x.content_type,
                text: x.text.clone(),
            },
        ),
        None => None,
    }
}

/// The files of `fs` in the review bundle `key`, in their order.
pub open spec fn bundle_files(fs: Seq<(String, AttachmentItem)>, key: Seq<char>) -> Seq<AttachmentItem>
    decreases fs.len(),
{
    if fs.len() == 0 {
        seq![]
    } else if fs.last().0@ == key {
        bundle_files(fs.drop_last(), key).push(fs.last().1)
    } else {
        bundle_files(fs.drop_last(), key)
    }
}

/// The files of `fs` outside the bundle `key`, in their order.
pub open spec fn other_files(fs: Seq<(String, AttachmentItem)>, key: Seq<char>) -> Seq<(String, AttachmentItem)>
    decreases fs.len(),
{
    if fs.len() == 0 {
        seq![]
    } else if fs.last().0@ == key {
        other_files(fs.drop_last(), key)
    } else {
        other_files(fs.drop_last(), key).push(fs.last())
    }
}

proof fn lemma_other_files(fs: Seq<(String, AttachmentItem)>, key: Seq<char>, k: Seq<char>)
    ensures
        bundle_files(other_files(fs, key), k) == if k == key {
            Seq::<AttachmentItem>::empty()
        } else {
            bundle_files(fs, k)
        },
    decreases fs.len(),
{
    if fs.len() > 0 {
        lemma_other_files(fs.drop_last(), key, k);
        if fs.last().0@ != key {
            assert(other_files(fs, key).drop_last() == other_files(fs.drop_last(), key));
        }
    }
}

/// The bytes of the last listed bundle `key`.
pub open spec fn bundle_bytes(bundles: Seq<(String, u64)>, key: Seq<char>) -> u64
    decreases bundles.len(),
{
    if bundles.len() == 0 {
        0
    } else if bundles.last().0@ == key {
        bundles.last().1
    } else {
        bundle_bytes(bundles.drop_last(), key)
    }
}

/// The bundles a review page shows, in the order the page lists them: each
/// listed key once, at its first listing, when it has files.
pub open spec fn shown_bundles(bundles: Seq<(String, u64)>, fs: Seq<(String, AttachmentItem)>) -> Seq<Seq<char>>
    decreases bundles.len(),
{
    if bundles.len() == 0 {
        seq![]
    } else {
        let prev = shown_bundles(bundles.drop_last(), fs);
        let key = bundles.last().0@;
        if (exists|j: int| 0 <= j < bundles.len() - 1 && #[trigger] bundles[j].0@ == key) || bundle_files(
            fs,
            key,
        ).len() == 0 {
            prev
        } else {
            prev.push(key)
        }
    }
}

/// `key` is the key of one of the listed bundles.
pub open spec fn listed_key(bundles: Seq<(String, u64)>, key: Seq<char>) -> bool {
    exists|j: int| 0 <= j < bundles.len() && #[trigger] bundles[j].0@ == key
}

proof fn lemma_shown_bundles_listed(bundles: Seq<(String, u64)>, fs: Seq<(String, AttachmentItem)>)
    ensures
        forall|q: int|
            0 <= q < shown_bundles(bundles, fs).len() ==> listed_key(
                bundles,
                #[trigger] shown_bundles(bundles, fs)[q],
            ),
    decreases bundles.len(),
{
    if bundles.len() > 0 {
        let prev = bundles.drop_last();
        lemma_shown_bundles_listed(prev, fs);
        let shown = shown_bundles(bundles, fs);
        let before = shown_bundles(prev, fs);
        assert forall|q: int| 0 <= q < shown.len() implies listed_key(bundles, #[trigger] shown[q]) by {
            if q < before.len() {
                assert(listed_key(prev, before[q]));
                let j = choose|j: int| 0 <= j < prev.len() && #[trigger] prev[j].0@ == before[q];
                assert(bundles[j] == prev[j]);
            } else {
                assert(bundles[bundles.len() - 1].0@ == shown[q]);
            }
        }
    }
}

/// Law: a cleanup review page shows each bundle key at most once, so every
/// file of the page lands in one review.
pub proof fn lemma_review_keys_distinct(bundles: Seq<(String, u64)>, fs: Seq<(String, AttachmentItem)>)
    ensures
        shown_bundles(bundles, fs).no_duplicates(),
    decreases bundles.len(),
{
    if bundles.len() > 0 {
        let prev = bundles.drop_last();
        lemma_review_keys_distinct(prev, fs);
        lemma_shown_bundles_listed(prev, fs);
        let key = bundles.last().0@;
        let earlier = exists|j: int| 0 <= j < bundles.len() - 1 && #[trigger] bundles[j].0@ == key;
        if !earlier && bundle_files(fs, key).len() > 0 {
            let p = shown_bundles(prev, fs);
            assert forall|q: int| 0 <= q < p.len() implies p[q] != key by {
                assert(listed_key(prev, p[q]));
                let j = choose|j: int| 0 <= j < prev.len() && #[trigger] prev[j].0@ == p[q];
                assert(bundles[j] == prev[j]);
            }
            assert(shown_bundles(bundles, fs) == p.push(key));
            assert forall|x: int, y: int|
                0 <= x < y < p.push(key).len() implies p.push(key)[x] != p.push(key)[y] by {
                if y == p.len() {
                    assert(p.push(key)[x] == p[x]);
                } else {
                    assert(p.push(key)[x] == p[x] && p.push(key)[y] == p[y]);
                }
            }
        }
    }
}

fn take_bundle(rest: &mut Vec<(String, AttachmentItem)>, key: &Vec<char>) -> (r: Vec<AttachmentItem>)
    ensures
        r@ == bundle_files(old(rest)@, key@),
        final(rest)@ == other_files(old(rest)@, key@),
{
    let mut taken: Vec<AttachmentItem> = Vec::new();
    let mut kept: Vec<(String, AttachmentItem)> = Vec::new();
    let ghost start = rest@;
    assert(start.len() == rest.len());
    let mut t: usize = 0;
    while rest.len() > 0
        invariant
            t <= start.len() <= usize::MAX,
            rest@ == start.skip(t as int),
            taken@ == bundle_files(start.take(t as int), key@),
            kept@ == other_files(start.take(t as int), key@),
        decreases rest.len(),
    {
        assert(start.take(t + 1).drop_last() =~= start.take(t as int));
        assert(start.take(t + 1).last() == start[t as int]);
        let x = rest.remove(0);
        assert(rest@ =~= start.skip(t + 1));
        if text::eq_chars(&text::chars_of(x.0.as_str()), key) {
            taken.push(x.1);
        } else {
            kept.push(x);
        }
        t = t + 1;
    }
    assert(start.take(t as int) =~= start);
    *rest = kept;
    taken
}

/// Builds the reviews of one cleanup page from its bundles (key and bytes,
/// in page order) and its files (bundle key and file, in review order). A
/// page with more files than one response carries is refused. Each listed
/// key is shown once, at its first listing, with all its files, the message
/// fields of its first file, and the bytes of its last listing; a key
/// without files is not shown.
pub fn assemble_cleanup_reviews(
    bundles: &Vec<(String, u64)>,
    files: Vec<(String, AttachmentItem)>,
) -> (r: Result<Vec<CleanupReview>, CoreError>)
    ensures
        files.len() > MAX_REVIEW_FILES ==> r == Err::<Vec<CleanupReview>, CoreError>(
            CoreError::ReviewTooLarge,
        ),
        files.len() <= MAX_REVIEW_FILES ==> (r matches Ok(items) && {
            let shown = shown_bundles(bundles@, files@);
            &&& items.len() == shown.len()
            &&& forall|q: int|
                0 <= q < shown.len() ==> {
                    let item = #[trigger] items@[q];
                    let fs = bundle_files(files@, shown[q]);
                    &&& item.key@ == shown[q]
                    &&& item.files@ == fs
                    &&& item.message_id@ == fs[0].message_id@
                    &&& item.reference_status@ == fs[0].reference_status@
                    &&& same_context(item.context, fs[0].context)
                    &&& item.total_bytes == bundle_bytes(bundles@, shown[q])
                }
        }),
{
    if files.len() > MAX_REVIEW_FILES {
        return Err(CoreError::ReviewTooLarge);
    }
    let ghost all_files = files@;
    let mut rest = files;
    let mut items: Vec<CleanupReview> = Vec::new();
    let mut i: usize = 0;
    while i < bundles.len()
        invariant
            i <= bundles.len(),
            forall|k: Seq<char>|
                (exists|j: int| 0 <= j < i && #[trigger] bundles@[j].0@ == k) ==> bundle_files(
                    rest@,
                    k,
                ).len() == 0,
            forall|k: Seq<char>|
                !(exists|j: int| 0 <= j < i && #[trigger] bundles@[j].0@ == k) ==> bundle_files(
                    rest@,
                    k,
                ) == bundle_files(all_files, k),
            items.len() == shown_bundles(bundles@.take(i as int), all_files).len(),
            forall|q: int|
                0 <= q < items.len() ==> {
                    let shown = shown_bundles(bundles@.take(i as int), all_files);
                    let item = #[trigger] items@[q];
                    let fs = bundle_files(all_files, shown[q]);
                    &&& item.key@ == shown[q]
                    &&& item.files@ == fs
                    &&& item.message_id@ == fs[0].message_id@
                    &&& item.reference_status@ == fs[0].reference_status@
                    &&& same_context(item.context, fs[0].context)
                    &&& item.total_bytes == bundle_bytes(bundles@, shown[q])
                },
        decreases bundles.len() - i,
    {
        let ghost prefix = bundles@.take(i + 1);
        assert(prefix.drop_last() =~= bundles@.take(i as int));
        assert(prefix.last() == bundles@[i as int]);
        let key = text::chars_of(bundles[i].0.as_str());
        let mut seen = false;
        let mut j: usize = 0;
        while j < i
            invariant
                j <= i < bundles.len(),
                key@ == bundles@[i as int].0@,
                seen == exists|x: int| 0 <= x < j && #[trigger] bundles@[x].0@ == key@,
            decreases i - j,
        {
            if text::eq_chars(&text::chars_of(bundles[j].0.as_str()), &key) {
                seen = true;
            }
            j = j + 1;
        }
        assert(seen == exists|x: int| 0 <= x < prefix.len() - 1 && #[trigger] prefix[x].0@ == key@) by {
            if seen {
                let x = choose|x: int| 0 <= x < i && #[trigger] bundles@[x].0@ == key@;
                assert(prefix[x] == bundles@[x]);
            }
            if exists|x: int| 0 <= x < prefix.len() - 1 && #[trigger] prefix[x].0@ == key@ {
                let x = choose|x: int| 0 <= x < prefix.len() - 1 && #[trigger] prefix[x].0@ == key@;
                assert(prefix[x] == bundles@[x]);
            }
        }
        if !seen {
            let ghost before_rest = rest@;
            let taken = take_bundle(&mut rest, &key);
            proof {
                assert forall|k: Seq<char>| true implies bundle_files(rest@, k) == if k == key@ {
                    Seq::<AttachmentItem>::empty()
                } else {
                    bundle_files(before_rest, k)
                } by {
                    lemma_other_files(before_rest, key@, k);
                }
            }
            if taken.len() > 0 {
                let first = &taken[0];
                let message_id = first.message_id.clone();
                let reference_status = first.reference_status.clone();
                let context = copy_context(&first.context);
                let bytes = last_bundle_bytes(bundles, &key);
                items.push(
                    CleanupReview {
                        key: text::string_of(&key),
                        message_id,
                        reference_status,
                        context,
                        files: taken,
                        total_bytes: bytes,
                    },
                );
            }
        }
        proof {
            assert forall|k: Seq<char>|
                (exists|j: int| 0 <= j < i + 1 && #[trigger] bundles@[j].0@ == k) implies bundle_files(
                rest@,
                k,
            ).len() == 0 by {
                if k != key@ {
                    let x = choose|x: int| 0 <= x < i + 1 && #[trigger] bundles@[x].0@ == k;
                    assert(x < i);
                }
            }
        }
        i = i + 1;
    }
    assert(bundles@.take(bundles.len() as int) =~= bundles@);
    Ok(items)
}

fn last_bundle_bytes(bundles: &Vec<(String, u64)>, key: &Vec<char>) -> (r: u64)
    ensures
        r == bundle_bytes(bundles@, key@),
{
    let mut n: usize = bundles.len();
    assert(bundles@.take(n as int) =~= bundles@);
    while n > 0
        invariant
            n <= bundles.len(),
            bundle_bytes(bundles@, key@) == bundle_bytes(bundles@.take(n as int), key@),
        decreases n,
    {
        assert(bundles@.take(n as int).drop_last() =~= bundles@.take(n - 1));
        assert(bundles@.take(n as int).last() == bundles@[n - 1]);
        if text::eq_chars(&text::chars_of(bundles[n - 1].0.as_str()), key) {
            return bundles[n - 1].1;
        }
        n = n - 1;
    }
    0
}


/// The catalog's counts that the cleanup plan previews are made from, as
/// the catalog reads them.
#[derive(Debug, Clone, Copy, PartialEq, Eq)]
pub struct PreviewCounts {
    pub automatic_file_count: i64,
    pub automatic_bytes: i64,
    pub unreferenced_file_count: i64,
    pub unreferenced_bytes: i64,
    pub unconfirmed_file_count: i64,
    pub unconfirmed_bytes: i64,
    pub planned_chat_count: i64,
    pub planned_chat_messages: i64,
    pub planned_orphan_messages: i64,
}

/// `a + b` held within the range of `i64`.
pub open spec fn sat_add_i64(a: int, b: int) -> int {
    if a + b > i64::MAX {
        i64::MAX as int
    } else if a + b < i64::MIN {
        i64::MIN as int
    } else {
        a + b
    }
}

fn saturating_add_i64(a: i64, b: i64) -> (r: i64)
    ensures
        r == sat_add_i64(a as int, b as int),
{
    let sum: i128 = a as i128 + b as i128;
    if sum > 0x7fff_ffff_ffff_ffffi128 {
        0x7fff_ffff_ffff_ffffi64
    } else if sum < -0x8000_0000_0000_0000i128 {
        -0x8000_0000_0000_0000i64
    } else {
        sum as i64
    }
}

/// One preview with its fixed texts and the counts every preview shares.
pub open spec fn preview_matches(
    p: CleanupPlanPreview,
    c: PreviewCounts,
    profile: Seq<char>,
    title: Seq<char>,
    description: Seq<char>,
    review_files: int,
    review_bytes: int,
    warnings: Seq<Seq<char>>,
) -> bool {
    &&& p.profile@ == profile
    &&& p.title@ == title
    &&& p.description@ == description
    &&& p.automatic_file_count == clamped(c.automatic_file_count)
    &&& p.automatic_bytes == clamped(c.automatic_bytes)
    &&& p.review_file_count == review_files
    &&& p.review_bytes == review_bytes
    &&& p.planned_chat_count == clamped(c.planned_chat_count)
    &&& p.planned_message_count == if sat_add_i64(
        c.planned_chat_messages as int,
        c.planned_orphan_messages as int,
    ) < 0 {
        0
    } else {
        sat_add_i64(c.planned_chat_messages as int, c.planned_orphan_messages as int)
    }
    &&& crate::source::string_views(p.warnings@) == warnings
}

/// The three cleanup plans a user can preview, from the most to the least
/// cautious: the safe automatic rules alone; those plus a review of the
/// attachments no message refers to; and those plus the attachments whose
/// origin cannot be confirmed. Negative counts are taken as none.
pub fn cleanup_plan_previews(c: PreviewCounts) -> (r: Vec<CleanupPlanPreview>)
    ensures
        r.len() == 3,
        preview_matches(
            r@[0],
            c,
            "conservative"@,
            "保守：只套用安全規則"@,
            "只標記有 SQLite 內容與非空縮圖可交叉確認的圖片原檔。"@,
            0,
            0,
            seq!["可直接套用；仍會在建立候選檔前再次驗證來源與保留檔案。"@],
        ),
        preview_matches(
            r@[1],
            c,
            "balanced"@,
            "平衡：安全項目＋未引用複核"@,
            "保留安全自動標記，另外列出 SQLite 未引用附件供人工逐一確認。"@,
            clamped(c.unreferenced_file_count),
            clamped(c.unreferenced_bytes),
            seq!["SQLite 未引用不等於可刪除；未經人工確認不會自動加入清理計畫。"@],
        ),
        preview_matches(
            r@[2],
            c,
            "aggressive"@,
            "積極：擴大人工複核範圍"@,
            "在平衡方案上，再把無法確認來源的附件列為高風險複核項目。"@,
            sat_add(clamped(c.unreferenced_file_count), clamped(c.unconfirmed_file_count)),
            sat_add(clamped(c.unreferenced_bytes), clamped(c.unconfirmed_bytes)),
            seq![
                "無法確認的附件可能屬於備份中未被目前資料庫索引的內容，必須人工檢查。"@,
                "現有聊天室與孤兒訊息計畫會另行顯示，不會因預演自動加入。"@,
            ],
        ),
{
    let automatic_file_count = clamp_count(c.automatic_file_count);
    let automatic_bytes = clamp_count(c.automatic_bytes);
    let unreferenced_file_count = clamp_count(c.unreferenced_file_count);
    let unreferenced_bytes = clamp_count(c.unreferenced_bytes);
    let unconfirmed_file_count = clamp_count(c.unconfirmed_file_count);
    let unconfirmed_bytes = clamp_count(c.unconfirmed_bytes);
    let planned_chat_count = clamp_count(c.planned_chat_count);
    let planned_message_count = clamp_count(
        saturating_add_i64(c.planned_chat_messages, c.planned_orphan_messages),
    );
    let mut w0: Vec<String> = Vec::new();
    w0.push(text::to_string("可直接套用；仍會在建立候選檔前再次驗證來源與保留檔案。"));
    let mut w1: Vec<String> = Vec::new();
    w1.push(text::to_string("SQLite 未引用不等於可刪除；未經人工確認不會自動加入清理計畫。"));
    let mut w2: Vec<String> = Vec::new();
    w2.push(
        text::to_string("無法確認的附件可能屬於備份中未被目前資料庫索引的內容，必須人工檢查。"),
    );
    w2.push(text::to_string("現有聊天室與孤兒訊息計畫會另行顯示，不會因預演自動加入。"));
    assert(crate::source::string_views(w0@) =~= seq![
        "可直接套用；仍會在建立候選檔前再次驗證來源與保留檔案。"@,
    ]);
    assert(crate::source::string_views(w1@) =~= seq![
        "SQLite 未引用不等於可刪除；未經人工確認不會自動加入清理計畫。"@,
    ]);
    assert(crate::source::string_views(w2@) =~= seq![
        "無法確認的附件可能屬於備份中未被目前資料庫索引的內容，必須人工檢查。"@,
        "現有聊天室與孤兒訊息計畫會另行顯示，不會因預演自動加入。"@,
    ]);
    let mut out: Vec<CleanupPlanPreview> = Vec::new();
    out.push(
        CleanupPlanPreview {
            profile: text::to_string("conservative"),
            title: text::to_string("保守：只套用安全規則"),
            description: text::to_string("只標記有 SQLite 內容與非空縮圖可交叉確認的圖片原檔。"),
            automatic_file_count,
            automatic_bytes,
            review_file_count: 0,
            review_bytes: 0,
            planned_chat_count,
            planned_message_count,
            warnings: w0,
        },
    );
    out.push(
        CleanupPlanPreview {
            profile: text::to_string("balanced"),
            title: text::to_string("平衡：安全項目＋未引用複核"),
            description: text::to_string(
                "保留安全自動標記，另外列出 SQLite 未引用附件供人工逐一確認。",
            ),
            automatic_file_count,
            automatic_bytes,
            review_file_count: unreferenced_file_count,
            review_bytes: unreferenced_bytes,
            planned_chat_count,
            planned_message_count,
            warnings: w1,
        },
    );
    out.push(
        CleanupPlanPreview {
            profile: text::to_string("aggressive"),
            title: text::to_string("積極：擴大人工複核範圍"),
            description: text::to_string(
                "在平衡方案上，再把無法確認來源的附件列為高風險複核項目。",
            ),
            automatic_file_count,
            automatic_bytes,
            review_file_count: unreferenced_file_count.saturating_add(unconfirmed_file_count),
            review_bytes: unreferenced_bytes.saturating_add(unconfirmed_bytes),
            planned_chat_count,
            planned_message_count,
            warnings: w2,
        },
    );
    out
}

/// The number of recorded plan changes an audit lists: the request's limit
/// held between 1 and 100.
pub fn cleanup_audit_limit(limit: u32) -> (r: u32)
    ensures
        r == if limit < 1 {
            1
        } else if limit > 100 {
            100
        } else {
            limit
        },
{
    if limit < 1 {
        1
    } else if limit > 100 {
        100
    } else {
        limit
    }
}


/// Whether an attachment file was matched to the message that sent it.
#[derive(Debug, Clone, Copy, PartialEq, Eq)]
pub enum ReferenceStatus {
    /// Exactly one message of its chat names the file.
    Referenced,
    /// The file names a message and a chat, and no message has its id.
    Unreferenced,
    /// The file cannot be tied to one message either way.
    Unconfirmed,
}

impl ReferenceStatus {
    /// The status as the catalog stores it.
    pub fn as_str(self) -> (r: &'static str)
        ensures
            self is Referenced ==> r@ == "referenced"@,
            self is Unreferenced ==> r@ == "unreferenced"@,
            self is Unconfirmed ==> r@ == "unconfirmed"@,
    {
        match self {
            ReferenceStatus::Referenced => "referenced",
            ReferenceStatus::Unreferenced => "unreferenced",
            ReferenceStatus::Unconfirmed => "unconfirmed",
        }
    }
}

/// The positions of the candidate messages whose chat is the file's chat
/// folder, compared without regard to ASCII case.
pub open spec fn hint_positions(candidates: Seq<AttachmentContext>, hint: Seq<char>) -> Seq<int>
    decreases candidates.len(),
{
    if candidates.len() == 0 {
        seq![]
    } else {
        let prev = hint_positions(candidates.drop_last(), hint);
        if text::eq_ignore_case(candidates.last().chat_id@, hint) {
            prev.push(candidates.len() - 1)
        } else {
            prev
        }
    }
}

proof fn lemma_hint_positions_in_range(candidates: Seq<AttachmentContext>, hint: Seq<char>)
    ensures
        forall|q: int|
            0 <= q < hint_positions(candidates, hint).len() ==> 0 <= #[trigger] hint_positions(
                candidates,
                hint,
            )[q] < candidates.len(),
    decreases candidates.len(),
{
    if candidates.len() > 0 {
        lemma_hint_positions_in_range(candidates.drop_last(), hint);
        let prev = hint_positions(candidates.drop_last(), hint);
        let all = hint_positions(candidates, hint);
        assert forall|q: int| 0 <= q < all.len() implies 0 <= #[trigger] all[q] < candidates.len() by {
            if q < prev.len() {
                assert(all[q] == prev[q]);
            }
        }
    }
}

/// Matches one attachment file to the messages that carry its message id:
/// the one candidate of its chat folder, when there is exactly one. A file
/// with an id and a folder that no message carries is unreferenced; any
/// other file without a match is unconfirmed.
pub fn match_attachment_context(message_id: &str, chat_hint: &str, candidates: &Vec<AttachmentContext>) -> (r: (
    Option<usize>,
    ReferenceStatus,
))
    ensures
        ({
            let pos = hint_positions(candidates@, chat_hint@);
            if pos.len() == 1 {
                r == (Some(pos[0] as usize), ReferenceStatus::Referenced) && pos[0] < candidates.len()
            } else {
                r.0 is None && r.1 == if message_id@.len() == 0 || chat_hint@.len() == 0
                    || candidates.len() > 0 {
                    ReferenceStatus::Unconfirmed
                } else {
                    ReferenceStatus::Unreferenced
                }
            }
        }),
{
    let hint = text::chars_of(chat_hint);
    let mut found: Option<usize> = None;
    let mut count: usize = 0;
    let mut i: usize = 0;
    while i < candidates.len()
        invariant
            i <= candidates.len(),
            hint@ == chat_hint@,
            count == hint_positions(candidates@.take(i as int), chat_hint@).len(),
            count <= i,
            count >= 1 ==> found == Some(hint_positions(candidates@.take(i as int), chat_hint@)[0] as usize),
        decreases candidates.len() - i,
    {
        assert(candidates@.take(i + 1).drop_last() =~= candidates@.take(i as int));
        assert(candidates@.take(i + 1).last() == candidates@[i as int]);
        if text::eq_ignore_ascii_case(&text::chars_of(candidates[i].chat_id.as_str()), &hint) {
            if count == 0 {
                found = Some(i);
            }
            count = count + 1;
        }
        i = i + 1;
    }
    assert(candidates@.take(candidates.len() as int) =~= candidates@);
    proof {
        lemma_hint_positions_in_range(candidates@, chat_hint@);
    }
    if count == 1 {
        return (found, ReferenceStatus::Referenced);
    }
    if message_id.is_empty() || chat_hint.is_empty() || candidates.len() > 0 {
        (None, ReferenceStatus::Unconfirmed)
    } else {
        (None, ReferenceStatus::Unreferenced)
    }
}

/// Counts one matched file into the progress of the matching.
pub fn record_reference(progress: &mut CatalogContextProgress, status: ReferenceStatus)
    requires
        old(progress).processed_files < u64::MAX,
        old(progress).referenced_files < u64::MAX,
        old(progress).unreferenced_files < u64::MAX,
        old(progress).unconfirmed_files < u64::MAX,
    ensures
        final(progress).processed_files == old(progress).processed_files + 1,
        final(progress).total_files == old(progress).total_files,
        final(progress).referenced_files == old(progress).referenced_files + if status is Referenced {
            1int
        } else {
            0int
        },
        final(progress).unreferenced_files == old(progress).unreferenced_files + if status is Unreferenced {
            1int
        } else {
            0int
        },
        final(progress).unconfirmed_files == old(progress).unconfirmed_files + if status is Unconfirmed {
            1int
        } else {
            0int
        },
        old(progress).processed_files == old(progress).referenced_files + old(progress).unreferenced_files
            + old(progress).unconfirmed_files ==> final(progress).processed_files
            == final(progress).referenced_files + final(progress).unreferenced_files
            + final(progress).unconfirmed_files,
{
    match status {
        ReferenceStatus::Referenced => progress.referenced_files = progress.referenced_files + 1,
        ReferenceStatus::Unreferenced => progress.unreferenced_files = progress.unreferenced_files + 1,
        ReferenceStatus::Unconfirmed => progress.unconfirmed_files = progress.unconfirmed_files + 1,
    }
    progress.processed_files = progress.processed_files + 1;
}

/// The message ids a batch of files asks the databases for: each non-empty
/// id once, sorted.
pub fn context_message_ids(ids: &Vec<String>) -> (r: Vec<String>)
    ensures
        crate::order::sorted_texts(crate::source::string_views(r@)),
        crate::source::string_views(r@).no_duplicates(),
        crate::source::string_views(r@).to_set() == Set::new(
            |x: Seq<char>| x.len() > 0 && crate::source::string_views(ids@).contains(x),
        ),
{
    let mut distinct: Vec<Vec<char>> = Vec::new();
    let mut i: usize = 0;
    while i < ids.len()
        invariant
            i <= ids.len(),
            text::views(distinct@).no_duplicates(),
            text::views(distinct@).to_set() == Set::new(
                |x: Seq<char>| x.len() > 0 && crate::source::string_views(ids@).take(i as int).contains(x),
            ),
        decreases ids.len() - i,
    {
        let ghost before = text::views(distinct@).to_set();
        let id = text::chars_of(ids[i].as_str());
        if id.len() > 0 {
            push_unique(&mut distinct, id);
        }
        proof {
            let vs = crate::source::string_views(ids@);
            assert(vs.take(i + 1) =~= vs.take(i as int).push(ids@[i as int]@));
            assert(text::views(distinct@).to_set() =~= Set::new(
                |x: Seq<char>| x.len() > 0 && vs.take(i + 1).contains(x),
            )) by {
                let t1 = vs.take(i + 1);
                let t0 = vs.take(i as int);
                assert forall|x: Seq<char>| t1.contains(x) <==> (t0.contains(x) || x == ids@[i as int]@) by {
                    if t1.contains(x) {
                        let k = choose|k: int| 0 <= k < t1.len() && #[trigger] t1[k] == x;
                        if k < i {
                            assert(t0[k] == x);
                        }
                    }
                    if t0.contains(x) {
                        let k = choose|k: int| 0 <= k < t0.len() && #[trigger] t0[k] == x;
                        assert(t1[k] == x);
                    }
                    if x == ids@[i as int]@ {
                        assert(t1[i as int] == x);
                    }
                }
            }
        }
        i = i + 1;
    }
    assert(crate::source::string_views(ids@).take(ids.len() as int) =~= crate::source::string_views(ids@));
    let mut strings: Vec<String> = Vec::new();
    let mut k: usize = 0;
    while k < distinct.len()
        invariant
            k <= distinct.len(),
            crate::source::string_views(strings@) == text::views(distinct@).take(k as int),
        decreases distinct.len() - k,
    {
        let ghost before = strings@;
        strings.push(text::string_of(&distinct[k]));
        assert(crate::source::string_views(strings@) =~= crate::source::string_views(before).push(
            distinct@[k as int]@,
        ));
        assert(text::views(distinct@).take(k + 1) =~= text::views(distinct@).take(k as int).push(
            distinct@[k as int]@,
        ));
        k = k + 1;
    }
    assert(text::views(distinct@).take(distinct.len() as int) =~= text::views(distinct@));
    let sorted = crate::order::sort_strings(&strings);
    proof {
        let a = crate::source::string_views(strings@);
        let b = crate::source::string_views(sorted@);
        assert(a =~= strings@.map_values(|s: String| s@));
        assert(b =~= sorted@.map_values(|s: String| s@));
        a.lemma_multiset_has_no_duplicates();
        b.lemma_multiset_has_no_duplicates_conv();
        assert forall|x: Seq<char>| b.contains(x) <==> a.contains(x) by {
            broadcast use vstd::seq_lib::group_to_multiset_ensures;
            assert(b.to_multiset().count(x) == a.to_multiset().count(x));
        }
        assert(b.to_set() =~= a.to_set());
    }
    sorted
}


/// The rows a page keeps of those fetched with one row more than it holds.
pub open spec fn kept_rows<T>(rows: Seq<T>, limit: usize) -> Seq<T> {
    if rows.len() > limit {
        rows.take(limit as int)
    } else {
        rows
    }
}

fn cut_rows<T>(rows: Vec<T>, limit: usize) -> (r: Vec<T>)
    ensures
        r@ == kept_rows(rows@, limit),
{
    let mut kept = rows;
    if kept.len() > limit {
        let ghost before = kept@;
        kept.truncate(limit);
        assert(kept@ =~= before.take(limit as int));
    }
    kept
}

/// A page of attachment files from rows fetched with one more than the
/// page holds; it continues after its last file when a row was left over.
pub fn attachment_page(rows: Vec<AttachmentItem>, limit: usize) -> (r: AttachmentPage)
    ensures
        r.items@ == kept_rows(rows@, limit),
        r.next_cursor == if rows@.len() > limit && limit > 0 {
            Some(AttachmentCursor { id: rows@[limit - 1].id })
        } else {
            None
        },
{
    let has_extra = rows.len() > limit;
    let items = cut_rows(rows, limit);
    let next_cursor = if has_extra && items.len() > 0 {
        Some(AttachmentCursor { id: items[items.len() - 1].id })
    } else {
        None
    };
    AttachmentPage { items, next_cursor }
}

/// A page of the members of a duplicate group, cut as an attachment page.
pub fn duplicate_member_page(rows: Vec<AttachmentItem>, limit: usize) -> (r: DuplicateMemberPage)
    ensures
        r.items@ == kept_rows(rows@, limit),
        r.next_cursor == if rows@.len() > limit && limit > 0 {
            Some(AttachmentCursor { id: rows@[limit - 1].id })
        } else {
            None
        },
{
    let page = attachment_page(rows, limit);
    DuplicateMemberPage { items: page.items, next_cursor: page.next_cursor }
}

/// A page of duplicate groups from rows fetched with one more than the page
/// holds; it continues after its last group when a row was left over.
pub fn duplicate_group_page(rows: Vec<DuplicateGroup>, limit: usize) -> (r: DuplicateGroupPage)
    ensures
        r.items@ == kept_rows(rows@, limit),
        rows@.len() > limit && limit > 0 ==> (r.next_cursor matches Some(c) && {
            &&& c.reclaimable_bytes == rows@[limit - 1].reclaimable_bytes
            &&& c.sha256@ == rows@[limit - 1].sha256@
        }),
        !(rows@.len() > limit && limit > 0) ==> r.next_cursor is None,
{
    let has_extra = rows.len() > limit;
    let items = cut_rows(rows, limit);
    let next_cursor = if has_extra && items.len() > 0 {
        let last = &items[items.len() - 1];
        Some(DuplicateGroupCursor { reclaimable_bytes: last.reclaimable_bytes, sha256: last.sha256.clone() })
    } else {
        None
    };
    DuplicateGroupPage { items, next_cursor }
}

/// The cursor a duplicate group listing asks for: both parts or neither.
pub fn duplicate_cursor(reclaimable_bytes: Option<u64>, sha256: Option<String>) -> (r: Result<
    Option<DuplicateGroupCursor>,
    CoreError,
>)
    ensures
        match (reclaimable_bytes, sha256) {
            (None, None) => r == Ok::<Option<DuplicateGroupCursor>, CoreError>(None),
            (Some(b), Some(s)) => r matches Ok(Some(c)) && c.reclaimable_bytes == b && c.sha256@ == s@,
            _ => r == Err::<Option<DuplicateGroupCursor>, CoreError>(CoreError::DuplicateHalfCursor),
        },
{
    match (reclaimable_bytes, sha256) {
        (None, None) => Ok(None),
        (Some(b), Some(s)) => Ok(Some(DuplicateGroupCursor { reclaimable_bytes: b, sha256: s })),
        _ => Err(CoreError::DuplicateHalfCursor),
    }
}

/// Where a duplicate group listing starts: after the given cursor, its
/// bytes held at the largest `i64`; from the top when there is none.
pub fn duplicate_cursor_bounds(cursor: &Option<DuplicateGroupCursor>) -> (r: (i64, String))
    ensures
        match cursor {
            Some(c) => r.0 == if c.reclaimable_bytes > i64::MAX {
                i64::MAX as int
            } else {
                c.reclaimable_bytes as int
            } && r.1@ == c.sha256@,
            None => r.0 == i64::MAX && r.1@.len() == 0,
        },
{
    match cursor {
        Some(c) => {
            let bound = if c.reclaimable_bytes > 0x7fff_ffff_ffff_ffffu64 {
                0x7fff_ffff_ffff_ffffi64
            } else {
                c.reclaimable_bytes as i64
            };
            (bound, c.sha256.clone())
        },
        None => (0x7fff_ffff_ffff_ffffi64, String::new()),
    }
}


/// A catalogued file that has an identical twin: its digest, its size and
/// the file.
pub type DuplicateRow = (String, u64, DuplicateLinkMember);

/// The key that groups identical files: digest and size.
pub open spec fn duplicate_key(r: DuplicateRow) -> (Seq<char>, u64) {
    (r.0@, r.1)
}

/// How many rows at the front of `rows` share the first row's key.
pub open spec fn run_length(rows: Seq<DuplicateRow>) -> int
    decreases rows.len(),
{
    if rows.len() <= 1 {
        rows.len() as int
    } else if duplicate_key(rows[1]) == duplicate_key(rows[0]) {
        1 + run_length(rows.drop_first())
    } else {
        1
    }
}

/// A run is at least one row long and no longer than the rows.
pub proof fn lemma_run_length_bounds(rows: Seq<DuplicateRow>)
    ensures
        rows.len() > 0 ==> 1 <= run_length(rows) <= rows.len(),
        rows.len() == 0 ==> run_length(rows) == 0,
    decreases rows.len(),
{
    if rows.len() > 1 {
        lemma_run_length_bounds(rows.drop_first());
    }
}

/// The members of `rows` not in `excluded`, in their order.
pub open spec fn kept_members(rows: Seq<DuplicateRow>, excluded: Seq<Seq<char>>) -> Seq<DuplicateLinkMember>
    decreases rows.len(),
{
    if rows.len() == 0 {
        seq![]
    } else if excluded.contains(rows.last().2.path@) {
        kept_members(rows.drop_last(), excluded)
    } else {
        kept_members(rows.drop_last(), excluded).push(rows.last().2)
    }
}

/// The groups of identical files that duplicate links are made from: each
/// run of rows with one digest and size, without the excluded files, when
/// at least two files remain.
pub open spec fn link_groups(rows: Seq<DuplicateRow>, excluded: Seq<Seq<char>>) -> Seq<
    Seq<DuplicateLinkMember>,
>
    decreases rows.len(),
{
    if rows.len() == 0 {
        seq![]
    } else {
        proof {
            lemma_run_length_bounds(rows);
        }
        let n = run_length(rows);
        let members = kept_members(rows.take(n), excluded);
        let rest = link_groups(rows.skip(n), excluded);
        if members.len() > 1 {
            seq![members] + rest
        } else {
            rest
        }
    }
}

proof fn lemma_kept_members_remain(rows: Seq<DuplicateRow>, excluded: Seq<Seq<char>>)
    ensures
        forall|k: int|
            0 <= k < kept_members(rows, excluded).len() ==> !excluded.contains(
                (#[trigger] kept_members(rows, excluded)[k]).path@,
            ),
    decreases rows.len(),
{
    if rows.len() > 0 {
        lemma_kept_members_remain(rows.drop_last(), excluded);
        let front = kept_members(rows.drop_last(), excluded);
        let all = kept_members(rows, excluded);
        if !excluded.contains(rows.last().2.path@) {
            assert forall|k: int| 0 <= k < all.len() implies !excluded.contains(
                (#[trigger] all[k]).path@) by {
                if k < front.len() {
                    assert(all[k] == front[k]);
                }
            }
        }
    }
}

/// Law: the groups that duplicate links are made from hold only files that
/// stay (none of `excluded`), and each holds at least two of them, so a
/// link never replaces a removed file nor leads to one.
pub proof fn lemma_link_groups_hold_remaining_files(rows: Seq<DuplicateRow>, excluded: Seq<Seq<char>>)
    ensures
        forall|g: int|
            0 <= g < link_groups(rows, excluded).len() ==> (#[trigger] link_groups(rows, excluded)[g]).len()
                >= 2,
        forall|g: int, k: int|
            0 <= g < link_groups(rows, excluded).len() && 0 <= k < link_groups(rows, excluded)[g].len()
                ==> !excluded.contains((#[trigger] link_groups(rows, excluded)[g][k]).path@),
    decreases rows.len(),
{
    if rows.len() > 0 {
        lemma_run_length_bounds(rows);
        let n = run_length(rows);
        let members = kept_members(rows.take(n), excluded);
        let rest = link_groups(rows.skip(n), excluded);
        lemma_link_groups_hold_remaining_files(rows.skip(n), excluded);
        lemma_kept_members_remain(rows.take(n), excluded);
        let all = link_groups(rows, excluded);
        if members.len() > 1 {
            assert(all == seq![members] + rest);
            assert forall|g: int, k: int|
                0 <= g < all.len() && 0 <= k < all[g].len() implies !excluded.contains(
                (#[trigger] all[g][k]).path@) by {
                if g == 0 {
                    assert(all[g] == members);
                    assert(!excluded.contains(members[k].path@));
                } else {
                    assert(all[g] == rest[g - 1]);
                }
            }
            assert forall|g: int| 0 <= g < all.len() implies (#[trigger] all[g]).len() >= 2 by {
                if g > 0 {
                    assert(all[g] == rest[g - 1]);
                }
            }
        } else {
            assert(all == rest);
        }
    }
}

proof fn lemma_run_ends(rows: Seq<DuplicateRow>, k: int)
    requires
        1 <= k <= rows.len(),
        forall|t: int| 1 <= t < k ==> duplicate_key(#[trigger] rows[t]) == duplicate_key(rows[0]),
        k == rows.len() || duplicate_key(rows[k]) != duplicate_key(rows[0]),
    ensures
        run_length(rows) == k,
    decreases k,
{
    if k > 1 {
        let d = rows.drop_first();
        assert forall|t: int| 1 <= t < k - 1 implies duplicate_key(#[trigger] d[t]) == duplicate_key(d[0]) by {
            assert(d[t] == rows[t + 1]);
            assert(d[0] == rows[1]);
        }
        lemma_run_ends(d, k - 1);
    } else if rows.len() > 1 {
        assert(duplicate_key(rows[1]) != duplicate_key(rows[0]));
    }
}

fn same_duplicate_key(a: &DuplicateRow, b: &DuplicateRow) -> (r: bool)
    ensures
        r == (duplicate_key(*a) == duplicate_key(*b)),
{
    a.1 == b.1 && text::eq_chars(&text::chars_of(a.0.as_str()), &text::chars_of(b.0.as_str()))
}

/// Gathers the groups of identical files that duplicate links are made
/// from, out of the catalog's rows ordered by digest and size: files in
/// `excluded` (those planned for removal) are left out, and a group keeps
/// at least two files.
pub fn duplicate_link_groups(rows: &Vec<DuplicateRow>, excluded: &Vec<String>) -> (r: Vec<
    Vec<DuplicateLinkMember>,
>)
    ensures
        r@.len() == link_groups(rows@, crate::source::string_views(excluded@)).len(),
        forall|g: int|
            0 <= g < r@.len() ==> (#[trigger] r@[g])@ == link_groups(
                rows@,
                crate::source::string_views(excluded@),
            )[g],
{
    let ghost ex = crate::source::string_views(excluded@);
    let mut groups: Vec<Vec<DuplicateLinkMember>> = Vec::new();
    let mut i: usize = 0;
    assert(rows@.skip(0) =~= rows@);
    assert(groups@.map_values(|g: Vec<DuplicateLinkMember>| g@) + link_groups(rows@, ex) =~= link_groups(rows@, ex));
    while i < rows.len()
        invariant
            i <= rows.len(),
            ex == crate::source::string_views(excluded@),
            groups@.map_values(|g: Vec<DuplicateLinkMember>| g@) + link_groups(rows@.skip(i as int), ex)
                == link_groups(rows@, ex),
        decreases rows.len() - i,
    {
        let ghost s = rows@.skip(i as int);
        let mut k: usize = i + 1;
        while k < rows.len() && same_duplicate_key(&rows[k], &rows[i])
            invariant
                i < k <= rows.len(),
                s == rows@.skip(i as int),
                forall|t: int| 1 <= t < k - i ==> duplicate_key(#[trigger] s[t]) == duplicate_key(s[0]),
            decreases rows.len() - k,
        {
            assert(s[k - i] == rows@[k as int]);
            k = k + 1;
        }
        proof {
            if k < rows.len() {
                assert(s[k - i] == rows@[k as int]);
            }
            lemma_run_ends(s, k - i);
        }
        let mut members: Vec<DuplicateLinkMember> = Vec::new();
        let mut j: usize = i;
        while j < k
            invariant
                i <= j <= k <= rows.len(),
                s == rows@.skip(i as int),
                ex == crate::source::string_views(excluded@),
                members@ == kept_members(s.take(j - i), ex),
            decreases k - j,
        {
            assert(s.take(j - i + 1).drop_last() =~= s.take(j - i));
            assert(s.take(j - i + 1).last() == rows@[j as int]);
            let row = &rows[j];
            if !crate::candidate::holds_name(excluded, row.2.path.as_str()) {
                members.push(DuplicateLinkMember { path: row.2.path.clone(), bytes: row.2.bytes });
                assert(members@.last() == rows@[j as int].2) by {
                    assert(members@.last().path@ == rows@[j as int].2.path@);
                }
            }
            j = j + 1;
        }
        let ghost n = k - i;
        assert(s.skip(n) =~= rows@.skip(k as int));
        if members.len() > 1 {
            let ghost before = groups@;
            groups.push(members);
            assert(groups@.map_values(|g: Vec<DuplicateLinkMember>| g@) =~= before.map_values(
                |g: Vec<DuplicateLinkMember>| g@,
            ).push(kept_members(s.take(n), ex)));
            assert(link_groups(s, ex) == seq![kept_members(s.take(n), ex)] + link_groups(s.skip(n), ex));
            assert(before.map_values(|g: Vec<DuplicateLinkMember>| g@).push(kept_members(s.take(n), ex))
                + link_groups(s.skip(n), ex) =~= before.map_values(|g: Vec<DuplicateLinkMember>| g@)
                + (seq![kept_members(s.take(n), ex)] + link_groups(s.skip(n), ex)));
        } else {
            assert(link_groups(s, ex) == link_groups(s.skip(n), ex));
        }
        i = k;
    }
    assert(rows@.skip(rows.len() as int).len() == 0);
    assert(groups@.map_values(|g: Vec<DuplicateLinkMember>| g@) + link_groups(rows@.skip(rows.len() as int), ex)
        =~= groups@.map_values(|g: Vec<DuplicateLinkMember>| g@));
    groups
}


// ---------------------------------------------------------------------
// Safe cleanup: image originals backed by a thumbnail
// ---------------------------------------------------------------------

/// What the safe cleanup rules read of a catalogued attachment. An absent
/// message id, chat hint or content type matches nothing.
#[derive(Debug, Clone)]
pub struct CleanupFileFacts {
    pub kind: AttachmentKind,
    pub reference_status: String,
    pub content_type: Option<i64>,
    pub message_id: Option<String>,
    pub chat_hint: Option<String>,
    pub bytes: i64,
}

/// A content type LINE uses for pictures.
pub open spec fn image_content(content_type: Option<i64>) -> bool {
    content_type matches Some(t) && (t == 1 || t == 16 || t == 112)
}

/// A file matched with confidence to a picture message.
pub open spec fn referenced_image(f: CleanupFileFacts) -> bool {
    f.reference_status@ == "referenced"@ && image_content(f.content_type)
}

/// Two files belong to one message of one chat.
pub open spec fn same_message(a: CleanupFileFacts, b: CleanupFileFacts) -> bool {
    &&& a.message_id matches Some(x) && b.message_id matches Some(y) && x@ == y@
    &&& a.chat_hint matches Some(x) && b.chat_hint matches Some(y) && x@ == y@
}

/// The message id is present and not empty.
pub open spec fn has_message_id(f: CleanupFileFacts) -> bool {
    f.message_id matches Some(m) && m@.len() > 0
}

/// The file at `i` is a referenced image original whose message also has a
/// referenced, non-empty thumbnail: the original may go, the thumbnail
/// stays.
pub open spec fn thumbnail_backed(files: Seq<CleanupFileFacts>, i: int) -> bool {
    let f = files[i];
    &&& f.kind == AttachmentKind::Original
    &&& referenced_image(f)
    &&& has_message_id(f)
    &&& exists|j: int|
        0 <= j < files.len() && #[trigger] files[j].kind == AttachmentKind::Thumbnail && referenced_image(
            files[j],
        ) && files[j].bytes > 0 && same_message(files[j], f)
}

/// The file at `i` is a referenced, non-empty image thumbnail whose
/// message also has a referenced image original.
pub open spec fn thumbnail_with_original(files: Seq<CleanupFileFacts>, i: int) -> bool {
    let f = files[i];
    &&& f.kind == AttachmentKind::Thumbnail
    &&& referenced_image(f)
    &&& f.bytes > 0
    &&& has_message_id(f)
    &&& exists|j: int|
        0 <= j < files.len() && #[trigger] files[j].kind == AttachmentKind::Original && referenced_image(
            files[j],
        ) && same_message(files[j], f)
}

fn is_referenced_image(f: &CleanupFileFacts) -> (r: bool)
    ensures
        r == referenced_image(*f),
{
    let image = match f.content_type {
        Some(t) => t == 1 || t == 16 || t == 112,
        None => false,
    };
    image && text::eq_str(&text::chars_of(f.reference_status.as_str()), "referenced")
}

fn opt_text_eq(a: &Option<String>, b: &Option<String>) -> (r: bool)
    ensures
        r == (a matches Some(x) && b matches Some(y) && x@ == y@),
{
    match (a, b) {
        (Some(x), Some(y)) => text::eq_chars(&text::chars_of(x.as_str()), &text::chars_of(y.as_str())),
        _ => false,
    }
}

fn is_same_message(a: &CleanupFileFacts, b: &CleanupFileFacts) -> (r: bool)
    ensures
        r == same_message(*a, *b),
{
    opt_text_eq(&a.message_id, &b.message_id) && opt_text_eq(&a.chat_hint, &b.chat_hint)
}

fn has_id(f: &CleanupFileFacts) -> (r: bool)
    ensures
        r == has_message_id(*f),
{
    match &f.message_id {
        Some(m) => text::chars_of(m.as_str()).len() > 0,
        None => false,
    }
}

fn is_original(k: AttachmentKind) -> (r: bool)
    ensures
        r == (k == AttachmentKind::Original),
{
    match k {
        AttachmentKind::Original => true,
        AttachmentKind::Thumbnail => false,
    }
}

/// The file at `q` completes the pair of the file at `i`: the other kind,
/// a referenced picture of the same message, and not empty when it is the
/// thumbnail.
pub open spec fn pair_partner(files: Seq<CleanupFileFacts>, i: int, q: int) -> bool {
    &&& files[q].kind != files[i].kind
    &&& referenced_image(files[q])
    &&& (files[i].kind == AttachmentKind::Original ==> files[q].bytes > 0)
    &&& same_message(files[q], files[i])
}

/// Marks, for each file, whether it is an image original backed by a kept
/// thumbnail (the files the safe automatic cleanup may plan), and whether
/// it is a thumbnail kept for such an original.
pub fn thumbnail_pairs(files: &Vec<CleanupFileFacts>) -> (r: (Vec<bool>, Vec<bool>))
    ensures
        r.0@.len() == files@.len(),
        r.1@.len() == files@.len(),
        forall|i: int| 0 <= i < files@.len() ==> #[trigger] r.0@[i] == thumbnail_backed(files@, i),
        forall|i: int| 0 <= i < files@.len() ==> #[trigger] r.1@[i] == thumbnail_with_original(files@, i),
{
    let mut backed: Vec<bool> = Vec::new();
    let mut kept: Vec<bool> = Vec::new();
    let mut i: usize = 0;
    while i < files.len()
        invariant
            i <= files.len(),
            backed@.len() == i,
            kept@.len() == i,
            forall|q: int| 0 <= q < i ==> #[trigger] backed@[q] == thumbnail_backed(files@, q),
            forall|q: int| 0 <= q < i ==> #[trigger] kept@[q] == thumbnail_with_original(files@, q),
        decreases files.len() - i,
    {
        let f = &files[i];
        let original = is_original(f.kind);
        let candidate = is_referenced_image(f) && has_id(f) && (original || f.bytes > 0);
        let mut partner = false;
        let mut j: usize = 0;
        while j < files.len()
            invariant
                i < files.len(),
                j <= files.len(),
                original == (files@[i as int].kind == AttachmentKind::Original),
                *f == files@[i as int],
                partner == exists|q: int| 0 <= q < j && #[trigger] pair_partner(files@, i as int, q),
            decreases files.len() - j,
        {
            let g = &files[j];
            let other_kind = is_original(g.kind) != original;
            let here = other_kind && is_referenced_image(g) && (!original || g.bytes > 0) && is_same_message(g, f);
            assert(here == pair_partner(files@, i as int, j as int));
            if here {
                partner = true;
            }
            j = j + 1;
        }
        let is_backed = candidate && original && partner;
        let is_kept = candidate && !original && partner;
        proof {
            let fs = files@;
            let ii = i as int;
            if original {
                assert forall|q: int| #[trigger] pair_partner(fs, ii, q) <==> (fs[q].kind == AttachmentKind::Thumbnail
                    && referenced_image(fs[q]) && fs[q].bytes > 0 && same_message(fs[q], fs[ii])) by {}
            } else {
                assert forall|q: int| #[trigger] pair_partner(fs, ii, q) <==> (fs[q].kind == AttachmentKind::Original
                    && referenced_image(fs[q]) && same_message(fs[q], fs[ii])) by {}
            }
            if thumbnail_backed(fs, ii) {
                let q = choose|q: int| 0 <= q < fs.len() && #[trigger] fs[q].kind == AttachmentKind::Thumbnail
                    && referenced_image(fs[q]) && fs[q].bytes > 0 && same_message(fs[q], fs[ii]);
                assert(pair_partner(fs, ii, q));
            }
            if thumbnail_with_original(fs, ii) {
                let q = choose|q: int| 0 <= q < fs.len() && #[trigger] fs[q].kind == AttachmentKind::Original
                    && referenced_image(fs[q]) && same_message(fs[q], fs[ii]);
                assert(pair_partner(fs, ii, q));
            }
        }
        backed.push(is_backed);
        kept.push(is_kept);
        i = i + 1;
    }
    (backed, kept)
}

/// Law: keeping thumbnails applies only to picture originals whose
/// thumbnail is itself kept: every original the safe cleanup may plan has
/// a thumbnail of the same message that stays, and no thumbnail is ever
/// planned by it.
pub proof fn lemma_backed_originals_keep_their_thumbnail(files: Seq<CleanupFileFacts>, i: int)
    requires
        0 <= i < files.len(),
        thumbnail_backed(files, i),
    ensures
        files[i].kind == AttachmentKind::Original,
        exists|j: int|
            0 <= j < files.len() && #[trigger] thumbnail_with_original(files, j) && same_message(
                files[j],
                files[i],
            ),
{
    let f = files[i];
    let j = choose|j: int|
        0 <= j < files.len() && #[trigger] files[j].kind == AttachmentKind::Thumbnail && referenced_image(
            files[j],
        ) && files[j].bytes > 0 && same_message(files[j], f);
    assert(same_message(f, files[j]));
    assert(files[i].kind == AttachmentKind::Original);
    assert(has_message_id(files[j]));
    assert(thumbnail_with_original(files, j));
}

/// Whether the file at `i` is planned once `change` is applied to a group
/// whose files are `files`, planned as `marked`.
pub open spec fn planned_after(
    change: GroupPlanChange,
    files: Seq<CleanupFileFacts>,
    marked: Seq<bool>,
    i: int,
) -> bool {
    match change {
        GroupPlanChange::UnmarkAll => false,
        GroupPlanChange::MarkAll => true,
        GroupPlanChange::MarkAllButKeptThumbnails => !thumbnail_with_original(files, i),
        GroupPlanChange::UnmarkAllButKeptOriginals => thumbnail_backed(files, i),
        GroupPlanChange::RestoreOriginals => marked[i] && !thumbnail_backed(files, i),
        GroupPlanChange::KeepThumbnails => if thumbnail_backed(files, i) {
            true
        } else if thumbnail_with_original(files, i) {
            false
        } else {
            marked[i]
        },
    }
}

/// How many entries of `s` are set.
pub open spec fn count_set(s: Seq<bool>) -> int
    decreases s.len(),
{
    if s.len() == 0 {
        0
    } else {
        count_set(s.drop_last()) + if s.last() {
            1int
        } else {
            0
        }
    }
}

proof fn lemma_count_set_bounds(s: Seq<bool>)
    ensures
        0 <= count_set(s) <= s.len(),
    decreases s.len(),
{
    if s.len() > 0 {
        lemma_count_set_bounds(s.drop_last());
    }
}

/// The counts of a group whose files are `files`, planned as `marked`.
pub open spec fn group_counts_of(files: Seq<CleanupFileFacts>, marked: Seq<bool>) -> GroupCounts {
    let n = files.len() as int;
    GroupCounts {
        total: n as i64,
        marked: count_set(Seq::new(n as nat, |i: int| marked[i])) as i64,
        thumbnail_backed_images: count_set(Seq::new(n as nat, |i: int| thumbnail_backed(files, i))) as i64,
        marked_thumbnail_backed_images: count_set(
            Seq::new(n as nat, |i: int| marked[i] && thumbnail_backed(files, i)),
        ) as i64,
        image_thumbnails: count_set(Seq::new(n as nat, |i: int| thumbnail_with_original(files, i))) as i64,
        marked_image_thumbnails: count_set(
            Seq::new(n as nat, |i: int| marked[i] && thumbnail_with_original(files, i)),
        ) as i64,
    }
}

fn count_flags(flags: &Vec<bool>) -> (r: i64)
    requires
        flags@.len() < i64::MAX,
    ensures
        r == count_set(flags@),
{
    let mut c: i64 = 0;
    let mut i: usize = 0;
    while i < flags.len()
        invariant
            i <= flags.len(),
            flags@.len() < i64::MAX,
            c == count_set(flags@.take(i as int)),
        decreases flags.len() - i,
    {
        assert(flags@.take(i + 1).drop_last() =~= flags@.take(i as int));
        proof {
            lemma_count_set_bounds(flags@.take(i as int));
        }
        if flags[i] {
            c = c + 1;
        }
        i = i + 1;
    }
    assert(flags@.take(flags.len() as int) =~= flags@);
    c
}

/// The counts a group action decides on, from the group's files and
/// which of them are planned.
pub fn group_counts(files: &Vec<CleanupFileFacts>, marked: &Vec<bool>) -> (r: GroupCounts)
    requires
        marked@.len() == files@.len(),
        files@.len() < i64::MAX,
    ensures
        r == group_counts_of(files@, marked@),
{
    let (backed, kept) = thumbnail_pairs(files);
    let n = files.len();
    let mut mb: Vec<bool> = Vec::new();
    let mut mk: Vec<bool> = Vec::new();
    let mut i: usize = 0;
    while i < n
        invariant
            i <= n,
            n == files@.len(),
            marked@.len() == n,
            backed@.len() == n,
            kept@.len() == n,
            mb@.len() == i,
            mk@.len() == i,
            forall|q: int| 0 <= q < i ==> #[trigger] mb@[q] == (marked@[q] && backed@[q]),
            forall|q: int| 0 <= q < i ==> #[trigger] mk@[q] == (marked@[q] && kept@[q]),
        decreases n - i,
    {
        mb.push(marked[i] && backed[i]);
        mk.push(marked[i] && kept[i]);
        i = i + 1;
    }
    let ghost fs = files@;
    let ghost ms = marked@;
    assert(marked@ =~= Seq::new(n as nat, |i: int| ms[i]));
    assert(backed@ =~= Seq::new(n as nat, |i: int| thumbnail_backed(fs, i)));
    assert(kept@ =~= Seq::new(n as nat, |i: int| thumbnail_with_original(fs, i)));
    assert(mb@ =~= Seq::new(n as nat, |i: int| ms[i] && thumbnail_backed(fs, i)));
    assert(mk@ =~= Seq::new(n as nat, |i: int| ms[i] && thumbnail_with_original(fs, i)));
    GroupCounts {
        total: n as i64,
        marked: count_flags(marked),
        thumbnail_backed_images: count_flags(&backed),
        marked_thumbnail_backed_images: count_flags(&mb),
        image_thumbnails: count_flags(&kept),
        marked_image_thumbnails: count_flags(&mk),
    }
}

/// Applies a group change: which files of the group are planned after it.
pub fn apply_group_change(change: GroupPlanChange, files: &Vec<CleanupFileFacts>, marked: &Vec<bool>) -> (r: Vec<
    bool,
>)
    requires
        marked@.len() == files@.len(),
    ensures
        r@.len() == files@.len(),
        forall|i: int|
            0 <= i < files@.len() ==> #[trigger] r@[i] == planned_after(change, files@, marked@, i),
{
    let (backed, kept) = thumbnail_pairs(files);
    let mut out: Vec<bool> = Vec::new();
    let mut i: usize = 0;
    while i < files.len()
        invariant
            i <= files.len(),
            marked@.len() == files@.len(),
            backed@.len() == files@.len(),
            kept@.len() == files@.len(),
            forall|q: int| 0 <= q < files@.len() ==> #[trigger] backed@[q] == thumbnail_backed(files@, q),
            forall|q: int| 0 <= q < files@.len() ==> #[trigger] kept@[q] == thumbnail_with_original(files@, q),
            out@.len() == i,
            forall|q: int| 0 <= q < i ==> #[trigger] out@[q] == planned_after(change, files@, marked@, q),
        decreases files.len() - i,
    {
        let v = match change {
            GroupPlanChange::UnmarkAll => false,
            GroupPlanChange::MarkAll => true,
            GroupPlanChange::MarkAllButKeptThumbnails => !kept[i],
            GroupPlanChange::UnmarkAllButKeptOriginals => backed[i],
            GroupPlanChange::RestoreOriginals => marked[i] && !backed[i],
            GroupPlanChange::KeepThumbnails => if backed[i] {
                true
            } else if kept[i] {
                false
            } else {
                marked[i]
            },
        };
        out.push(v);
        i = i + 1;
    }
    out
}

/// Law: keeping thumbnails takes precedence over planning the whole group.
/// While thumbnails are kept, toggling the group leaves every kept image
/// thumbnail unplanned and every thumbnail-backed original planned; and
/// turning keeping on leaves the kept thumbnails unplanned whatever else
/// is planned.
pub proof fn lemma_kept_thumbnails_take_precedence(files: Seq<CleanupFileFacts>, marked: Seq<bool>)
    requires
        marked.len() == files.len(),
        files.len() < i64::MAX,
    ensures
        keeping_thumbnails(group_counts_of(files, marked)) ==> {
            let r = group_plan(GroupAction::ToggleAll, group_counts_of(files, marked));
            &&& r is Ok
            &&& forall|i: int|
                0 <= i < files.len() && #[trigger] thumbnail_with_original(files, i) ==> !planned_after(
                    r->Ok_0,
                    files,
                    marked,
                    i,
                )
            &&& forall|i: int|
                0 <= i < files.len() && #[trigger] thumbnail_backed(files, i) ==> planned_after(
                    r->Ok_0,
                    files,
                    marked,
                    i,
                )
        },
        forall|i: int|
            0 <= i < files.len() && #[trigger] thumbnail_with_original(files, i) ==> !planned_after(
                GroupPlanChange::KeepThumbnails,
                files,
                marked,
                i,
            ),
{
    assert forall|i: int| 0 <= i < files.len() && #[trigger] thumbnail_with_original(files, i) implies !thumbnail_backed(
        files,
        i,
    ) by {}
    if files.len() == 0 {
        let b = Seq::new(0nat, |i: int| thumbnail_backed(files, i));
        assert(b.len() == 0);
        assert(count_set(b) == 0);
    }
}

// ---------------------------------------------------------------------
// Recovering work a previous session left unfinished
// ---------------------------------------------------------------------

/// What becomes of an interrupted scan or duplicate hashing.
#[derive(Debug, Clone, Copy, PartialEq, Eq)]
pub enum InterruptedWork {
    /// The source is unchanged: the work is marked resumable.
    Resume,
    /// The source changed: the work starts over (`not_started`).
    Restart,
}

/// How a catalog recovers what a previous session left unfinished.
#[derive(Debug, Clone, Copy, PartialEq, Eq)]
pub struct RecoveryPlan {
    /// An interrupted scan; when it restarts its last path is emptied.
    pub scan: Option<InterruptedWork>,
    /// The message contexts were being indexed: every file's context is
    /// reset to unconfirmed and the index starts over.
    pub reset_contexts: bool,
    /// Interrupted duplicate hashing; when it restarts the digests are
    /// cleared.
    pub hash: Option<InterruptedWork>,
    /// Every removal plan is withdrawn: the scan restarts or the contexts
    /// are reset.
    pub clear_plans: bool,
}

/// The text is present and equal to `word`.
pub open spec fn status_is(status: Option<&str>, word: Seq<char>) -> bool {
    status matches Some(s) && s@ == word
}

/// The fate of work left at `running_word`, given whether the source is
/// unchanged.
pub open spec fn interrupted(status: Option<&str>, running_word: Seq<char>, source_unchanged: bool) -> Option<
    InterruptedWork,
> {
    if status_is(status, running_word) {
        Some(if source_unchanged {
            InterruptedWork::Resume
        } else {
            InterruptedWork::Restart
        })
    } else {
        None
    }
}

fn status_matches(status: Option<&str>, word: &str) -> (r: bool)
    ensures
        r == status_is(status, word@),
{
    match status {
        Some(s) => text::eq_chars(&text::chars_of(s), &text::chars_of(word)),
        None => false,
    }
}

/// Decides how to recover from the stored scan, context and hash statuses:
/// a scan left `scanning` resumes when the source is unchanged and starts
/// over otherwise; a context index left `indexing` starts over; hashing
/// left `running` resumes when the source is unchanged and starts over
/// otherwise. `source_unchanged` only matters for a scan or hashing.
pub fn recovery_plan(
    scan_status: Option<&str>,
    context_status: Option<&str>,
    hash_status: Option<&str>,
    source_unchanged: bool,
) -> (r: RecoveryPlan)
    ensures
        r.scan == interrupted(scan_status, "scanning"@, source_unchanged),
        r.reset_contexts == status_is(context_status, "indexing"@),
        r.hash == interrupted(hash_status, "running"@, source_unchanged),
        r.clear_plans == (r.scan == Some(InterruptedWork::Restart) || r.reset_contexts),
{
    let outcome = if source_unchanged {
        InterruptedWork::Resume
    } else {
        InterruptedWork::Restart
    };
    let scan = if status_matches(scan_status, "scanning") {
        Some(outcome)
    } else {
        None
    };
    let reset_contexts = status_matches(context_status, "indexing");
    let hash = if status_matches(hash_status, "running") {
        Some(outcome)
    } else {
        None
    };
    let restart_scan = match scan {
        Some(InterruptedWork::Restart) => true,
        _ => false,
    };
    RecoveryPlan { scan, reset_contexts, hash, clear_plans: restart_scan || reset_contexts }
}
} // verus!
