//! Plain data carried between the library and its callers: chats, messages,
//! attachments, pages and cleanup reports.

use vstd::prelude::*;

use crate::error::CoreError;
use crate::text::{chars_of, eq_str};

verus! {

/// Page size used when a caller does not ask for one.
pub const DEFAULT_PAGE_SIZE: u32 = 180;

/// Largest page any listing hands out.
pub const MAX_PAGE_SIZE: u32 = 1000;

/// Position after which (or before which) a chat listing continues.
#[derive(Debug, Clone, PartialEq, Eq)]
pub struct ChatCursor {
    pub last_updated: i64,
    pub source: String,
    pub pk: i64,
}

/// One chat room of the LINE or LINE Square database.
#[derive(Debug, Clone, PartialEq, Eq)]
pub struct Chat {
    pub pk: i64,
    pub source: String,
    pub id: String,
    pub chat_type: i64,
    pub kind: String,
    pub title: String,
    pub title_source: String,
    pub message_count: i64,
    pub human_message_count: i64,
    pub last_updated: i64,
    pub last_message: String,
    pub planned_for_removal: bool,
}

/// One page of chats.
#[derive(Debug, Clone, PartialEq, Eq)]
pub struct ChatPage {
    pub items: Vec<Chat>,
    pub next_cursor: Option<ChatCursor>,
    pub has_previous: bool,
}

/// Position after which a message listing continues.
#[derive(Debug, Clone, Copy, PartialEq, Eq)]
pub struct MessageCursor {
    pub timestamp: i64,
    pub pk: i64,
}

/// A file that belongs to a message.
#[derive(Debug, Clone, PartialEq, Eq)]
pub struct MessageAttachment {
    pub path: String,
    pub bytes: u64,
    pub kind: AttachmentKind,
}

/// Whether an attachment file is the original or its thumbnail.
#[derive(Debug, Clone, Copy, PartialEq, Eq)]
pub enum AttachmentKind {
    Original,
    Thumbnail,
}

/// The name under which an attachment kind is stored and exchanged.
pub open spec fn attachment_kind_name(kind: AttachmentKind) -> Seq<char> {
    match kind {
        AttachmentKind::Original => "original"@,
        AttachmentKind::Thumbnail => "thumbnail"@,
    }
}

impl AttachmentKind {
    /// The stored name of the kind: `original` or `thumbnail`.
    pub fn as_str(self) -> (r: &'static str)
        ensures
            r@ == attachment_kind_name(self),
    {
        match self {
            AttachmentKind::Original => "original",
            AttachmentKind::Thumbnail => "thumbnail",
        }
    }

    /// Parses a stored kind name; any other text is refused.
    pub fn parse(value: &str) -> (r: Result<AttachmentKind, CoreError>)
        ensures
            match r {
                Ok(kind) => attachment_kind_name(kind) == value@,
                Err(e) => e == CoreError::AttachmentKindName && value@ != "original"@ && value@
                    != "thumbnail"@,
            },
    {
        let v = chars_of(value);
        if eq_str(&v, "original") {
            Ok(AttachmentKind::Original)
        } else if eq_str(&v, "thumbnail") {
            Ok(AttachmentKind::Thumbnail)
        } else {
            Err(CoreError::AttachmentKindName)
        }
    }
}

impl std::str::FromStr for AttachmentKind {
    type Err = CoreError;

    fn from_str(value: &str) -> (r: Result<Self, Self::Err>)
        ensures
            match r {
                Ok(kind) => attachment_kind_name(kind) == value@,
                Err(e) => e == CoreError::AttachmentKindName && value@ != "original"@ && value@
                    != "thumbnail"@,
            },
    {
        AttachmentKind::parse(value)
    }
}

/// Position after which an attachment listing continues.
#[derive(Debug, Clone, Copy, PartialEq, Eq)]
pub struct AttachmentCursor {
    pub id: i64,
}

/// The message an attachment file was matched to.
#[derive(Debug, Clone, PartialEq, Eq)]
pub struct AttachmentContext {
    pub source: String,
    pub message_pk: i64,
    pub chat_pk: i64,
    pub chat_id: String,
    pub chat_title: String,
    pub chat_kind: String,
    pub timestamp: i64,
    pub sender_pk: Option<i64>,
    pub sender_name: String,
    pub content_type: Option<i64>,
    pub text: String,
}

/// One attachment file of the catalog.
#[derive(Debug, Clone, PartialEq, Eq)]
pub struct AttachmentItem {
    pub id: i64,
    pub path: String,
    pub bytes: u64,
    pub modified_ns: i64,
    pub kind: AttachmentKind,
    pub message_id: String,
    pub chat_hint: String,
    pub marked_for_removal: bool,
    pub removal_reason: String,
    pub reference_status: String,
    pub context: Option<AttachmentContext>,
}

/// One page of attachment files.
#[derive(Debug, Clone, PartialEq, Eq)]
pub struct AttachmentPage {
    pub items: Vec<AttachmentItem>,
    pub next_cursor: Option<AttachmentCursor>,
}

/// An attachment copied out for previewing.
#[derive(Debug, Clone, PartialEq, Eq)]
pub struct AttachmentPreview {
    pub staged_path: String,
    pub media_type: String,
    pub bytes: u64,
}

/// Progress of an attachment export.
#[derive(Debug, Clone, Copy, PartialEq, Eq)]
pub struct ExportProgress {
    pub processed_files: u64,
    pub total_files: u64,
    pub processed_bytes: u64,
    pub total_bytes: u64,
    pub skipped_files: u64,
}

/// Result of an attachment export.
#[derive(Debug, Clone, PartialEq, Eq)]
pub struct ExportReport {
    pub output_name: String,
    pub exported_files: u64,
    pub exported_bytes: u64,
    pub skipped_files: u64,
    pub skipped_bytes: u64,
}

/// Progress of a conversation export.
#[derive(Debug, Clone, Copy, PartialEq, Eq)]
pub struct ConversationExportProgress {
    pub processed_messages: u64,
    pub total_messages: u64,
    pub processed_attachments: u64,
    pub total_attachments: u64,
    pub processed_bytes: u64,
    pub total_bytes: u64,
}

/// Result of a conversation export.
#[derive(Debug, Clone, PartialEq, Eq)]
pub struct ConversationExportReport {
    pub output_name: String,
    pub messages: u64,
    pub attachments: u64,
    pub attachment_bytes: u64,
}

/// Totals of the file catalog.
#[derive(Debug, Clone, PartialEq, Eq)]
pub struct CatalogStats {
    pub source_path: String,
    pub scan_status: String,
    pub file_count: u64,
    pub total_bytes: u64,
    pub attachment_count: u64,
    pub attachment_bytes: u64,
    pub marked_count: u64,
    pub marked_bytes: u64,
}

/// Position after which a duplicate-group listing continues.
#[derive(Debug, Clone, PartialEq, Eq)]
pub struct DuplicateGroupCursor {
    pub reclaimable_bytes: u64,
    pub sha256: String,
}

/// Files that share one content digest.
#[derive(Debug, Clone, PartialEq, Eq)]
pub struct DuplicateGroup {
    pub sha256: String,
    pub bytes: u64,
    pub file_count: u64,
    pub reclaimable_bytes: u64,
    pub has_original: bool,
    pub has_thumbnail: bool,
    pub preview_path: Option<String>,
}

/// One page of duplicate groups.
#[derive(Debug, Clone, PartialEq, Eq)]
pub struct DuplicateGroupPage {
    pub items: Vec<DuplicateGroup>,
    pub next_cursor: Option<DuplicateGroupCursor>,
}

/// One page of the members of a duplicate group.
#[derive(Debug, Clone, PartialEq, Eq)]
pub struct DuplicateMemberPage {
    pub items: Vec<AttachmentItem>,
    pub next_cursor: Option<AttachmentCursor>,
}

/// Progress of duplicate hashing.
#[derive(Debug, Clone, Copy, PartialEq, Eq)]
pub struct DuplicateHashProgress {
    pub candidate_files: u64,
    pub processed_files: u64,
    pub total_bytes: u64,
    pub processed_bytes: u64,
}

/// Files and bytes of one cleanup category.
#[derive(Debug, Clone, PartialEq, Eq)]
pub struct CleanupCategoryTotal {
    pub category: String,
    pub file_count: u64,
    pub bytes: u64,
}

/// What a cleanup category currently plans.
#[derive(Debug, Clone, PartialEq, Eq)]
pub struct CleanupCategoryActionState {
    pub category: String,
    pub attachment_count: u64,
    pub marked_attachment_count: u64,
    pub thumbnail_candidate_count: u64,
    pub chat_count: u64,
    pub planned_chat_count: u64,
    pub keeping_all_thumbnails: bool,
    pub deleting_all_attachments: bool,
    pub deleting_all_chats: bool,
}

/// Overview of the cleanup plan.
#[derive(Debug, Clone, PartialEq, Eq)]
pub struct CleanupOverview {
    pub categories: Vec<CleanupCategoryTotal>,
    pub marked_count: u64,
    pub marked_bytes: u64,
    pub manual_marked_count: u64,
    pub manual_marked_bytes: u64,
    pub automatic_candidate_count: u64,
    pub automatic_candidate_bytes: u64,
    pub automatic_marked_count: u64,
    pub automatic_marked_bytes: u64,
    pub context_status: String,
}

/// One risk found before a cleanup candidate is built.
#[derive(Debug, Clone, PartialEq, Eq)]
pub struct CleanupRisk {
    pub code: String,
    pub severity: String,
    pub title: String,
    pub detail: String,
    pub file_count: u64,
    pub bytes: u64,
}

/// The safety checks run before a cleanup candidate is built.
#[derive(Debug, Clone, PartialEq, Eq)]
pub struct CleanupPreflightReport {
    pub source_kind: String,
    pub source_read_only: bool,
    pub sqlite_quick_check: String,
    pub catalog_source_current: bool,
    pub scan_status: String,
    pub context_status: String,
    pub active_job: Option<String>,
    pub risk_count: u64,
    pub blocker_count: u64,
    pub warning_count: u64,
    pub safe_candidate_count: u64,
    pub safe_candidate_bytes: u64,
    pub marked_count: u64,
    pub marked_bytes: u64,
    pub risks: Vec<CleanupRisk>,
}

/// A rehearsal of one cleanup profile.
#[derive(Debug, Clone, PartialEq, Eq)]
pub struct CleanupPlanPreview {
    pub profile: String,
    pub title: String,
    pub description: String,
    pub automatic_file_count: u64,
    pub automatic_bytes: u64,
    pub review_file_count: u64,
    pub review_bytes: u64,
    pub planned_chat_count: u64,
    pub planned_message_count: u64,
    pub warnings: Vec<String>,
}

/// One recorded change of the cleanup plan.
#[derive(Debug, Clone, PartialEq, Eq)]
pub struct CleanupActivity {
    pub id: u64,
    pub action: String,
    pub scope: String,
    pub detail: String,
    pub file_count: u64,
    pub bytes: u64,
    pub created_at: i64,
}

/// The cleanup plan as it stands, with its fingerprint.
#[derive(Debug, Clone, PartialEq, Eq)]
pub struct CleanupPlanSnapshot {
    pub source_path: String,
    pub source_fingerprint: Option<String>,
    pub plan_fingerprint: String,
    pub generated_at: i64,
    pub marked_count: u64,
    pub marked_bytes: u64,
    pub manual_marked_count: u64,
    pub manual_marked_bytes: u64,
    pub automatic_marked_count: u64,
    pub automatic_marked_bytes: u64,
    pub chat_marked_count: u64,
    pub chat_marked_bytes: u64,
    pub planned_chat_count: u64,
    pub planned_message_count: u64,
}

/// The plan snapshot with the latest plan changes.
#[derive(Debug, Clone, PartialEq, Eq)]
pub struct CleanupAuditReport {
    pub plan: CleanupPlanSnapshot,
    pub events: Vec<CleanupActivity>,
}

/// Attachment files grouped by chat or by reference status.
#[derive(Debug, Clone, PartialEq, Eq)]
pub struct CleanupGroup {
    pub key: String,
    pub chat_source: String,
    pub chat_pk: Option<i64>,
    pub chat_id: String,
    pub chat_title: String,
    pub chat_kind: String,
    pub reference_status: String,
    pub file_count: u64,
    pub total_bytes: u64,
    pub marked_count: u64,
    pub has_original: bool,
    pub has_thumbnail: bool,
    pub thumbnail_backed_image_count: u64,
    pub keeping_thumbnails: bool,
    pub latest_timestamp: i64,
    pub planned_for_chat_removal: bool,
}

/// One numbered page of cleanup groups.
#[derive(Debug, Clone, PartialEq, Eq)]
pub struct CleanupGroupPage {
    pub items: Vec<CleanupGroup>,
    pub page: u32,
    pub page_size: u32,
    pub total_items: u64,
    pub total_pages: u64,
}

/// The files of one message within a cleanup group.
#[derive(Debug, Clone, PartialEq, Eq)]
pub struct CleanupReview {
    pub key: String,
    pub message_id: String,
    pub reference_status: String,
    pub context: Option<AttachmentContext>,
    pub files: Vec<AttachmentItem>,
    pub total_bytes: u64,
}

/// One numbered page of reviews within a cleanup group.
#[derive(Debug, Clone, PartialEq, Eq)]
pub struct CleanupReviewPage {
    pub group: CleanupGroup,
    pub items: Vec<CleanupReview>,
    pub page: u32,
    pub page_size: u32,
    pub total_items: u64,
    pub total_pages: u64,
}

/// Counts of the database-level cleanup choices.
#[derive(Debug, Clone, PartialEq, Eq)]
pub struct AdvancedCleanupReport {
    pub line_empty_chats: u64,
    pub line_system_only_chats: u64,
    pub square_available: bool,
    pub square_empty_chats: u64,
    pub square_system_only_chats: u64,
    pub orphan_community_messages: u64,
    pub automatic_cleanup_planned: bool,
    pub planned_chats: u64,
    pub planned_database_messages: u64,
    pub planned_files: u64,
    pub planned_bytes: u64,
}

/// Whether `limit` is an accepted page size.
pub open spec fn page_size_ok(limit: u32) -> bool {
    1 <= limit <= MAX_PAGE_SIZE
}

/// Checks a requested page size: it must lie between 1 and the largest page.
pub fn checked_page_size(limit: u32) -> (r: Result<usize, CoreError>)
    ensures
        page_size_ok(limit) ==> r == Ok::<usize, CoreError>(limit as usize),
        !page_size_ok(limit) ==> r == Err::<usize, CoreError>(CoreError::PageSize),
{
    if limit == 0 || limit > MAX_PAGE_SIZE {
        return Err(CoreError::PageSize);
    }
    Ok(limit as usize)
}

} // verus!
