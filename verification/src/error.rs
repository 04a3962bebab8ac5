//! Why an operation of the library refused its input.

use vstd::prelude::*;

use crate::text::{append, append_str, string_of};

verus! {

/// A refusal of the library, one variant per rule that was broken.
#[derive(Debug, Clone, PartialEq, Eq)]
pub enum CoreError {
    /// A page size outside 1 through the largest page.
    PageSize,
    /// A cleanup page number of zero.
    CleanupPageZero,
    /// A cleanup kind filter other than all, original, thumbnail or marked.
    CleanupKind,
    /// An unknown cleanup category.
    CleanupCategory,
    /// A cleanup sort other than recent, oldest, size or path.
    CleanupSort,
    /// A file filter on the listing of chats without attachments.
    EmptyChatKindFilter,
    /// An empty or over-long cleanup group key.
    CleanupGroupKey,
    /// A page offset that does not fit 64 bits.
    PageOffsetOverflow,
    /// A page offset above the largest signed 64-bit value.
    PageOffsetTooLarge,
    /// A catalog path that could escape the source directory.
    UnsafeSourcePath(Vec<char>),
    /// A source path that is empty or holds an empty, `.` or `..` component.
    UnsafeRelativePath(Vec<char>),
    /// A digest that is not 64 hexadecimal characters.
    Sha256Format,
    /// An attachment kind name other than original or thumbnail.
    AttachmentKindName,
    /// The operation was cancelled.
    Cancelled,
    /// An attachment path that cannot take part in duplicate linking.
    UnsafeLinkPath(Vec<char>),
    /// A duplicate link that would point at itself.
    LinkTargetIsSelf(Vec<char>),
    /// A database cleanup plan that names a source other than line or square.
    UnsupportedPlanSource,
    /// The community database is corrupt and may only be rebuilt with consent.
    LineSquareRebuildRequired,
    /// A removal plan that names a protected or non-attachment path.
    ProtectedRemoval(Vec<char>),
    /// Marked paths that the source does not hold.
    RemovalsNotFound(Vec<Vec<char>>),
    /// A source archive that holds an encrypted entry.
    EncryptedEntry(Vec<char>),
    /// A source archive that holds one path twice.
    DuplicateSourceEntry(Vec<char>),
    /// A source without a protected `Messages/Line.sqlite`.
    MissingProtectedDatabase,
    /// A candidate whose entry count differs from the count written.
    CandidateEntryCount(u64, u64),
    /// A candidate that still holds a marked removal.
    CandidateHoldsRemoval(Vec<char>),
    /// A candidate that still holds a stale SQLite sidecar.
    CandidateHoldsSidecar(Vec<char>),
    /// A candidate that holds one path twice.
    CandidateDuplicateEntry(Vec<char>),
    /// A duplicate link that is not stored as a symbolic link.
    CandidateLinkNotSymlink(Vec<char>),
    /// A duplicate link whose target text changed.
    CandidateLinkTargetChanged(Vec<char>),
    /// A duplicate link whose target cannot be read as text.
    CandidateLinkTargetInvalid(Vec<char>),
    /// A duplicate link missing from the candidate.
    CandidateLinkMissing(Vec<char>),
    /// A duplicate link whose target is missing or not a regular file.
    CandidateLinkTargetMissing(Vec<char>),
    /// A duplicate link whose target is itself marked for removal.
    CandidateLinkTargetMarked(Vec<char>),
    /// A source that is neither a backup directory, `Line.sqlite` nor `.imazingapp`.
    UnsupportedSource,
    /// A backup without `Messages/Line.sqlite`.
    DatabaseNotFound,
    /// A candidate output name without the `.imazingapp` ending.
    CandidateOutputName,
    /// A candidate output that would overwrite its source.
    OutputIsSource,
    /// A directory candidate written inside its own source.
    OutputInsideSource,
    /// A candidate output that already exists.
    OutputExists,
    /// A direct `Line.sqlite` given where a complete backup is needed.
    SqliteIsNotBackup,
    /// A bulk cleanup reason other than community or old_account.
    BulkReason,
    /// A search query that is empty after trimming.
    EmptySearch,
    /// A search query longer than 1,024 UTF-8 bytes.
    SearchTooLong,
    /// Only one of the two cursor components was given.
    HalfCursor,
    /// Both an after and a before cursor were given.
    TwoCursors,
    /// A chat cleanup source other than line or square.
    ChatSource,
    /// A catalog that already belongs to another source.
    ForeignCatalog,
    /// A resumable scan whose scan number cannot be read.
    ScanIdMissing,
    /// A catalog whose file ids span a range that cannot be split.
    CatalogIdRange,
    /// A worker's share of catalog ids that does not fit 64 bits.
    WorkerIdRange,
    /// A message source other than line or square.
    MessageSource,
    /// The LINE Square database was asked for but is not loaded.
    SquareUnavailable,
    /// A request names a method the server does not have.
    UnknownMethod(Vec<char>),
    /// A chat cleanup reason other than selected, empty or system only.
    ChatRemovalReason,
    /// A community chat was offered while the whole community is already planned.
    CommunityAlreadyPlanned,
    /// The LINE Square database entry is not a relative `Messages/LineSquare.sqlite` path.
    SquareSourcePath,
    /// A community cleanup was handed a chat of another source.
    NonCommunityChat,
    /// The LINE Square database is not among the catalogued files.
    SquareDatabaseNotCataloged,
    /// More community chats than the catalog can count.
    TooManyCommunityChats,
    /// More community messages than the catalog can count.
    TooManyCommunityMessages,
    /// A cleanup group action other than toggle all or keep thumbnail.
    CleanupGroupAction,
    /// A cleanup group without files.
    CleanupGroupMissing,
    /// A cleanup group without an image original whose thumbnail is kept.
    NoThumbnailBackedImages,
    /// The current LINE account could not be identified.
    CurrentAccountUnknown,
    /// The current LINE account's folder is not among the catalogued files.
    CurrentAccountMissing,
    /// A cleanup review page would hold more files than one response carries.
    ReviewTooLarge,
    /// Only one part of a duplicate group cursor was given.
    DuplicateHalfCursor,
}

/// Builds a message from a fixed text and the characters of a value.
fn with_value(prefix: &str, value: &Vec<char>) -> (r: String)
    ensures
        r@ == prefix@ + value@,
{
    let mut v: Vec<char> = Vec::new();
    append_str(&mut v, prefix);
    append(&mut v, value);
    string_of(&v)
}

/// The sentence that says what an error refused.
pub open spec fn error_message(e: CoreError) -> Seq<char> {
    match e {
        CoreError::PageSize => "page size must be between 1 and 1000"@,
        CoreError::CleanupPageZero => "cleanup page must be at least 1"@,
        CoreError::CleanupKind => "cleanup kind must be all, original, thumbnail, or marked"@,
        CoreError::CleanupCategory => "unsupported cleanup category"@,
        CoreError::CleanupSort => "cleanup sort must be recent, oldest, size, or path"@,
        CoreError::EmptyChatKindFilter => "沒有附件的聊天室不支援檔案篩選"@,
        CoreError::CleanupGroupKey => "invalid cleanup group key"@,
        CoreError::PageOffsetOverflow => "cleanup page offset overflow"@,
        CoreError::PageOffsetTooLarge => "cleanup page offset is too large"@,
        CoreError::UnsafeSourcePath(p) => "catalog contains an unsafe source path: "@ + p@,
        CoreError::UnsafeRelativePath(p) => "source contains an unsafe relative path: "@ + p@,
        CoreError::Sha256Format => "sha256 must contain exactly 64 hexadecimal characters"@,
        CoreError::AttachmentKindName => "attachment kind must be `original` or `thumbnail`"@,
        CoreError::Cancelled => "operation_cancelled"@,
        CoreError::UnsafeLinkPath(p) => "unsafe attachment path cannot be used for duplicate linking: "@ + p@,
        CoreError::LinkTargetIsSelf(p) => "duplicate symlink target resolves to its own path: "@ + p@,
        CoreError::UnsupportedPlanSource => "database cleanup plan contains an unsupported source"@,
        CoreError::LineSquareRebuildRequired => "LineSquare.sqlite is corrupt and requires explicit authorization before it can be rebuilt as an empty database"@,
        CoreError::ProtectedRemoval(p) => "removal plan contains a protected or non-attachment path: "@ + p@,
        CoreError::RemovalsNotFound(_) => "removal plan paths were not found in the source"@,
        CoreError::EncryptedEntry(p) => "encrypted ZIP entries are not supported: "@ + p@,
        CoreError::DuplicateSourceEntry(p) => "source archive contains duplicate entry path: "@ + p@,
        CoreError::MissingProtectedDatabase => "source does not contain a protected Messages/Line.sqlite"@,
        CoreError::CandidateEntryCount(_, _) => "candidate entry count mismatch"@,
        CoreError::CandidateHoldsRemoval(p) => "candidate still contains a marked removal: "@ + p@,
        CoreError::CandidateHoldsSidecar(p) => "candidate still contains a stale SQLite sidecar: "@ + p@,
        CoreError::CandidateDuplicateEntry(p) => "candidate contains duplicate entry path: "@ + p@,
        CoreError::CandidateLinkNotSymlink(p) => "candidate duplicate link is not a symbolic link: "@ + p@,
        CoreError::CandidateLinkTargetChanged(p) => "candidate duplicate link target changed: "@ + p@,
        CoreError::CandidateLinkMissing(p) => "candidate is missing duplicate link entry: "@ + p@,
        CoreError::CandidateLinkTargetMissing(p) => "candidate duplicate link target is missing or not a regular file: "@ + p@,
        CoreError::CandidateLinkTargetInvalid(p) => "candidate duplicate link target is invalid: "@ + p@,
        CoreError::CandidateLinkTargetMarked(p) => "candidate duplicate link targets a marked removal: "@ + p@,
        CoreError::UnsupportedSource => "source must be a LINE backup directory, Line.sqlite, or .imazingapp"@,
        CoreError::DatabaseNotFound => "backup does not contain Messages/Line.sqlite"@,
        CoreError::CandidateOutputName => "candidate output must end with .imazingapp or .imazingapp.candidate"@,
        CoreError::OutputIsSource => "output must not overwrite the source"@,
        CoreError::OutputInsideSource => "directory candidate output must be outside the source tree"@,
        CoreError::OutputExists => "output already exists"@,
        CoreError::SqliteIsNotBackup => "a direct Line.sqlite is not a complete backup and cannot become .imazingapp"@,
        CoreError::BulkReason => "unsupported bulk cleanup reason"@,
        CoreError::EmptySearch => "search query cannot be empty"@,
        CoreError::SearchTooLong => "search query cannot exceed 1,024 UTF-8 bytes"@,
        CoreError::HalfCursor => "both cursor components must be provided together"@,
        CoreError::TwoCursors => "chat pagination cannot use both after and before cursors"@,
        CoreError::ChatSource => "chat cleanup source must be `line` or `square`"@,
        CoreError::ForeignCatalog => "catalog belongs to another source; create a new work directory instead of mixing backups"@,
        CoreError::ScanIdMissing => "resumable scan is missing its scan ID"@,
        CoreError::CatalogIdRange => "catalog file ID range is invalid"@,
        CoreError::WorkerIdRange => "catalog worker ID range overflow"@,
        CoreError::MessageSource => "message source must be `line` or `square`"@,
        CoreError::SquareUnavailable => "LineSquare.sqlite is not available"@,
        CoreError::UnknownMethod(name) => "unknown method: "@ + name@,
        CoreError::ChatRemovalReason => "invalid chat cleanup reason"@,
        CoreError::CommunityAlreadyPlanned => "all community data is already included in the cleanup plan"@,
        CoreError::SquareSourcePath => "invalid LineSquare.sqlite source path"@,
        CoreError::NonCommunityChat => "community cleanup received a non-community chat"@,
        CoreError::SquareDatabaseNotCataloged => "LineSquare.sqlite is missing from the attachment catalog"@,
        CoreError::TooManyCommunityChats => "too many community chats"@,
        CoreError::TooManyCommunityMessages => "too many community messages"@,
        CoreError::CleanupGroupAction => "cleanup group action must be `toggle_all` or `keep_thumbnail`"@,
        CoreError::CleanupGroupMissing => "cleanup group does not exist"@,
        CoreError::NoThumbnailBackedImages => "cleanup group does not contain image originals with matching thumbnails"@,
        CoreError::CurrentAccountUnknown => "cannot identify the current LINE account"@,
        CoreError::CurrentAccountMissing => "the verified current LINE account folder is missing from the catalog"@,
        CoreError::ReviewTooLarge => "cleanup review page exceeds 1000 files; narrow the filters"@,
        CoreError::DuplicateHalfCursor => "both duplicate cursor components must be provided together"@,
    }
}

impl CoreError {
    /// A sentence that says what was refused.
    pub fn message(&self) -> (r: String)
        ensures
            r@ == error_message(*self),
    {
        match self {
            CoreError::PageSize => crate::text::to_string("page size must be between 1 and 1000"),
            CoreError::CleanupPageZero => crate::text::to_string("cleanup page must be at least 1"),
            CoreError::CleanupKind => crate::text::to_string(
                "cleanup kind must be all, original, thumbnail, or marked",
            ),
            CoreError::CleanupCategory => crate::text::to_string("unsupported cleanup category"),
            CoreError::CleanupSort => crate::text::to_string(
                "cleanup sort must be recent, oldest, size, or path",
            ),
            CoreError::EmptyChatKindFilter => crate::text::to_string(
                "沒有附件的聊天室不支援檔案篩選",
            ),
            CoreError::CleanupGroupKey => crate::text::to_string("invalid cleanup group key"),
            CoreError::PageOffsetOverflow => crate::text::to_string(
                "cleanup page offset overflow",
            ),
            CoreError::PageOffsetTooLarge => crate::text::to_string(
                "cleanup page offset is too large",
            ),
            CoreError::UnsafeSourcePath(p) => with_value(
                "catalog contains an unsafe source path: ",
                p,
            ),
            CoreError::UnsafeRelativePath(p) => with_value(
                "source contains an unsafe relative path: ",
                p,
            ),
            CoreError::Sha256Format => crate::text::to_string(
                "sha256 must contain exactly 64 hexadecimal characters",
            ),
            CoreError::AttachmentKindName => crate::text::to_string(
                "attachment kind must be `original` or `thumbnail`",
            ),
            CoreError::Cancelled => crate::text::to_string("operation_cancelled"),
            CoreError::UnsafeLinkPath(p) => with_value(
                "unsafe attachment path cannot be used for duplicate linking: ",
                p,
            ),
            CoreError::LinkTargetIsSelf(p) => with_value(
                "duplicate symlink target resolves to its own path: ",
                p,
            ),
            CoreError::UnsupportedPlanSource => crate::text::to_string(
                "database cleanup plan contains an unsupported source",
            ),
            CoreError::LineSquareRebuildRequired => crate::text::to_string(
                "LineSquare.sqlite is corrupt and requires explicit authorization before it can be rebuilt as an empty database",
            ),
            CoreError::ProtectedRemoval(p) => with_value(
                "removal plan contains a protected or non-attachment path: ",
                p,
            ),
            CoreError::RemovalsNotFound(_) => crate::text::to_string(
                "removal plan paths were not found in the source",
            ),
            CoreError::EncryptedEntry(p) => with_value(
                "encrypted ZIP entries are not supported: ",
                p,
            ),
            CoreError::DuplicateSourceEntry(p) => with_value(
                "source archive contains duplicate entry path: ",
                p,
            ),
            CoreError::MissingProtectedDatabase => crate::text::to_string(
                "source does not contain a protected Messages/Line.sqlite",
            ),
            CoreError::CandidateEntryCount(_, _) => crate::text::to_string(
                "candidate entry count mismatch",
            ),
            CoreError::CandidateHoldsRemoval(p) => with_value(
                "candidate still contains a marked removal: ",
                p,
            ),
            CoreError::CandidateHoldsSidecar(p) => with_value(
                "candidate still contains a stale SQLite sidecar: ",
                p,
            ),
            CoreError::CandidateDuplicateEntry(p) => with_value(
                "candidate contains duplicate entry path: ",
                p,
            ),
            CoreError::CandidateLinkNotSymlink(p) => with_value(
                "candidate duplicate link is not a symbolic link: ",
                p,
            ),
            CoreError::CandidateLinkTargetChanged(p) => with_value(
                "candidate duplicate link target changed: ",
                p,
            ),
            CoreError::CandidateLinkMissing(p) => with_value(
                "candidate is missing duplicate link entry: ",
                p,
            ),
            CoreError::CandidateLinkTargetMissing(p) => with_value(
                "candidate duplicate link target is missing or not a regular file: ",
                p,
            ),
            CoreError::CandidateLinkTargetInvalid(p) => with_value(
                "candidate duplicate link target is invalid: ",
                p,
            ),
            CoreError::CandidateLinkTargetMarked(p) => with_value(
                "candidate duplicate link targets a marked removal: ",
                p,
            ),
            CoreError::UnsupportedSource => crate::text::to_string(
                "source must be a LINE backup directory, Line.sqlite, or .imazingapp",
            ),
            CoreError::DatabaseNotFound => crate::text::to_string(
                "backup does not contain Messages/Line.sqlite",
            ),
            CoreError::CandidateOutputName => crate::text::to_string(
                "candidate output must end with .imazingapp or .imazingapp.candidate",
            ),
            CoreError::OutputIsSource => crate::text::to_string(
                "output must not overwrite the source",
            ),
            CoreError::OutputInsideSource => crate::text::to_string(
                "directory candidate output must be outside the source tree",
            ),
            CoreError::OutputExists => crate::text::to_string("output already exists"),
            CoreError::SqliteIsNotBackup => crate::text::to_string(
                "a direct Line.sqlite is not a complete backup and cannot become .imazingapp",
            ),
            CoreError::BulkReason => crate::text::to_string("unsupported bulk cleanup reason"),
            CoreError::EmptySearch => crate::text::to_string("search query cannot be empty"),
            CoreError::SearchTooLong => crate::text::to_string(
                "search query cannot exceed 1,024 UTF-8 bytes",
            ),
            CoreError::HalfCursor => crate::text::to_string(
                "both cursor components must be provided together",
            ),
            CoreError::TwoCursors => crate::text::to_string(
                "chat pagination cannot use both after and before cursors",
            ),
            CoreError::ChatSource => crate::text::to_string(
                "chat cleanup source must be `line` or `square`",
            ),
            CoreError::ForeignCatalog => crate::text::to_string(
                "catalog belongs to another source; create a new work directory instead of mixing backups",
            ),
            CoreError::ScanIdMissing => crate::text::to_string("resumable scan is missing its scan ID"),
            CoreError::CatalogIdRange => crate::text::to_string("catalog file ID range is invalid"),
            CoreError::WorkerIdRange => crate::text::to_string("catalog worker ID range overflow"),
            CoreError::MessageSource => crate::text::to_string(
                "message source must be `line` or `square`",
            ),
            CoreError::SquareUnavailable => crate::text::to_string("LineSquare.sqlite is not available"),
            CoreError::UnknownMethod(name) => with_value("unknown method: ", name),
            CoreError::ChatRemovalReason => crate::text::to_string("invalid chat cleanup reason"),
            CoreError::CommunityAlreadyPlanned => crate::text::to_string("all community data is already included in the cleanup plan"),
            CoreError::SquareSourcePath => crate::text::to_string("invalid LineSquare.sqlite source path"),
            CoreError::NonCommunityChat => crate::text::to_string("community cleanup received a non-community chat"),
            CoreError::SquareDatabaseNotCataloged => crate::text::to_string("LineSquare.sqlite is missing from the attachment catalog"),
            CoreError::TooManyCommunityChats => crate::text::to_string("too many community chats"),
            CoreError::TooManyCommunityMessages => crate::text::to_string("too many community messages"),
            CoreError::CleanupGroupAction => crate::text::to_string("cleanup group action must be `toggle_all` or `keep_thumbnail`"),
            CoreError::CleanupGroupMissing => crate::text::to_string("cleanup group does not exist"),
            CoreError::NoThumbnailBackedImages => crate::text::to_string("cleanup group does not contain image originals with matching thumbnails"),
            CoreError::CurrentAccountUnknown => crate::text::to_string("cannot identify the current LINE account"),
            CoreError::CurrentAccountMissing => crate::text::to_string("the verified current LINE account folder is missing from the catalog"),
            CoreError::ReviewTooLarge => crate::text::to_string("cleanup review page exceeds 1000 files; narrow the filters"),
            CoreError::DuplicateHalfCursor => crate::text::to_string("both duplicate cursor components must be provided together"),
        }
    }
}

} // verus!
