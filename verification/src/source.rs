//! Backup sources: what kind a source is, which database inside it is the
//! LINE database, and which archive entries are staged before reading.

use vstd::prelude::*;

use crate::error::CoreError;
use crate::paths;
use crate::text;

verus! {

/// The three kinds of source the tool reads.
#[derive(Debug, Clone, Copy, PartialEq, Eq, Structural)]
pub enum SourceKind {
    Directory,
    Sqlite,
    ImazingArchive,
}

/// The name a source kind goes by in reports.
pub open spec fn source_kind_name(kind: SourceKind) -> Seq<char> {
    match kind {
        SourceKind::Directory => "directory"@,
        SourceKind::Sqlite => "sqlite"@,
        SourceKind::ImazingArchive => "imazing_archive"@,
    }
}

impl SourceKind {
    /// The name this kind goes by in reports.
    pub fn as_str(self) -> (r: &'static str)
        ensures
            r@ == source_kind_name(self),
    {
        match self {
            SourceKind::Directory => "directory",
            SourceKind::Sqlite => "sqlite",
            SourceKind::ImazingArchive => "imazing_archive",
        }
    }
}

/// What was found in a source.
#[derive(Debug, Clone, PartialEq, Eq)]
pub struct SourceReport {
    pub source_path: String,
    pub kind: SourceKind,
    pub source_bytes: u64,
    pub database_path: String,
    pub database_bytes: u64,
    pub wal_present: bool,
    pub shm_present: bool,
    pub requires_staging: bool,
}

/// A source ready to be opened: where its databases are on disk.
#[derive(Debug, Clone)]
pub struct PreparedSource {
    pub report: SourceReport,
    pub original_path: String,
    pub account_id: Option<String>,
    pub database_path: String,
    pub square_database_path: Option<String>,
    pub unified_group_database_path: Option<String>,
    pub staging_directory: Option<String>,
}

/// The steps of preparing an archive source.
#[derive(Debug, Clone, Copy, PartialEq, Eq, Structural)]
pub enum PreparePhase {
    ReadingArchiveIndex,
    StagingDatabases,
}

/// Progress of preparing a source.
#[derive(Debug, Clone)]
pub struct PrepareProgress {
    pub phase: PreparePhase,
    pub entry: Option<String>,
    pub staged_bytes: u64,
    pub total_bytes: u64,
}

/// The kind of a source from whether it is a folder and from its path:
/// a folder is a backup directory, an `.imazingapp` file an archive, a file
/// named `Line.sqlite` (any letter case) the database itself.
pub open spec fn source_kind_of(is_dir: bool, path: Seq<char>) -> Option<SourceKind> {
    if is_dir {
        Some(SourceKind::Directory)
    } else if paths::extension_of(paths::last_segment(path)) matches Some(ext) && text::eq_ignore_case(
        ext,
        "imazingapp"@,
    ) {
        Some(SourceKind::ImazingArchive)
    } else if text::eq_ignore_case(paths::last_segment(path), "Line.sqlite"@) {
        Some(SourceKind::Sqlite)
    } else {
        None
    }
}

/// Tells a source's kind, or refuses a source the tool cannot read.
pub fn classify_source(is_dir: bool, path: &str) -> (r: Result<SourceKind, CoreError>)
    ensures
        source_kind_of(is_dir, path@) matches Some(k) ==> r == Ok::<SourceKind, CoreError>(k),
        source_kind_of(is_dir, path@) is None ==> r == Err::<SourceKind, CoreError>(
            CoreError::UnsupportedSource,
        ),
{
    if is_dir {
        return Ok(SourceKind::Directory);
    }
    if paths::is_imazing_archive(path) {
        return Ok(SourceKind::ImazingArchive);
    }
    let p = text::chars_of(path);
    let segs = text::split_on(&p, '/');
    let name = &segs[segs.len() - 1];
    assert(text::views(segs@).last() == name@);
    if text::eq_ignore_ascii_case(name, &text::chars_of("Line.sqlite")) {
        Ok(SourceKind::Sqlite)
    } else {
        Err(CoreError::UnsupportedSource)
    }
}

/// Index `i` holds the database to read among `names`: it has the lowest
/// rank of all, and no earlier name has that rank.
pub open spec fn is_best_database(names: Seq<Seq<char>>, i: int) -> bool {
    &&& 0 <= i < names.len()
    &&& paths::database_rank(names[i]) is Some
    &&& forall|j: int|
        0 <= j < names.len() && #[trigger] paths::database_rank(names[j]) is Some ==> paths::database_rank(
            names[j],
        )->0 >= paths::database_rank(names[i])->0
    &&& forall|j: int|
        0 <= j < i && #[trigger] paths::database_rank(names[j]) is Some ==> paths::database_rank(
            names[j],
        )->0 > paths::database_rank(names[i])->0
}

/// The views of a list of strings.
pub open spec fn string_views(v: Seq<String>) -> Seq<Seq<char>> {
    v.map_values(|s: String| s@)
}

/// Picks the LINE database among the entries of a backup, in the order
/// they are listed: the first entry of the best rank.
pub fn choose_database(names: &Vec<String>) -> (r: Option<usize>)
    ensures
        r matches Some(i) ==> is_best_database(string_views(names@), i as int),
        r is None ==> forall|j: int|
            0 <= j < names.len() ==> #[trigger] paths::database_rank(string_views(names@)[j]) is None,
{
    let ghost v = string_views(names@);
    let mut best: Option<(u8, usize)> = None;
    let mut i: usize = 0;
    while i < names.len()
        invariant
            i <= names.len(),
            v == string_views(names@),
            match best {
                Some((p, k)) => {
                    &&& k < i
                    &&& paths::database_rank(v[k as int]) == Some(p)
                    &&& forall|j: int|
                        0 <= j < i && #[trigger] paths::database_rank(v[j]) is Some ==> paths::database_rank(
                            v[j],
                        )->0 >= p
                    &&& forall|j: int|
                        0 <= j < k && #[trigger] paths::database_rank(v[j]) is Some ==> paths::database_rank(
                            v[j],
                        )->0 > p
                },
                None => forall|j: int| 0 <= j < i ==> #[trigger] paths::database_rank(v[j]) is None,
            },
        decreases names.len() - i,
    {
        assert(v[i as int] == names@[i as int]@);
        match paths::database_priority(names[i].as_str()) {
            Some(p) => {
                let better = match best {
                    Some((q, _)) => p < q,
                    None => true,
                };
                if better {
                    best = Some((p, i));
                }
            },
            None => {},
        }
        i = i + 1;
    }
    match best {
        Some((_, k)) => Some(k),
        None => None,
    }
}

/// Position of the first entry named exactly `wanted`.
pub fn find_entry(names: &Vec<String>, wanted: &str) -> (r: Option<usize>)
    ensures
        r matches Some(i) ==> i < names.len() && names@[i as int]@ == wanted@ && forall|j: int|
            0 <= j < i ==> #[trigger] names@[j]@ != wanted@,
        r is None ==> forall|j: int| 0 <= j < names.len() ==> #[trigger] names@[j]@ != wanted@,
{
    let w = text::chars_of(wanted);
    let mut i: usize = 0;
    while i < names.len()
        invariant
            i <= names.len(),
            w@ == wanted@,
            forall|j: int| 0 <= j < i ==> #[trigger] names@[j]@ != wanted@,
        decreases names.len() - i,
    {
        if text::eq_chars(&text::chars_of(names[i].as_str()), &w) {
            return Some(i);
        }
        i = i + 1;
    }
    None
}

/// A database entry with its two SQLite sidecars.
pub open spec fn with_sidecars(name: Seq<char>) -> Seq<Seq<char>> {
    seq![name, name + "-wal"@, name + "-shm"@]
}

/// The archive entries staged for reading: the main database and, where
/// the archive holds them beside it, the community and group databases,
/// each with its sidecars.
pub open spec fn staging_wanted_names(
    database: Seq<char>,
    square_present: bool,
    unified_present: bool,
) -> Seq<Seq<char>> {
    with_sidecars(database) + (if square_present {
        with_sidecars(paths::sibling_name(database, "LineSquare.sqlite"@))
    } else {
        Seq::empty()
    }) + (if unified_present {
        with_sidecars(paths::sibling_name(database, "UnifiedGroup.sqlite"@))
    } else {
        Seq::empty()
    })
}

fn push_with_sidecars(out: &mut Vec<String>, name: &str)
    ensures
        string_views(final(out)@) == string_views(old(out)@) + with_sidecars(name@),
{
    let ghost before = string_views(out@);
    out.push(text::to_string(name));
    out.push(paths::sibling_with_suffix(name, "-wal"));
    out.push(paths::sibling_with_suffix(name, "-shm"));
    assert(string_views(out@) =~= before + with_sidecars(name@));
}

/// The names of the archive entries to stage for a database entry.
pub fn staging_wanted(database_name: &str, square_present: bool, unified_present: bool) -> (r: Vec<
    String,
>)
    ensures
        string_views(r@) == staging_wanted_names(database_name@, square_present, unified_present),
{
    let mut out: Vec<String> = Vec::new();
    push_with_sidecars(&mut out, database_name);
    if square_present {
        let square = paths::sibling_entry_name(database_name, "LineSquare.sqlite");
        push_with_sidecars(&mut out, square.as_str());
    }
    if unified_present {
        let unified = paths::sibling_entry_name(database_name, "UnifiedGroup.sqlite");
        push_with_sidecars(&mut out, unified.as_str());
    }
    assert(string_views(out@) =~= staging_wanted_names(
        database_name@,
        square_present,
        unified_present,
    ));
    out
}

/// Bytes still to copy: the sizes of the planned entries whose staged copy
/// is not already current.
pub open spec fn bytes_to_stage(entries: Seq<(u64, bool)>) -> int
    decreases entries.len(),
{
    if entries.len() == 0 {
        0
    } else {
        bytes_to_stage(entries.drop_last()) + if entries.last().1 {
            0
        } else {
            entries.last().0 as int
        }
    }
}

/// Sums the sizes of the planned entries `(bytes, already_current)` that
/// still have to be copied.
pub fn staging_total(entries: &Vec<(u64, bool)>) -> (r: u64)
    requires
        bytes_to_stage(entries@) <= u64::MAX,
    ensures
        r == bytes_to_stage(entries@),
{
    let mut total: u64 = 0;
    let mut i: usize = 0;
    while i < entries.len()
        invariant
            i <= entries.len(),
            total == bytes_to_stage(entries@.take(i as int)),
            bytes_to_stage(entries@) <= u64::MAX,
        decreases entries.len() - i,
    {
        assert(entries@.take(i + 1).drop_last() =~= entries@.take(i as int));
        proof {
            lemma_bytes_to_stage_prefix(entries@, i as int + 1);
        }
        let (bytes, current) = entries[i];
        if !current {
            total = total + bytes;
        }
        i = i + 1;
    }
    assert(entries@.take(entries.len() as int) =~= entries@);
    total
}

proof fn lemma_bytes_to_stage_prefix(entries: Seq<(u64, bool)>, n: int)
    requires
        0 <= n <= entries.len(),
    ensures
        bytes_to_stage(entries.take(n)) <= bytes_to_stage(entries),
    decreases entries.len(),
{
    if n < entries.len() {
        assert(entries.drop_last().take(n) =~= entries.take(n));
        lemma_bytes_to_stage_prefix(entries.drop_last(), n);
    } else {
        assert(entries.take(n) =~= entries);
    }
}

} // verus!
