//! Building a cleanup candidate: which database rewrites and duplicate
//! links a candidate carries, what happens to each source entry, and the
//! checks and report of the finished candidate. Reading the source and
//! writing the ZIP stay with the caller, which asks these functions what
//! to do with each entry and hands back what it found.

use vstd::prelude::*;

use crate::catalog::{DatabaseCleanupPlan, DuplicateLinkMember};
use crate::error::CoreError;
use crate::order;
use crate::paths;
use crate::source::{find_entry, string_views, SourceKind};
use crate::text;

verus! {

/// Progress of writing a candidate.
#[derive(Debug, Clone, Copy, PartialEq, Eq)]
pub struct CandidateProgress {
    pub processed_bytes: u64,
    pub total_bytes: u64,
    pub processed_entries: u64,
    pub total_entries: u64,
}

/// What a finished candidate holds and how it was checked.
#[derive(Debug, Clone, PartialEq, Eq)]
pub struct CandidateReport {
    pub source_path: String,
    pub output_path: String,
    pub input_entries: u64,
    pub output_entries: u64,
    pub removed_entries: u64,
    pub removed_chats: u64,
    pub removed_messages: u64,
    pub linked_duplicate_entries: u64,
    pub linked_duplicate_bytes: u64,
    pub rewritten_databases: Vec<String>,
    pub output_bytes: u64,
    pub used_zip64: bool,
    pub full_crc_verified: bool,
    pub protected_entries_verified: Vec<String>,
    pub warnings: Vec<String>,
}

/// Choices for building a candidate.
#[derive(Debug, Clone, Copy, Default, PartialEq, Eq)]
pub struct CandidateOptions {
    pub full_crc: bool,
    pub link_duplicates: bool,
    pub allow_corrupt_line_square_rebuild: bool,
}

/// Whether a refusal asks for consent to rebuild a corrupt community
/// database as an empty one.
pub fn line_square_rebuild_required(error: &CoreError) -> (r: bool)
    ensures
        r == (*error matches CoreError::LineSquareRebuildRequired),
{
    match error {
        CoreError::LineSquareRebuildRequired => true,
        _ => false,
    }
}

// ---------------------------------------------------------------------
// Database rewrites
// ---------------------------------------------------------------------

/// A database entry replaced by a cleaned copy.
#[derive(Debug, Clone)]
pub struct DatabaseRewrite {
    /// The entry name in the backup.
    pub name: String,
    /// Where the cleaned copy lies.
    pub path: String,
    pub sha256: String,
    pub removed_chats: u64,
    pub removed_messages: u64,
}

/// The cleaned databases of a candidate, the sidecars they make stale,
/// and warnings about how they were made.
#[derive(Debug, Clone)]
pub struct DatabaseRewrites {
    pub entries: Vec<DatabaseRewrite>,
    pub skipped_sidecars: Vec<String>,
    pub warnings: Vec<String>,
}

/// The entry names of `entries`.
pub open spec fn rewrite_names(entries: Seq<DatabaseRewrite>) -> Seq<Seq<char>> {
    entries.map_values(|e: DatabaseRewrite| e.name@)
}

/// Chats removed by all rewrites.
pub open spec fn chats_removed(entries: Seq<DatabaseRewrite>) -> int
    decreases entries.len(),
{
    if entries.len() == 0 {
        0
    } else {
        chats_removed(entries.drop_last()) + entries.last().removed_chats
    }
}

/// Messages removed by all rewrites.
pub open spec fn messages_removed(entries: Seq<DatabaseRewrite>) -> int
    decreases entries.len(),
{
    if entries.len() == 0 {
        0
    } else {
        messages_removed(entries.drop_last()) + entries.last().removed_messages
    }
}

proof fn lemma_removed_prefix(entries: Seq<DatabaseRewrite>, n: int)
    requires
        0 <= n <= entries.len(),
    ensures
        chats_removed(entries.take(n)) <= chats_removed(entries),
        messages_removed(entries.take(n)) <= messages_removed(entries),
    decreases entries.len(),
{
    if n < entries.len() {
        assert(entries.drop_last().take(n) =~= entries.take(n));
        lemma_removed_prefix(entries.drop_last(), n);
    } else {
        assert(entries.take(n) =~= entries);
    }
}

impl DatabaseRewrites {
    /// No rewrite, no stale sidecar, no warning.
    pub fn new() -> (r: Self)
        ensures
            r.entries@.len() == 0,
            r.skipped_sidecars@.len() == 0,
            r.warnings@.len() == 0,
    {
        DatabaseRewrites { entries: Vec::new(), skipped_sidecars: Vec::new(), warnings: Vec::new() }
    }

    /// Each database entry is rewritten at most once.
    pub open spec fn wf(&self) -> bool {
        rewrite_names(self.entries@).no_duplicates()
    }

    /// Chats removed by all rewrites.
    pub fn removed_chats(&self) -> (r: u64)
        requires
            chats_removed(self.entries@) <= u64::MAX,
        ensures
            r == chats_removed(self.entries@),
    {
        let mut total: u64 = 0;
        let mut i: usize = 0;
        while i < self.entries.len()
            invariant
                i <= self.entries.len(),
                total == chats_removed(self.entries@.take(i as int)),
                chats_removed(self.entries@) <= u64::MAX,
            decreases self.entries.len() - i,
        {
            assert(self.entries@.take(i + 1).drop_last() =~= self.entries@.take(i as int));
            proof {
                lemma_removed_prefix(self.entries@, i + 1);
            }
            total = total + self.entries[i].removed_chats;
            i = i + 1;
        }
        assert(self.entries@.take(self.entries.len() as int) =~= self.entries@);
        total
    }

    /// Messages removed by all rewrites.
    pub fn removed_messages(&self) -> (r: u64)
        requires
            messages_removed(self.entries@) <= u64::MAX,
        ensures
            r == messages_removed(self.entries@),
    {
        let mut total: u64 = 0;
        let mut i: usize = 0;
        while i < self.entries.len()
            invariant
                i <= self.entries.len(),
                total == messages_removed(self.entries@.take(i as int)),
                messages_removed(self.entries@) <= u64::MAX,
            decreases self.entries.len() - i,
        {
            assert(self.entries@.take(i + 1).drop_last() =~= self.entries@.take(i as int));
            proof {
                lemma_removed_prefix(self.entries@, i + 1);
            }
            total = total + self.entries[i].removed_messages;
            i = i + 1;
        }
        assert(self.entries@.take(self.entries.len() as int) =~= self.entries@);
        total
    }

    /// The rewritten entry names, sorted.
    pub fn rewritten_names(&self) -> (r: Vec<String>)
        ensures
            order::sorted_texts(string_views(r@)),
            string_views(r@).to_multiset() == rewrite_names(self.entries@).to_multiset(),
    {
        let mut names: Vec<String> = Vec::new();
        let mut i: usize = 0;
        while i < self.entries.len()
            invariant
                i <= self.entries.len(),
                string_views(names@) == rewrite_names(self.entries@).take(i as int),
            decreases self.entries.len() - i,
        {
            names.push(self.entries[i].name.clone());
            assert(rewrite_names(self.entries@).take(i + 1) =~= rewrite_names(
                self.entries@,
            ).take(i as int).push(self.entries@[i as int].name@));
            assert(string_views(names@) =~= string_views(names@).take(i as int).push(
                self.entries@[i as int].name@,
            ));
            i = i + 1;
        }
        assert(rewrite_names(self.entries@).take(self.entries.len() as int) =~= rewrite_names(
            self.entries@,
        ));
        order::sort_strings(&names)
    }

    /// Each rewritten entry with the digest of its cleaned copy.
    pub fn hashes(&self) -> (r: Vec<(String, String)>)
        ensures
            r.len() == self.entries.len(),
            forall|i: int|
                0 <= i < r.len() ==> (#[trigger] r@[i]).0@ == self.entries@[i].name@ && r@[i].1@
                    == self.entries@[i].sha256@,
    {
        let mut out: Vec<(String, String)> = Vec::new();
        let mut i: usize = 0;
        while i < self.entries.len()
            invariant
                i <= self.entries.len(),
                out.len() == i,
                forall|k: int|
                    0 <= k < i ==> (#[trigger] out@[k]).0@ == self.entries@[k].name@ && out@[k].1@
                        == self.entries@[k].sha256@,
            decreases self.entries.len() - i,
        {
            out.push((self.entries[i].name.clone(), self.entries[i].sha256.clone()));
            i = i + 1;
        }
        out
    }
}

/// Adds `item` to a list of distinct strings unless it is there.
pub fn push_unique_string(list: &mut Vec<String>, item: String)
    requires
        string_views(old(list)@).no_duplicates(),
    ensures
        string_views(final(list)@).no_duplicates(),
        string_views(final(list)@).to_set() == string_views(old(list)@).to_set().insert(item@),
        string_views(old(list)@).contains(item@) ==> final(list)@ == old(list)@,
        !string_views(old(list)@).contains(item@) ==> string_views(final(list)@) == string_views(
            old(list)@,
        ).push(item@),
{
    let ghost before = string_views(list@);
    match find_entry(list, item.as_str()) {
        Some(i) => {
            proof {
                assert(before[i as int] == item@);
                assert(before.to_set().insert(item@) =~= before.to_set());
            }
        },
        None => {
            let ghost it = item@;
            list.push(item);
            proof {
                assert(string_views(list@) =~= before.push(it));
                assert(!before.contains(it)) by {
                    if before.contains(it) {
                        let j = choose|j: int| 0 <= j < before.len() && before[j] == it;
                        assert(list@[j]@ == it);
                    }
                }
                assert forall|x: Seq<char>| before.push(it).to_set().contains(x)
                    <==> before.to_set().insert(it).contains(x) by {
                    if before.push(it).contains(x) {
                        let k = choose|k: int| 0 <= k < before.push(it).len() && before.push(it)[k] == x;
                        if k < before.len() {
                            assert(before[k] == x);
                        }
                    }
                    if before.contains(x) {
                        let k = choose|k: int| 0 <= k < before.len() && before[k] == x;
                        assert(before.push(it)[k] == x);
                    }
                    assert(before.push(it)[before.len() as int] == it);
                }
                assert(before.push(it).to_set() =~= before.to_set().insert(it));
            }
        },
    }
}

fn rewrite_position(entries: &Vec<DatabaseRewrite>, name: &str) -> (r: Option<usize>)
    ensures
        r matches Some(i) ==> i < entries.len() && entries@[i as int].name@ == name@,
        r is None ==> !rewrite_names(entries@).contains(name@),
{
    let w = text::chars_of(name);
    let mut i: usize = 0;
    while i < entries.len()
        invariant
            i <= entries.len(),
            w@ == name@,
            forall|j: int| 0 <= j < i ==> #[trigger] entries@[j].name@ != name@,
        decreases entries.len() - i,
    {
        if text::eq_chars(&text::chars_of(entries[i].name.as_str()), &w) {
            return Some(i);
        }
        i = i + 1;
    }
    proof {
        if rewrite_names(entries@).contains(name@) {
            let j = choose|j: int| 0 <= j < entries.len() && rewrite_names(entries@)[j] == name@;
            assert(entries@[j].name@ == name@);
        }
    }
    None
}

/// Records a cleaned copy of the database entry `entry_name`: its two
/// sidecars become stale, and the rewrite takes the place of any earlier
/// one of the same entry.
pub fn insert_database_rewrite(
    rewrites: &mut DatabaseRewrites,
    entry_name: String,
    path: String,
    sha256: String,
    removed_chats: u64,
    removed_messages: u64,
)
    requires
        old(rewrites).wf(),
        string_views(old(rewrites).skipped_sidecars@).no_duplicates(),
    ensures
        final(rewrites).wf(),
        string_views(final(rewrites).skipped_sidecars@).no_duplicates(),
        string_views(final(rewrites).skipped_sidecars@).to_set() == string_views(
            old(rewrites).skipped_sidecars@,
        ).to_set().insert(entry_name@ + "-wal"@).insert(entry_name@ + "-shm"@),
        final(rewrites).warnings@ == old(rewrites).warnings@,
        ({
            let added = DatabaseRewrite {
                name: entry_name,
                path,
                sha256,
                removed_chats,
                removed_messages,
            };
            if rewrite_names(old(rewrites).entries@).contains(entry_name@) {
                exists|i: int|
                    0 <= i < old(rewrites).entries.len() && old(rewrites).entries@[i].name@
                        == entry_name@ && final(rewrites).entries@ == old(rewrites).entries@.update(
                        i,
                        added,
                    )
            } else {
                final(rewrites).entries@ == old(rewrites).entries@.push(added)
            }
        }),
{
    let wal = paths::sibling_with_suffix(entry_name.as_str(), "-wal");
    let shm = paths::sibling_with_suffix(entry_name.as_str(), "-shm");
    push_unique_string(&mut rewrites.skipped_sidecars, wal);
    push_unique_string(&mut rewrites.skipped_sidecars, shm);
    let ghost names = rewrite_names(rewrites.entries@);
    let ghost added = DatabaseRewrite {
        name: entry_name,
        path,
        sha256,
        removed_chats,
        removed_messages,
    };
    let pos = rewrite_position(&rewrites.entries, entry_name.as_str());
    let rewrite = DatabaseRewrite { name: entry_name, path, sha256, removed_chats, removed_messages };
    match pos {
        Some(i) => {
            rewrites.entries.remove(i);
            rewrites.entries.insert(i, rewrite);
            proof {
                assert(rewrites.entries@ =~= old(rewrites).entries@.update(i as int, added));
                assert(rewrite_names(rewrites.entries@) =~= names.update(i as int, names[i as int]));
                assert(names.update(i as int, names[i as int]) =~= names);
            }
        },
        None => {
            rewrites.entries.push(rewrite);
            proof {
                assert(rewrite_names(rewrites.entries@) =~= names.push(added.name@));
            }
        },
    }
}

// ---------------------------------------------------------------------
// Duplicate links
// ---------------------------------------------------------------------

/// An attachment stored as a relative symbolic link to an identical file.
#[derive(Debug, Clone)]
pub struct DuplicateSymlink {
    /// The entry replaced by the link.
    pub path: String,
    /// The entry the link points at.
    pub canonical_path: String,
    /// The link text, relative to the folder of `path`.
    pub relative_target: String,
    /// Bytes the replaced entry held.
    pub replaced_bytes: u64,
}

/// The links of a candidate, at most one per entry.
#[derive(Debug, Clone)]
pub struct DuplicateSymlinkPlan {
    pub links: Vec<DuplicateSymlink>,
}

/// What a link says: entry, target entry, link text, bytes replaced.
pub open spec fn link_view(l: DuplicateSymlink) -> (Seq<char>, Seq<char>, Seq<char>, u64) {
    (l.path@, l.canonical_path@, l.relative_target@, l.replaced_bytes)
}

/// The views of `links`.
pub open spec fn link_views(links: Seq<DuplicateSymlink>) -> Seq<(Seq<char>, Seq<char>, Seq<char>, u64)> {
    links.map_values(|l: DuplicateSymlink| link_view(l))
}

/// The entries the links replace.
pub open spec fn link_paths(links: Seq<DuplicateSymlink>) -> Seq<Seq<char>> {
    links.map_values(|l: DuplicateSymlink| l.path@)
}

/// Bytes replaced by all links.
pub open spec fn linked_total(links: Seq<DuplicateSymlink>) -> int
    decreases links.len(),
{
    if links.len() == 0 {
        0
    } else {
        linked_total(links.drop_last()) + links.last().replaced_bytes
    }
}

proof fn lemma_linked_total_prefix(links: Seq<DuplicateSymlink>, n: int)
    requires
        0 <= n <= links.len(),
    ensures
        linked_total(links.take(n)) <= linked_total(links),
    decreases links.len(),
{
    if n < links.len() {
        assert(links.drop_last().take(n) =~= links.take(n));
        lemma_linked_total_prefix(links.drop_last(), n);
    } else {
        assert(links.take(n) =~= links);
    }
}

impl DuplicateSymlinkPlan {
    /// Each entry has at most one link.
    pub open spec fn wf(&self) -> bool {
        link_paths(self.links@).no_duplicates()
    }

    /// A plan without links.
    pub fn new() -> (r: Self)
        ensures
            r.links@.len() == 0,
    {
        DuplicateSymlinkPlan { links: Vec::new() }
    }

    /// Entries replaced by links.
    pub fn linked_entries(&self) -> (r: u64)
        ensures
            r == self.links@.len(),
    {
        self.links.len() as u64
    }

    /// Bytes replaced by links.
    pub fn linked_bytes(&self) -> (r: u64)
        requires
            linked_total(self.links@) <= u64::MAX,
        ensures
            r == linked_total(self.links@),
    {
        let mut total: u64 = 0;
        let mut i: usize = 0;
        while i < self.links.len()
            invariant
                i <= self.links.len(),
                total == linked_total(self.links@.take(i as int)),
                linked_total(self.links@) <= u64::MAX,
            decreases self.links.len() - i,
        {
            assert(self.links@.take(i + 1).drop_last() =~= self.links@.take(i as int));
            proof {
                lemma_linked_total_prefix(self.links@, i + 1);
            }
            total = total + self.links[i].replaced_bytes;
            i = i + 1;
        }
        assert(self.links@.take(self.links.len() as int) =~= self.links@);
        total
    }
}

/// Whether a link from `link` to `target` can be written: both are safe
/// archive paths and the link does not point at itself.
pub open spec fn link_ok(link: Seq<char>, target: Seq<char>) -> bool {
    &&& paths::safe_archive_path(link)
    &&& paths::safe_archive_path(target)
    &&& paths::relative_link_components(link, target).len() > 0
}

/// The link text from `link` to `target`.
pub open spec fn link_text(link: Seq<char>, target: Seq<char>) -> Seq<char> {
    text::join(paths::relative_link_components(link, target), seq!['/'])
}

/// The refusal for a link from `link` to `target` that cannot be written.
pub open spec fn link_refusal(e: CoreError, link: Seq<char>, target: Seq<char>) -> bool {
    if !paths::safe_archive_path(link) {
        e matches CoreError::UnsafeLinkPath(v) && v@ == link
    } else if !paths::safe_archive_path(target) {
        e matches CoreError::UnsafeLinkPath(v) && v@ == target
    } else {
        e matches CoreError::LinkTargetIsSelf(v) && v@ == link
    }
}

/// The links a group of identical files asks for: every member after the
/// first, as (entry, first member, bytes).
pub open spec fn group_rows(g: Seq<DuplicateLinkMember>) -> Seq<(Seq<char>, Seq<char>, u64)> {
    if g.len() == 0 {
        seq![]
    } else {
        g.skip(1).map_values(|m: DuplicateLinkMember| (m.path@, g[0].path@, m.bytes))
    }
}

/// The links all groups ask for, group after group.
pub open spec fn link_rows(groups: Seq<Vec<DuplicateLinkMember>>) -> Seq<(Seq<char>, Seq<char>, u64)>
    decreases groups.len(),
{
    if groups.len() == 0 {
        seq![]
    } else {
        link_rows(groups.drop_last()) + group_rows(groups.last()@)
    }
}

/// `links` with `x` added: it takes the place of a link of the same entry,
/// or comes last.
pub open spec fn keyed_insert(
    links: Seq<(Seq<char>, Seq<char>, Seq<char>, u64)>,
    x: (Seq<char>, Seq<char>, Seq<char>, u64),
) -> Seq<(Seq<char>, Seq<char>, Seq<char>, u64)> {
    if exists|i: int| 0 <= i < links.len() && links[i].0 == x.0 {
        links.update(choose|i: int| 0 <= i < links.len() && links[i].0 == x.0, x)
    } else {
        links.push(x)
    }
}

/// The plan made from `rows`, all of which can be written.
pub open spec fn planned_links(rows: Seq<(Seq<char>, Seq<char>, u64)>) -> Seq<
    (Seq<char>, Seq<char>, Seq<char>, u64),
>
    decreases rows.len(),
{
    if rows.len() == 0 {
        seq![]
    } else {
        let r = rows.last();
        keyed_insert(planned_links(rows.drop_last()), (r.0, r.1, link_text(r.0, r.1), r.2))
    }
}

fn flatten_groups(groups: &Vec<Vec<DuplicateLinkMember>>) -> (r: Vec<(String, String, u64)>)
    ensures
        r@.map_values(|t: (String, String, u64)| (t.0@, t.1@, t.2)) == link_rows(groups@),
{
    let mut out: Vec<(String, String, u64)> = Vec::new();
    let mut g: usize = 0;
    while g < groups.len()
        invariant
            g <= groups.len(),
            out@.map_values(|t: (String, String, u64)| (t.0@, t.1@, t.2)) == link_rows(
                groups@.take(g as int),
            ),
        decreases groups.len() - g,
    {
        let members = &groups[g];
        let ghost start = out@.map_values(|t: (String, String, u64)| (t.0@, t.1@, t.2));
        assert(groups@.take(g + 1).drop_last() =~= groups@.take(g as int));
        assert(groups@.take(g + 1).last() == groups@[g as int]);
        if members.len() > 0 {
            let mut m: usize = 1;
            while m < members.len()
                invariant
                    1 <= m <= members.len(),
                    members@ == groups@[g as int]@,
                    out@.map_values(|t: (String, String, u64)| (t.0@, t.1@, t.2)) == start
                        + group_rows(members@).take(m - 1),
                decreases members.len() - m,
            {
                let ghost prev = out@;
                out.push((members[m].path.clone(), members[0].path.clone(), members[m].bytes));
                assert(group_rows(members@).take(m as int) =~= group_rows(members@).take(
                    m - 1,
                ).push((members@[m as int].path@, members@[0].path@, members@[m as int].bytes)));
                assert(out@.map_values(|t: (String, String, u64)| (t.0@, t.1@, t.2)) =~= prev.map_values(
                    |t: (String, String, u64)| (t.0@, t.1@, t.2),
                ).push((members@[m as int].path@, members@[0].path@, members@[m as int].bytes)));
                m = m + 1;
            }
            assert(group_rows(members@).take(members.len() - 1) =~= group_rows(members@));
        } else {
            assert(group_rows(members@) =~= Seq::<(Seq<char>, Seq<char>, u64)>::empty());
            assert(start + group_rows(members@) =~= start);
        }
        g = g + 1;
    }
    assert(groups@.take(groups.len() as int) =~= groups@);
    out
}

fn insert_link(plan: &mut Vec<DuplicateSymlink>, link: DuplicateSymlink)
    requires
        link_paths(old(plan)@).no_duplicates(),
    ensures
        link_paths(final(plan)@).no_duplicates(),
        link_views(final(plan)@) == keyed_insert(link_views(old(plan)@), link_view(link)),
{
    let ghost views = link_views(plan@);
    let ghost x = link_view(link);
    let mut i: usize = 0;
    let w = text::chars_of(link.path.as_str());
    while i < plan.len()
        invariant
            i <= plan.len(),
            w@ == link.path@,
            plan@ == old(plan)@,
            x == link_view(link),
            views == link_views(plan@),
            link_paths(plan@).no_duplicates(),
            forall|j: int| 0 <= j < i ==> #[trigger] plan@[j].path@ != link.path@,
        decreases plan.len() - i,
    {
        if text::eq_chars(&text::chars_of(plan[i].path.as_str()), &w) {
            proof {
                assert(plan@[i as int].path@ == link.path@);
                assert(x.0 == link.path@);
                assert(link_views(plan@)[i as int] == link_view(plan@[i as int]));
                assert(views[i as int].0 == x.0);
                assert(exists|k: int| 0 <= k < views.len() && views[k].0 == x.0);
                let c = choose|k: int| 0 <= k < views.len() && views[k].0 == x.0;
                assert(plan@[c].path@ == link.path@);
                assert(link_paths(plan@)[c] == link_paths(plan@)[i as int]);
                assert(c == i);
            }
            plan.remove(i);
            plan.insert(i, link);
            proof {
                assert(link_views(plan@) =~= views.update(i as int, x));
                assert(link_paths(plan@) =~= link_paths(old(plan)@));
            }
            return;
        }
        i = i + 1;
    }
    proof {
        assert(!(exists|k: int| 0 <= k < views.len() && views[k].0 == x.0)) by {
            if exists|k: int| 0 <= k < views.len() && views[k].0 == x.0 {
                let k = choose|k: int| 0 <= k < views.len() && views[k].0 == x.0;
                assert(plan@[k].path@ == link.path@);
            }
        }
    }
    let ghost p = link.path@;
    plan.push(link);
    proof {
        assert(link_views(plan@) =~= views.push(x));
        assert(link_paths(plan@) =~= link_paths(old(plan)@).push(p));
        assert(!link_paths(old(plan)@).contains(p)) by {
            if link_paths(old(plan)@).contains(p) {
                let k = choose|k: int| 0 <= k < link_paths(old(plan)@).len() && link_paths(
                    old(plan)@,
                )[k] == p;
                assert(old(plan)@[k].path@ == p);
            }
        }
    }
}

/// Plans the duplicate links of a candidate: in each group of identical
/// files, every member after the first becomes a relative link to the
/// first. A link that cannot be written refuses the whole plan.
pub fn plan_duplicate_symlinks(groups: &Vec<Vec<DuplicateLinkMember>>) -> (r: Result<
    DuplicateSymlinkPlan,
    CoreError,
>)
    ensures
        match r {
            Ok(plan) => {
                &&& forall|i: int|
                    0 <= i < link_rows(groups@).len() ==> link_ok(
                        #[trigger] link_rows(groups@)[i].0,
                        link_rows(groups@)[i].1,
                    )
                &&& link_paths(plan.links@).no_duplicates()
                &&& link_views(plan.links@) == planned_links(link_rows(groups@))
            },
            Err(e) => exists|i: int|
                {
                    &&& 0 <= i < link_rows(groups@).len()
                    &&& !link_ok(link_rows(groups@)[i].0, link_rows(groups@)[i].1)
                    &&& forall|j: int|
                        0 <= j < i ==> link_ok(
                            #[trigger] link_rows(groups@)[j].0,
                            link_rows(groups@)[j].1,
                        )
                    &&& link_refusal(e, link_rows(groups@)[i].0, link_rows(groups@)[i].1)
                },
        },
{
    let rows = flatten_groups(groups);
    let ghost spec_rows = link_rows(groups@);
    let mut links: Vec<DuplicateSymlink> = Vec::new();
    let mut i: usize = 0;
    while i < rows.len()
        invariant
            i <= rows.len(),
            spec_rows == rows@.map_values(|t: (String, String, u64)| (t.0@, t.1@, t.2)),
            spec_rows == link_rows(groups@),
            link_paths(links@).no_duplicates(),
            link_views(links@) == planned_links(spec_rows.take(i as int)),
            forall|j: int| 0 <= j < i ==> link_ok(#[trigger] spec_rows[j].0, spec_rows[j].1),
        decreases rows.len() - i,
    {
        let (link, canonical, bytes) = (&rows[i].0, &rows[i].1, rows[i].2);
        assert(spec_rows[i as int] == (link@, canonical@, bytes));
        match paths::relative_symlink_target(link.as_str(), canonical.as_str()) {
            Ok(target) => {
                assert(spec_rows.take(i + 1).drop_last() =~= spec_rows.take(i as int));
                assert(spec_rows.take(i + 1).last() == spec_rows[i as int]);
                insert_link(
                    &mut links,
                    DuplicateSymlink {
                        path: link.clone(),
                        canonical_path: canonical.clone(),
                        relative_target: target,
                        replaced_bytes: bytes,
                    },
                );
            },
            Err(e) => {
                proof {
                    assert(!link_ok(spec_rows[i as int].0, spec_rows[i as int].1));
                    assert(link_refusal(e, spec_rows[i as int].0, spec_rows[i as int].1));
                }
                return Err(e);
            },
        }
        i = i + 1;
    }
    assert(spec_rows.take(rows.len() as int) =~= spec_rows);
    Ok(DuplicateSymlinkPlan { links })
}

// ---------------------------------------------------------------------
// The database part of a cleanup plan
// ---------------------------------------------------------------------

/// The rows a database cleanup plan removes, split by database.
#[derive(Debug, Clone)]
pub struct CleanupPartition {
    /// Chats to remove from the LINE database.
    pub line_chats: Vec<i64>,
    /// Chats to remove from the community database.
    pub square_chats: Vec<i64>,
    /// Community messages without a chat to remove.
    pub square_orphans: Vec<i64>,
    /// Messages the community rewrite is expected to remove.
    pub square_planned_messages: u64,
}

/// The chat keys of the planned chats of `source`, in plan order.
pub open spec fn chat_keys(chats: Seq<crate::catalog::PlannedChat>, source: Seq<char>) -> Seq<i64>
    decreases chats.len(),
{
    if chats.len() == 0 {
        seq![]
    } else {
        let prev = chat_keys(chats.drop_last(), source);
        if chats.last().source@ == source {
            prev.push(chats.last().chat_pk)
        } else {
            prev
        }
    }
}

/// Planned messages of the community chats, negative counts as none.
pub open spec fn square_messages(chats: Seq<crate::catalog::PlannedChat>) -> int
    decreases chats.len(),
{
    if chats.len() == 0 {
        0
    } else {
        square_messages(chats.drop_last()) + if chats.last().source@ == "square"@
            && chats.last().message_count > 0 {
            chats.last().message_count as int
        } else {
            0
        }
    }
}

proof fn lemma_square_messages_prefix(chats: Seq<crate::catalog::PlannedChat>, n: int)
    requires
        0 <= n <= chats.len(),
    ensures
        square_messages(chats.take(n)) <= square_messages(chats),
    decreases chats.len(),
{
    if n < chats.len() {
        assert(chats.drop_last().take(n) =~= chats.take(n));
        lemma_square_messages_prefix(chats.drop_last(), n);
    } else {
        assert(chats.take(n) =~= chats);
    }
}

/// Whether every row of the plan names a database the cleanup can rewrite.
pub open spec fn plan_sources_ok(plan: DatabaseCleanupPlan) -> bool {
    &&& forall|i: int|
        0 <= i < plan.chats@.len() ==> (#[trigger] plan.chats@[i]).source@ == "line"@
            || plan.chats@[i].source@ == "square"@
    &&& forall|i: int|
        0 <= i < plan.orphan_messages@.len() ==> (#[trigger] plan.orphan_messages@[i]).source@
            == "square"@
}

/// Splits a database cleanup plan by database, and refuses a plan that
/// names a database other than LINE's or the community one.
pub fn partition_cleanup_plan(plan: &DatabaseCleanupPlan) -> (r: Result<CleanupPartition, CoreError>)
    requires
        square_messages(plan.chats@) <= u64::MAX,
    ensures
        plan_sources_ok(*plan) ==> (r matches Ok(p) && {
            &&& p.line_chats@ == chat_keys(plan.chats@, "line"@)
            &&& p.square_chats@ == chat_keys(plan.chats@, "square"@)
            &&& p.square_orphans@ == plan.orphan_messages@.map_values(
                |m: crate::catalog::PlannedMessage| m.message_pk,
            )
            &&& p.square_planned_messages == crate::server::sat_add_u64(
                square_messages(plan.chats@),
                plan.orphan_messages@.len() as int,
            )
        }),
        !plan_sources_ok(*plan) ==> r == Err::<CleanupPartition, CoreError>(
            CoreError::UnsupportedPlanSource,
        ),
{
    let mut line_chats: Vec<i64> = Vec::new();
    let mut square_chats: Vec<i64> = Vec::new();
    let mut messages: u64 = 0;
    let mut ok = true;
    let mut i: usize = 0;
    while i < plan.chats.len()
        invariant
            i <= plan.chats.len(),
            line_chats@ == chat_keys(plan.chats@.take(i as int), "line"@),
            square_chats@ == chat_keys(plan.chats@.take(i as int), "square"@),
            messages == square_messages(plan.chats@.take(i as int)),
            square_messages(plan.chats@) <= u64::MAX,
            ok == forall|j: int|
                0 <= j < i ==> (#[trigger] plan.chats@[j]).source@ == "line"@ || plan.chats@[j].source@
                    == "square"@,
        decreases plan.chats.len() - i,
    {
        assert(plan.chats@.take(i + 1).drop_last() =~= plan.chats@.take(i as int));
        assert(plan.chats@.take(i + 1).last() == plan.chats@[i as int]);
        proof {
            lemma_square_messages_prefix(plan.chats@, i + 1);
        }
        let chat = &plan.chats[i];
        let source = text::chars_of(chat.source.as_str());
        if text::eq_str(&source, "line") {
            line_chats.push(chat.chat_pk);
            proof {
                reveal_strlit("line");
                reveal_strlit("square");
                assert(chat.source@ == "line"@);
                assert(chat.source@.len() != "square"@.len());
            }
        } else if text::eq_str(&source, "square") {
            square_chats.push(chat.chat_pk);
            if chat.message_count > 0 {
                messages = messages + chat.message_count as u64;
            }
        } else {
            ok = false;
        }
        i = i + 1;
    }
    assert(plan.chats@.take(plan.chats.len() as int) =~= plan.chats@);
    let mut orphans: Vec<i64> = Vec::new();
    let mut j: usize = 0;
    while j < plan.orphan_messages.len()
        invariant
            j <= plan.orphan_messages.len(),
            orphans@ == plan.orphan_messages@.take(j as int).map_values(
                |m: crate::catalog::PlannedMessage| m.message_pk,
            ),
            ok ==> forall|k: int|
                0 <= k < j ==> (#[trigger] plan.orphan_messages@[k]).source@ == "square"@,
            !ok ==> !plan_sources_ok(*plan),
            forall|k: int|
                0 <= k < plan.chats@.len() ==> (#[trigger] plan.chats@[k]).source@ == "line"@
                    || plan.chats@[k].source@ == "square"@ || !ok,
        decreases plan.orphan_messages.len() - j,
    {
        let message = &plan.orphan_messages[j];
        if !text::eq_str(&text::chars_of(message.source.as_str()), "square") {
            ok = false;
        }
        orphans.push(message.message_pk);
        assert(plan.orphan_messages@.take(j + 1).map_values(
            |m: crate::catalog::PlannedMessage| m.message_pk,
        ) =~= plan.orphan_messages@.take(j as int).map_values(
            |m: crate::catalog::PlannedMessage| m.message_pk,
        ).push(plan.orphan_messages@[j as int].message_pk));
        j = j + 1;
    }
    assert(plan.orphan_messages@.take(plan.orphan_messages.len() as int) =~= plan.orphan_messages@);
    if !ok {
        return Err(CoreError::UnsupportedPlanSource);
    }
    Ok(CleanupPartition {
        line_chats,
        square_chats,
        square_orphans: orphans,
        square_planned_messages: messages.saturating_add(plan.orphan_messages.len() as u64),
    })
}

/// The warning for a community database rebuilt empty because it was
/// corrupt.
pub open spec fn square_rebuild_warning_text(used_minimal_schema: bool, skipped_schema_objects: usize) -> Seq<
    char,
> {
    "LineSquare.sqlite 完整性檢查失敗；候選檔已改用空白社群資料庫，所有可讀取的社群聊天室與訊息均未保留，原始備份未被修改。"@
        + if used_minimal_schema {
        " 原始 schema 無法完整讀取，已補建最低限度的 ZCHAT／ZMESSAGE 結構。"@
    } else if skipped_schema_objects > 0 {
        " 有 "@ + text::decimal(skipped_schema_objects as nat) + " 個非必要 schema 物件無法重建。"@
    } else {
        Seq::empty()
    }
}

/// Tells what was lost when the corrupt community database was replaced
/// by an empty one.
pub fn square_rebuild_warning(used_minimal_schema: bool, skipped_schema_objects: usize) -> (r: String)
    ensures
        r@ == square_rebuild_warning_text(used_minimal_schema, skipped_schema_objects),
{
    let mut v = text::chars_of(
        "LineSquare.sqlite 完整性檢查失敗；候選檔已改用空白社群資料庫，所有可讀取的社群聊天室與訊息均未保留，原始備份未被修改。",
    );
    if used_minimal_schema {
        text::append_str(&mut v, " 原始 schema 無法完整讀取，已補建最低限度的 ZCHAT／ZMESSAGE 結構。");
    } else if skipped_schema_objects > 0 {
        text::append_str(&mut v, " 有 ");
        text::push_decimal(&mut v, skipped_schema_objects as u64);
        text::append_str(&mut v, " 個非必要 schema 物件無法重建。");
    }
    proof {
        if !used_minimal_schema && skipped_schema_objects > 0 {
            assert(v@ =~= square_rebuild_warning_text(used_minimal_schema, skipped_schema_objects));
        }
    }
    assert(v@ =~= square_rebuild_warning_text(used_minimal_schema, skipped_schema_objects));
    text::string_of(&v)
}

// ---------------------------------------------------------------------
// What happens to each source entry
// ---------------------------------------------------------------------

/// A removal plan may only name attachment files that are not protected.
pub open spec fn removable_path(p: Seq<char>) -> bool {
    paths::removable_attachment(p) && !paths::protected_path(p)
}

/// Refuses a removal plan that names a protected or non-attachment path:
/// the first such path is named.
pub fn validate_removal_plan(marked: &Vec<String>) -> (r: Result<(), CoreError>)
    ensures
        r is Ok <==> forall|i: int| 0 <= i < marked.len() ==> removable_path(#[trigger] marked@[i]@),
        r matches Err(e) ==> exists|i: int|
            0 <= i < marked.len() && !removable_path(marked@[i]@) && (forall|j: int|
                0 <= j < i ==> removable_path(#[trigger] marked@[j]@)) && (e matches CoreError::ProtectedRemoval(
                v,
            ) && v@ == marked@[i]@),
{
    let mut i: usize = 0;
    while i < marked.len()
        invariant
            i <= marked.len(),
            forall|j: int| 0 <= j < i ==> removable_path(#[trigger] marked@[j]@),
        decreases marked.len() - i,
    {
        let p = marked[i].as_str();
        if !paths::is_removable_attachment(p) || paths::is_protected(p) {
            return Err(CoreError::ProtectedRemoval(text::chars_of(p)));
        }
        i = i + 1;
    }
    Ok(())
}

/// What the candidate does with one source entry.
#[derive(Debug, Clone, Copy, PartialEq, Eq, Structural)]
pub enum EntryAction {
    /// A folder entry, copied as it is.
    CopyDirectory,
    /// A marked attachment, left out.
    Remove,
    /// A sidecar of a rewritten database, left out.
    SkipSidecar,
    /// A database replaced by the cleaned copy at this position of the rewrites.
    Rewrite(usize),
    /// A duplicate replaced by the link at this position of the plan.
    Link(usize),
    /// Any other entry, copied after its content is checked.
    Copy,
}

/// What the candidate does with the entry `name`: folders are copied; then
/// marked removals, stale sidecars, rewritten databases and duplicate links
/// are handled, in that order; anything else is copied.
pub open spec fn entry_action_ok(
    r: EntryAction,
    name: Seq<char>,
    is_dir: bool,
    marked: Seq<Seq<char>>,
    rewrites: DatabaseRewrites,
    links: Seq<DuplicateSymlink>,
) -> bool {
    if is_dir {
        r == EntryAction::CopyDirectory
    } else if marked.contains(name) {
        r == EntryAction::Remove
    } else if string_views(rewrites.skipped_sidecars@).contains(name) {
        r == EntryAction::SkipSidecar
    } else if rewrite_names(rewrites.entries@).contains(name) {
        r matches EntryAction::Rewrite(i) && i < rewrites.entries@.len()
            && rewrites.entries@[i as int].name@ == name
    } else if link_paths(links).contains(name) {
        r matches EntryAction::Link(i) && i < links.len() && links[i as int].path@ == name
    } else {
        r == EntryAction::Copy
    }
}

fn link_position(links: &Vec<DuplicateSymlink>, name: &str) -> (r: Option<usize>)
    ensures
        r matches Some(i) ==> i < links.len() && links@[i as int].path@ == name@,
        r is None ==> !link_paths(links@).contains(name@),
{
    let w = text::chars_of(name);
    let mut i: usize = 0;
    while i < links.len()
        invariant
            i <= links.len(),
            w@ == name@,
            forall|j: int| 0 <= j < i ==> #[trigger] links@[j].path@ != name@,
        decreases links.len() - i,
    {
        if text::eq_chars(&text::chars_of(links[i].path.as_str()), &w) {
            return Some(i);
        }
        i = i + 1;
    }
    proof {
        if link_paths(links@).contains(name@) {
            let j = choose|j: int| 0 <= j < links.len() && link_paths(links@)[j] == name@;
            assert(links@[j].path@ == name@);
        }
    }
    None
}

proof fn lemma_find_entry_contains(names: Seq<String>, w: Seq<char>, found: bool)
    requires
        found ==> exists|i: int| 0 <= i < names.len() && names[i]@ == w,
        !found ==> forall|j: int| 0 <= j < names.len() ==> #[trigger] names[j]@ != w,
    ensures
        found == string_views(names).contains(w),
{
    if found {
        let i = choose|i: int| 0 <= i < names.len() && names[i]@ == w;
        assert(string_views(names)[i] == w);
    } else if string_views(names).contains(w) {
        let i = choose|i: int| 0 <= i < names.len() && string_views(names)[i] == w;
        assert(names[i]@ == w);
    }
}

/// Whether `name` is one of `names`.
pub fn holds_name(names: &Vec<String>, name: &str) -> (r: bool)
    ensures
        r == string_views(names@).contains(name@),
{
    let found = find_entry(names, name);
    proof {
        lemma_find_entry_contains(names@, name@, found is Some);
    }
    found.is_some()
}

/// Decides what the candidate does with the source entry `name`.
pub fn entry_action(
    name: &str,
    is_dir: bool,
    marked: &Vec<String>,
    rewrites: &DatabaseRewrites,
    links: &DuplicateSymlinkPlan,
) -> (r: EntryAction)
    ensures
        entry_action_ok(r, name@, is_dir, string_views(marked@), *rewrites, links.links@),
{
    if is_dir {
        return EntryAction::CopyDirectory;
    }
    if holds_name(marked, name) {
        return EntryAction::Remove;
    }
    if holds_name(&rewrites.skipped_sidecars, name) {
        return EntryAction::SkipSidecar;
    }
    match rewrite_position(&rewrites.entries, name) {
        Some(i) => {
            proof {
                assert(rewrite_names(rewrites.entries@)[i as int] == name@);
            }
            return EntryAction::Rewrite(i);
        },
        None => {},
    }
    match link_position(&links.links, name) {
        Some(i) => {
            proof {
                assert(link_paths(links.links@)[i as int] == name@);
            }
            EntryAction::Link(i)
        },
        None => EntryAction::Copy,
    }
}

/// What writing the candidate found so far.
#[derive(Debug, Clone)]
pub struct BuildTally {
    /// Marked entries met and left out, each once.
    pub removed_found: Vec<String>,
    /// Stale sidecars met and left out.
    pub skipped_sidecars_found: u64,
    /// Entries written to the candidate.
    pub output_entries: u64,
}

impl BuildTally {
    /// Nothing found yet.
    pub fn new() -> (r: Self)
        ensures
            r.removed_found@.len() == 0,
            r.skipped_sidecars_found == 0,
            r.output_entries == 0,
    {
        BuildTally { removed_found: Vec::new(), skipped_sidecars_found: 0, output_entries: 0 }
    }

    /// Counts one entry handled as `action`.
    pub fn record(&mut self, action: EntryAction, name: &str)
        requires
            string_views(old(self).removed_found@).no_duplicates(),
            old(self).skipped_sidecars_found < u64::MAX,
            old(self).output_entries < u64::MAX,
        ensures
            string_views(final(self).removed_found@).no_duplicates(),
            action == EntryAction::Remove ==> string_views(final(self).removed_found@).to_set()
                == string_views(old(self).removed_found@).to_set().insert(name@),
            action != EntryAction::Remove ==> final(self).removed_found@ == old(self).removed_found@,
            final(self).skipped_sidecars_found == old(self).skipped_sidecars_found + if action
                == EntryAction::SkipSidecar {
                1int
            } else {
                0
            },
            final(self).output_entries == old(self).output_entries + if action
                == EntryAction::Remove || action == EntryAction::SkipSidecar {
                0int
            } else {
                1
            },
    {
        match action {
            EntryAction::Remove => {
                push_unique_string(&mut self.removed_found, text::to_string(name));
            },
            EntryAction::SkipSidecar => {
                self.skipped_sidecars_found = self.skipped_sidecars_found + 1;
            },
            _ => {
                self.output_entries = self.output_entries + 1;
            },
        }
    }
}

/// The marked entries not met while writing, in plan order.
pub open spec fn missing_removals(marked: Seq<Seq<char>>, found: Seq<Seq<char>>) -> Seq<Seq<char>>
    decreases marked.len(),
{
    if marked.len() == 0 {
        seq![]
    } else {
        let prev = missing_removals(marked.drop_last(), found);
        if found.contains(marked.last()) {
            prev
        } else {
            prev.push(marked.last())
        }
    }
}

/// Refuses a candidate in which a marked entry was never met: the missing
/// entries are named.
pub fn check_removals_found(marked: &Vec<String>, found: &Vec<String>) -> (r: Result<(), CoreError>)
    ensures
        r is Ok <==> missing_removals(string_views(marked@), string_views(found@)).len() == 0,
        r matches Err(e) ==> (e matches CoreError::RemovalsNotFound(v) && text::views(v@)
            == missing_removals(string_views(marked@), string_views(found@))),
{
    let ghost ms = string_views(marked@);
    let ghost fs = string_views(found@);
    let mut missing: Vec<Vec<char>> = Vec::new();
    let mut i: usize = 0;
    while i < marked.len()
        invariant
            i <= marked.len(),
            ms == string_views(marked@),
            fs == string_views(found@),
            text::views(missing@) == missing_removals(ms.take(i as int), fs),
        decreases marked.len() - i,
    {
        let m = marked[i].as_str();
        assert(ms.take(i + 1).drop_last() =~= ms.take(i as int));
        assert(ms.take(i + 1).last() == ms[i as int]);
        assert(ms[i as int] == marked@[i as int]@);
        if !holds_name(found, m) {
            missing.push(text::chars_of(m));
            assert(text::views(missing@) =~= missing_removals(ms.take(i as int), fs).push(ms[i as int]));
        }
        i = i + 1;
    }
    assert(ms.take(marked.len() as int) =~= ms);
    if missing.len() > 0 {
        Err(CoreError::RemovalsNotFound(missing))
    } else {
        Ok(())
    }
}

// ---------------------------------------------------------------------
// Surveying the source archive
// ---------------------------------------------------------------------

/// What the archive index says of one entry.
#[derive(Debug, Clone)]
pub struct ArchiveEntryInfo {
    pub name: String,
    pub is_dir: bool,
    pub encrypted: bool,
    pub compressed_size: u64,
}

/// What a source archive holds before a candidate is written from it.
#[derive(Debug, Clone)]
pub struct ArchiveSurvey {
    pub entries: u64,
    pub compressed_bytes: u64,
    /// Protected file entries, in archive order; their digests are taken next.
    pub protected_names: Vec<String>,
}

/// The names of `entries`.
pub open spec fn entry_names(entries: Seq<ArchiveEntryInfo>) -> Seq<Seq<char>> {
    entries.map_values(|e: ArchiveEntryInfo| e.name@)
}

/// Whether the entry at `i` is refused: it is encrypted, or an earlier
/// entry has its name.
pub open spec fn entry_refused(entries: Seq<ArchiveEntryInfo>, i: int) -> bool {
    entries[i].encrypted || entry_names(entries).take(i).contains(entries[i].name@)
}

/// The protected file entries, in archive order.
pub open spec fn protected_entries(entries: Seq<ArchiveEntryInfo>) -> Seq<Seq<char>>
    decreases entries.len(),
{
    if entries.len() == 0 {
        seq![]
    } else {
        let prev = protected_entries(entries.drop_last());
        if paths::protected_path(entries.last().name@) && !entries.last().is_dir {
            prev.push(entries.last().name@)
        } else {
            prev
        }
    }
}

/// Compressed bytes of all entries, added up to the largest `u64`.
pub open spec fn compressed_total(entries: Seq<ArchiveEntryInfo>) -> int
    decreases entries.len(),
{
    if entries.len() == 0 {
        0
    } else {
        crate::server::sat_add_u64(compressed_total(entries.drop_last()), entries.last().compressed_size as int)
    }
}

/// Reads the index of a source archive: refuses an encrypted entry or a
/// name that occurs twice (the first such entry is named), and lists the
/// protected files.
pub fn survey_archive(entries: &Vec<ArchiveEntryInfo>) -> (r: Result<ArchiveSurvey, CoreError>)
    ensures
        match r {
            Ok(survey) => {
                &&& forall|i: int| 0 <= i < entries.len() ==> !entry_refused(entries@, i)
                &&& survey.entries == entries.len()
                &&& survey.compressed_bytes == compressed_total(entries@)
                &&& string_views(survey.protected_names@) == protected_entries(entries@)
            },
            Err(e) => exists|i: int|
                {
                    &&& 0 <= i < entries.len()
                    &&& entry_refused(entries@, i)
                    &&& forall|j: int| 0 <= j < i ==> !entry_refused(entries@, j)
                    &&& if entries@[i].encrypted {
                        e matches CoreError::EncryptedEntry(v) && v@ == entries@[i].name@
                    } else {
                        e matches CoreError::DuplicateSourceEntry(v) && v@ == entries@[i].name@
                    }
                },
        },
{
    let ghost names = entry_names(entries@);
    let mut seen: Vec<String> = Vec::new();
    let mut protected: Vec<String> = Vec::new();
    let mut total: u64 = 0;
    let mut i: usize = 0;
    while i < entries.len()
        invariant
            i <= entries.len(),
            names == entry_names(entries@),
            string_views(seen@) == names.take(i as int),
            string_views(protected@) == protected_entries(entries@.take(i as int)),
            total == compressed_total(entries@.take(i as int)),
            forall|j: int| 0 <= j < i ==> !entry_refused(entries@, j),
        decreases entries.len() - i,
    {
        let entry = &entries[i];
        assert(names[i as int] == entry.name@);
        assert(entries@.take(i + 1).drop_last() =~= entries@.take(i as int));
        assert(entries@.take(i + 1).last() == entries@[i as int]);
        if entry.encrypted {
            assert(entry_refused(entries@, i as int));
            return Err(CoreError::EncryptedEntry(text::chars_of(entry.name.as_str())));
        }
        if holds_name(&seen, entry.name.as_str()) {
            assert(entry_refused(entries@, i as int));
            return Err(CoreError::DuplicateSourceEntry(text::chars_of(entry.name.as_str())));
        }
        let ghost before = seen@;
        seen.push(entry.name.clone());
        assert(string_views(seen@) =~= string_views(before).push(entry.name@));
        assert(names.take(i + 1) =~= names.take(i as int).push(names[i as int]));
        if paths::is_protected(entry.name.as_str()) && !entry.is_dir {
            protected.push(entry.name.clone());
            assert(string_views(protected@) =~= protected_entries(entries@.take(i as int)).push(
                entry.name@,
            ));
        }
        total = total.saturating_add(entry.compressed_size);
        i = i + 1;
    }
    assert(entries@.take(entries.len() as int) =~= entries@);
    Ok(ArchiveSurvey { entries: entries.len() as u64, compressed_bytes: total, protected_names: protected })
}

/// Warnings about protected entries an archive lacks.
pub open spec fn archive_warning_texts(protected: Seq<Seq<char>>) -> Seq<Seq<char>> {
    (if protected.contains(".lock"@) {
        seq![]
    } else {
        seq!["source archive does not contain .lock"@]
    }) + (if protected.contains("Payload/LINE.app/Info.plist"@) {
        seq![]
    } else {
        seq!["source archive does not contain Payload/LINE.app/Info.plist"@]
    })
}

/// Warns when an archive lacks `.lock` or the app's `Info.plist`.
pub fn archive_warnings(protected_names: &Vec<String>) -> (r: Vec<String>)
    ensures
        string_views(r@) == archive_warning_texts(string_views(protected_names@)),
{
    let mut out: Vec<String> = Vec::new();
    if !holds_name(protected_names, ".lock") {
        out.push(text::to_string("source archive does not contain .lock"));
    }
    let ghost first = string_views(out@);
    if !holds_name(protected_names, "Payload/LINE.app/Info.plist") {
        out.push(text::to_string("source archive does not contain Payload/LINE.app/Info.plist"));
    }
    assert(string_views(out@) =~= archive_warning_texts(string_views(protected_names@)));
    out
}

/// Whether an entry is the protected main LINE database.
pub open spec fn main_database_entry(name: Seq<char>) -> bool {
    text::ends_with(name, "/Messages/Line.sqlite"@)
}

/// Refuses a source whose protected entries lack `Messages/Line.sqlite`.
pub fn require_main_database(protected_names: &Vec<String>) -> (r: Result<(), CoreError>)
    ensures
        r is Ok <==> exists|i: int|
            0 <= i < protected_names.len() && main_database_entry(#[trigger] protected_names@[i]@),
        r is Err ==> r == Err::<(), CoreError>(CoreError::MissingProtectedDatabase),
{
    let suffix = text::chars_of("/Messages/Line.sqlite");
    let mut i: usize = 0;
    while i < protected_names.len()
        invariant
            i <= protected_names.len(),
            suffix@ == "/Messages/Line.sqlite"@,
            forall|j: int| 0 <= j < i ==> !main_database_entry(#[trigger] protected_names@[j]@),
        decreases protected_names.len() - i,
    {
        if text::has_suffix(&text::chars_of(protected_names[i].as_str()), &suffix) {
            return Ok(());
        }
        i = i + 1;
    }
    Err(CoreError::MissingProtectedDatabase)
}

/// The protected entries whose digests must match the source: all of them
/// but the rewritten databases and their stale sidecars, sorted.
pub open spec fn kept_protected(names: Seq<Seq<char>>, rewrites: DatabaseRewrites) -> Seq<Seq<char>>
    decreases names.len(),
{
    if names.len() == 0 {
        seq![]
    } else {
        let prev = kept_protected(names.drop_last(), rewrites);
        let n = names.last();
        if rewrite_names(rewrites.entries@).contains(n) || string_views(
            rewrites.skipped_sidecars@,
        ).contains(n) {
            prev
        } else {
            prev.push(n)
        }
    }
}

/// The protected entries a candidate must hold unchanged, sorted.
pub fn protected_entries_to_verify(protected_names: &Vec<String>, rewrites: &DatabaseRewrites) -> (r: Vec<
    String,
>)
    ensures
        order::sorted_texts(string_views(r@)),
        string_views(r@).to_multiset() == kept_protected(string_views(protected_names@), *rewrites).to_multiset(),
{
    let ghost names = string_views(protected_names@);
    let mut kept: Vec<String> = Vec::new();
    let mut i: usize = 0;
    while i < protected_names.len()
        invariant
            i <= protected_names.len(),
            names == string_views(protected_names@),
            string_views(kept@) == kept_protected(names.take(i as int), *rewrites),
        decreases protected_names.len() - i,
    {
        let n = protected_names[i].as_str();
        assert(names.take(i + 1).drop_last() =~= names.take(i as int));
        assert(names.take(i + 1).last() == names[i as int]);
        let rewritten = rewrite_position(&rewrites.entries, n).is_some();
        proof {
            if rewritten {
                let k = choose|k: int| 0 <= k < rewrites.entries.len() && rewrites.entries@[k].name@ == n@;
                assert(rewrite_names(rewrites.entries@)[k] == n@);
            }
        }
        if !rewritten && !holds_name(&rewrites.skipped_sidecars, n) {
            kept.push(protected_names[i].clone());
            assert(string_views(kept@) =~= kept_protected(names.take(i as int), *rewrites).push(
                names[i as int],
            ));
        }
        i = i + 1;
    }
    assert(names.take(protected_names.len() as int) =~= names);
    order::sort_strings(&kept)
}

// ---------------------------------------------------------------------
// Checking the written candidate
// ---------------------------------------------------------------------

/// What the candidate's index says of one entry.
#[derive(Debug, Clone)]
pub struct CandidateEntryInfo {
    pub name: String,
    pub is_dir: bool,
    pub is_symlink: bool,
    /// The stored link text of a duplicate link, when it reads as text.
    pub link_target: Option<String>,
}

/// The names of `entries`.
pub open spec fn candidate_names(entries: Seq<CandidateEntryInfo>) -> Seq<Seq<char>> {
    entries.map_values(|e: CandidateEntryInfo| e.name@)
}

/// Whether the candidate entry at `i` breaks a rule on its own: it is a
/// marked removal, a stale sidecar, a repeated name, or a duplicate link
/// that is not a link with the planned text.
pub open spec fn candidate_entry_bad(
    entries: Seq<CandidateEntryInfo>,
    i: int,
    marked: Seq<Seq<char>>,
    rewrites: DatabaseRewrites,
    links: Seq<DuplicateSymlink>,
) -> bool {
    let e = entries[i];
    ||| marked.contains(e.name@)
    ||| string_views(rewrites.skipped_sidecars@).contains(e.name@)
    ||| candidate_names(entries).take(i).contains(e.name@)
    ||| exists|k: int|
        #![trigger links[k]]
        0 <= k < links.len() && links[k].path@ == e.name@ && (!e.is_symlink || !(e.link_target matches Some(
            t,
        ) && t@ == links[k].relative_target@))
}

/// A regular file entry: neither folder nor link, nor a planned link.
pub open spec fn regular_entry(e: CandidateEntryInfo, links: Seq<DuplicateSymlink>) -> bool {
    !link_paths(links).contains(e.name@) && !e.is_dir && !e.is_symlink
}

/// Whether the planned link at `k` is missing, or points at something that
/// is not a kept regular file.
pub open spec fn candidate_link_bad(
    entries: Seq<CandidateEntryInfo>,
    k: int,
    marked: Seq<Seq<char>>,
    links: Seq<DuplicateSymlink>,
) -> bool {
    ||| !candidate_names(entries).contains(links[k].path@)
    ||| !(exists|j: int|
        0 <= j < entries.len() && #[trigger] entries[j].name@ == links[k].canonical_path@
            && regular_entry(entries[j], links))
    ||| marked.contains(links[k].canonical_path@)
}

/// Whether the written candidate keeps the plan: the expected number of
/// entries, no removed entry or stale sidecar, no name twice, and every
/// duplicate link stored as a link with its planned text to a kept file.
pub open spec fn candidate_ok(
    entries: Seq<CandidateEntryInfo>,
    expected_entries: u64,
    marked: Seq<Seq<char>>,
    rewrites: DatabaseRewrites,
    links: Seq<DuplicateSymlink>,
) -> bool {
    &&& entries.len() == expected_entries
    &&& forall|i: int|
        0 <= i < entries.len() ==> !#[trigger] candidate_entry_bad(entries, i, marked, rewrites, links)
    &&& forall|k: int| 0 <= k < links.len() ==> !#[trigger] candidate_link_bad(entries, k, marked, links)
}

/// The refusal the entry at `i` gets, by the first rule it breaks: a
/// marked removal, a stale sidecar, a repeated name, then for a planned
/// link an entry that is not a link, a link without text, or another text.
pub open spec fn entry_refusal(
    e: CoreError,
    entries: Seq<CandidateEntryInfo>,
    i: int,
    marked: Seq<Seq<char>>,
    rewrites: DatabaseRewrites,
) -> bool {
    let x = entries[i];
    let n = x.name@;
    if marked.contains(n) {
        e matches CoreError::CandidateHoldsRemoval(v) && v@ == n
    } else if string_views(rewrites.skipped_sidecars@).contains(n) {
        e matches CoreError::CandidateHoldsSidecar(v) && v@ == n
    } else if candidate_names(entries).take(i).contains(n) {
        e matches CoreError::CandidateDuplicateEntry(v) && v@ == n
    } else if !x.is_symlink {
        e matches CoreError::CandidateLinkNotSymlink(v) && v@ == n
    } else if x.link_target is None {
        e matches CoreError::CandidateLinkTargetInvalid(v) && v@ == n
    } else {
        e matches CoreError::CandidateLinkTargetChanged(v) && v@ == n
    }
}

/// `e` is what the check answers when the entry at `i` is the first that
/// breaks a rule.
pub open spec fn refused_at_entry(
    e: CoreError,
    entries: Seq<CandidateEntryInfo>,
    i: int,
    marked: Seq<Seq<char>>,
    rewrites: DatabaseRewrites,
    links: Seq<DuplicateSymlink>,
) -> bool {
    &&& 0 <= i < entries.len()
    &&& forall|j: int| 0 <= j < i ==> !#[trigger] candidate_entry_bad(entries, j, marked, rewrites, links)
    &&& candidate_entry_bad(entries, i, marked, rewrites, links)
    &&& entry_refusal(e, entries, i, marked, rewrites)
}

/// The refusal the planned link at `k` gets, by the first rule it breaks:
/// the link is missing, its target is not a kept regular file, or its
/// target is a marked removal.
pub open spec fn link_refusal_of(
    e: CoreError,
    entries: Seq<CandidateEntryInfo>,
    k: int,
    links: Seq<DuplicateSymlink>,
) -> bool {
    let l = links[k];
    if !candidate_names(entries).contains(l.path@) {
        e matches CoreError::CandidateLinkMissing(v) && v@ == l.path@
    } else if !(exists|j: int|
        0 <= j < entries.len() && #[trigger] entries[j].name@ == l.canonical_path@ && regular_entry(
            entries[j],
            links,
        )) {
        e matches CoreError::CandidateLinkTargetMissing(v) && v@ == l.canonical_path@
    } else {
        e matches CoreError::CandidateLinkTargetMarked(v) && v@ == l.canonical_path@
    }
}

/// `e` is what the check answers when every entry keeps the rules and the
/// planned link at `k` is the first that does not.
pub open spec fn refused_at_link(
    e: CoreError,
    entries: Seq<CandidateEntryInfo>,
    k: int,
    marked: Seq<Seq<char>>,
    rewrites: DatabaseRewrites,
    links: Seq<DuplicateSymlink>,
) -> bool {
    &&& 0 <= k < links.len()
    &&& forall|i: int|
        0 <= i < entries.len() ==> !#[trigger] candidate_entry_bad(entries, i, marked, rewrites, links)
    &&& forall|q: int| 0 <= q < k ==> !#[trigger] candidate_link_bad(entries, q, marked, links)
    &&& candidate_link_bad(entries, k, marked, links)
    &&& link_refusal_of(e, entries, k, links)
}

fn regular_position(entries: &Vec<CandidateEntryInfo>, links: &Vec<DuplicateSymlink>, name: &str) -> (r:
    bool)
    ensures
        r == exists|j: int|
            0 <= j < entries.len() && #[trigger] entries@[j].name@ == name@ && regular_entry(
                entries@[j],
                links@,
            ),
{
    let w = text::chars_of(name);
    let mut j: usize = 0;
    while j < entries.len()
        invariant
            j <= entries.len(),
            w@ == name@,
            forall|k: int|
                0 <= k < j ==> !(#[trigger] entries@[k].name@ == name@ && regular_entry(
                    entries@[k],
                    links@,
                )),
        decreases entries.len() - j,
    {
        let e = &entries[j];
        let same = text::eq_chars(&text::chars_of(e.name.as_str()), &w);
        let linked = link_position(links, e.name.as_str()).is_some();
        proof {
            if linked {
                let q = choose|q: int| 0 <= q < links.len() && links@[q].path@ == e.name@;
                assert(link_paths(links@)[q] == e.name@);
            }
        }
        if same && !linked && !e.is_dir && !e.is_symlink {
            return true;
        }
        j = j + 1;
    }
    false
}

/// Checks a written candidate against its plan, from the candidate's index.
pub fn check_candidate_entries(
    entries: &Vec<CandidateEntryInfo>,
    expected_entries: u64,
    marked: &Vec<String>,
    rewrites: &DatabaseRewrites,
    links: &DuplicateSymlinkPlan,
) -> (r: Result<(), CoreError>)
    requires
        links.wf(),
    ensures
        r is Ok <==> candidate_ok(entries@, expected_entries, string_views(marked@), *rewrites, links.links@),
        entries.len() != expected_entries ==> r == Err::<(), CoreError>(
            CoreError::CandidateEntryCount(expected_entries, entries.len() as u64),
        ),
        r matches Err(e) ==> entries.len() == expected_entries ==> (exists|i: int|
            #[trigger] refused_at_entry(e, entries@, i, string_views(marked@), *rewrites, links.links@))
            || (exists|k: int|
            #[trigger] refused_at_link(e, entries@, k, string_views(marked@), *rewrites, links.links@)),
{
    if entries.len() as u64 != expected_entries {
        return Err(CoreError::CandidateEntryCount(expected_entries, entries.len() as u64));
    }
    let ghost ms = string_views(marked@);
    let ghost names = candidate_names(entries@);
    let mut seen: Vec<String> = Vec::new();
    let mut i: usize = 0;
    while i < entries.len()
        invariant
            i <= entries.len(),
            links.wf(),
            entries.len() == expected_entries,
            ms == string_views(marked@),
            names == candidate_names(entries@),
            string_views(seen@) == names.take(i as int),
            forall|j: int|
                0 <= j < i ==> !#[trigger] candidate_entry_bad(entries@, j, ms, *rewrites, links.links@),
        decreases entries.len() - i,
    {
        let e = &entries[i];
        let name = e.name.as_str();
        assert(names[i as int] == e.name@);
        if holds_name(marked, name) {
            let err = CoreError::CandidateHoldsRemoval(text::chars_of(name));
            assert(refused_at_entry(err, entries@, i as int, ms, *rewrites, links.links@));
            return Err(err);
        }
        if holds_name(&rewrites.skipped_sidecars, name) {
            let err = CoreError::CandidateHoldsSidecar(text::chars_of(name));
            assert(refused_at_entry(err, entries@, i as int, ms, *rewrites, links.links@));
            return Err(err);
        }
        if holds_name(&seen, name) {
            let err = CoreError::CandidateDuplicateEntry(text::chars_of(name));
            assert(refused_at_entry(err, entries@, i as int, ms, *rewrites, links.links@));
            return Err(err);
        }
        let ghost before = seen@;
        seen.push(e.name.clone());
        assert(string_views(seen@) =~= string_views(before).push(e.name@));
        assert(names.take(i + 1) =~= names.take(i as int).push(names[i as int]));
        match link_position(&links.links, name) {
            Some(k) => {
                let link = &links.links[k];
                if !e.is_symlink {
                    let err = CoreError::CandidateLinkNotSymlink(text::chars_of(name));
                    assert(refused_at_entry(err, entries@, i as int, ms, *rewrites, links.links@));
                    return Err(err);
                }
                match &e.link_target {
                    Some(t) => {
                        if !text::eq_chars(
                            &text::chars_of(t.as_str()),
                            &text::chars_of(link.relative_target.as_str()),
                        ) {
                            let err = CoreError::CandidateLinkTargetChanged(text::chars_of(name));
                            assert(refused_at_entry(err, entries@, i as int, ms, *rewrites, links.links@));
                            return Err(err);
                        }
                        proof {
                            assert forall|q: int|
                                0 <= q < links.links@.len() && links.links@[q].path@ == e.name@ implies (
                            e.is_symlink && (e.link_target matches Some(tt) && tt@
                                == links.links@[q].relative_target@)) by {
                                assert(link_paths(links.links@)[q] == links.links@[q].path@);
                                assert(link_paths(links.links@)[k as int] == links.links@[k as int].path@);
                                assert(link_paths(links.links@)[q] == link_paths(links.links@)[k as int]);
                                assert(q == k as int);
                            }
                        }
                    },
                    None => {
                        let err = CoreError::CandidateLinkTargetInvalid(text::chars_of(name));
                        assert(refused_at_entry(err, entries@, i as int, ms, *rewrites, links.links@));
                        return Err(err);
                    },
                }
            },
            None => {
                proof {
                    assert forall|q: int| 0 <= q < links.links@.len() implies links.links@[q].path@
                        != e.name@ by {
                        assert(link_paths(links.links@)[q] == links.links@[q].path@);
                    }
                }
            },
        }
        i = i + 1;
    }
    let mut k: usize = 0;
    while k < links.links.len()
        invariant
            k <= links.links.len(),
            ms == string_views(marked@),
            names == candidate_names(entries@),
            entries.len() == expected_entries,
            forall|j: int|
                0 <= j < entries.len() ==> !#[trigger] candidate_entry_bad(
                    entries@,
                    j,
                    ms,
                    *rewrites,
                    links.links@,
                ),
            forall|q: int| 0 <= q < k ==> !#[trigger] candidate_link_bad(entries@, q, ms, links.links@),
        decreases links.links.len() - k,
    {
        let link = &links.links[k];
        let present = match find_entry_in(entries, link.path.as_str()) {
            Some(_) => true,
            None => false,
        };
        if !present {
            let err = CoreError::CandidateLinkMissing(text::chars_of(link.path.as_str()));
            assert(refused_at_link(err, entries@, k as int, ms, *rewrites, links.links@));
            return Err(err);
        }
        if !regular_position(entries, &links.links, link.canonical_path.as_str()) {
            let err = CoreError::CandidateLinkTargetMissing(text::chars_of(link.canonical_path.as_str()));
            assert(refused_at_link(err, entries@, k as int, ms, *rewrites, links.links@));
            return Err(err);
        }
        if holds_name(marked, link.canonical_path.as_str()) {
            let err = CoreError::CandidateLinkTargetMarked(text::chars_of(link.canonical_path.as_str()));
            assert(refused_at_link(err, entries@, k as int, ms, *rewrites, links.links@));
            return Err(err);
        }
        k = k + 1;
    }
    Ok(())
}

fn find_entry_in(entries: &Vec<CandidateEntryInfo>, name: &str) -> (r: Option<usize>)
    ensures
        r is Some <==> candidate_names(entries@).contains(name@),
{
    let w = text::chars_of(name);
    let mut j: usize = 0;
    while j < entries.len()
        invariant
            j <= entries.len(),
            w@ == name@,
            forall|k: int| 0 <= k < j ==> #[trigger] entries@[k].name@ != name@,
        decreases entries.len() - j,
    {
        if text::eq_chars(&text::chars_of(entries[j].name.as_str()), &w) {
            assert(candidate_names(entries@)[j as int] == name@);
            return Some(j);
        }
        j = j + 1;
    }
    proof {
        if candidate_names(entries@).contains(name@) {
            let q = choose|q: int| 0 <= q < entries.len() && candidate_names(entries@)[q] == name@;
            assert(entries@[q].name@ == name@);
        }
    }
    None
}

// ---------------------------------------------------------------------
// Directory sources
// ---------------------------------------------------------------------

/// Bytes a directory candidate will hold for the file `name` of `bytes`
/// bytes: nothing when it is left out, the cleaned copy's size when it is
/// rewritten, else its own size.
pub open spec fn written_bytes(
    name: Seq<char>,
    bytes: u64,
    marked: Seq<Seq<char>>,
    rewrites: DatabaseRewrites,
    rewrite_bytes: Seq<u64>,
) -> int {
    if marked.contains(name) || string_views(rewrites.skipped_sidecars@).contains(name) {
        0
    } else if rewrite_names(rewrites.entries@).contains(name) {
        rewrite_bytes[rewrite_names(rewrites.entries@).index_of(name)] as int
    } else {
        bytes as int
    }
}

/// Bytes a directory candidate will hold, added up to the largest `u64`.
pub open spec fn directory_work_bytes(
    files: Seq<(String, u64)>,
    marked: Seq<Seq<char>>,
    rewrites: DatabaseRewrites,
    rewrite_bytes: Seq<u64>,
) -> int
    decreases files.len(),
{
    if files.len() == 0 {
        0
    } else {
        crate::server::sat_add_u64(
            directory_work_bytes(files.drop_last(), marked, rewrites, rewrite_bytes),
            written_bytes(files.last().0@, files.last().1, marked, rewrites, rewrite_bytes),
        )
    }
}

/// The work of writing a directory candidate: how many files the source
/// holds, and how many bytes the candidate will hold. `files` are the
/// source's files with their sizes; `rewrite_bytes` the sizes of the
/// cleaned copies, one per rewrite.
pub fn catalog_directory_work(
    files: &Vec<(String, u64)>,
    marked: &Vec<String>,
    rewrites: &DatabaseRewrites,
    rewrite_bytes: &Vec<u64>,
) -> (r: (u64, u64))
    requires
        rewrites.wf(),
        rewrite_bytes.len() == rewrites.entries.len(),
    ensures
        r.0 == files.len(),
        r.1 == directory_work_bytes(files@, string_views(marked@), *rewrites, rewrite_bytes@),
{
    let ghost ms = string_views(marked@);
    let mut bytes: u64 = 0;
    let mut i: usize = 0;
    while i < files.len()
        invariant
            i <= files.len(),
            rewrites.wf(),
            rewrite_bytes.len() == rewrites.entries.len(),
            ms == string_views(marked@),
            bytes == directory_work_bytes(files@.take(i as int), ms, *rewrites, rewrite_bytes@),
        decreases files.len() - i,
    {
        assert(files@.take(i + 1).drop_last() =~= files@.take(i as int));
        assert(files@.take(i + 1).last() == files@[i as int]);
        let name = files[i].0.as_str();
        let size = files[i].1;
        if !holds_name(marked, name) && !holds_name(&rewrites.skipped_sidecars, name) {
            match rewrite_position(&rewrites.entries, name) {
                Some(k) => {
                    proof {
                        let ns = rewrite_names(rewrites.entries@);
                        assert(ns[k as int] == name@);
                        ns.index_of_first_ensures(name@);
                        assert(ns.contains(name@));
                        assert(ns.index_of(name@) == k as int) by {
                            let q = ns.index_of(name@);
                            assert(ns[q] == name@);
                        }
                    }
                    bytes = bytes.saturating_add(rewrite_bytes[k]);
                },
                None => {
                    bytes = bytes.saturating_add(size);
                },
            }
        }
        i = i + 1;
    }
    assert(files@.take(files.len() as int) =~= files@);
    (files.len() as u64, bytes)
}

/// The components a path compares by: a root marker for an absolute path,
/// then its non-empty components other than `.`.
pub open spec fn path_parts(p: Seq<char>) -> Seq<Seq<char>> {
    (if p.len() > 0 && p[0] == '/' {
        seq!["/"@]
    } else {
        seq![]
    }) + kept_parts(text::split(p, '/'))
}

/// `parts` without empty and `.` components.
pub open spec fn kept_parts(parts: Seq<Seq<char>>) -> Seq<Seq<char>>
    decreases parts.len(),
{
    if parts.len() == 0 {
        seq![]
    } else {
        let prev = kept_parts(parts.drop_last());
        if parts.last().len() == 0 || parts.last() == "."@ {
            prev
        } else {
            prev.push(parts.last())
        }
    }
}

/// The file name of a path: its last component unless that is the root
/// or `..`; else nothing.
pub open spec fn path_file_name(p: Seq<char>) -> Seq<char> {
    let parts = path_parts(p);
    if parts.len() == 0 || parts.last() == "/"@ || parts.last() == ".."@ {
        Seq::empty()
    } else {
        parts.last()
    }
}

fn path_parts_of(p: &str) -> (r: Vec<Vec<char>>)
    ensures
        text::views(r@) == path_parts(p@),
{
    let chars = text::chars_of(p);
    let pieces = text::split_on(&chars, '/');
    let mut out: Vec<Vec<char>> = Vec::new();
    if chars.len() > 0 && chars[0] == '/' {
        out.push(text::chars_of("/"));
    }
    let ghost start = text::views(out@);
    let dot = text::chars_of(".");
    let mut i: usize = 0;
    while i < pieces.len()
        invariant
            i <= pieces.len(),
            dot@ == "."@,
            text::views(pieces@) == text::split(p@, '/'),
            text::views(out@) == start + kept_parts(text::views(pieces@).take(i as int)),
        decreases pieces.len() - i,
    {
        let ghost vs = text::views(pieces@);
        assert(vs.take(i + 1).drop_last() =~= vs.take(i as int));
        assert(vs.take(i + 1).last() == pieces@[i as int]@);
        if pieces[i].len() > 0 && !text::eq_chars(&pieces[i], &dot) {
            let ghost before = text::views(out@);
            out.push(text::copy_chars(&pieces[i]));
            assert(text::views(out@) =~= before.push(pieces@[i as int]@));
        }
        i = i + 1;
    }
    assert(text::views(pieces@).take(pieces.len() as int) =~= text::views(pieces@));
    assert(text::views(out@) =~= path_parts(p@));
    out
}

/// The file name of a path, as `Path::file_name` gives it; empty when
/// there is none.
pub fn file_name_of(path: &str) -> (r: Vec<char>)
    ensures
        r@ == path_file_name(path@),
{
    let o = path_parts_of(path);
    if o.len() == 0 {
        Vec::new()
    } else {
        let last = &o[o.len() - 1];
        assert(text::views(o@).last() == last@);
        if text::eq_str(last, "/") || text::eq_str(last, "..") {
            Vec::new()
        } else {
            text::copy_chars(last)
        }
    }
}

fn same_parts(a: &Vec<Vec<char>>, b: &Vec<Vec<char>>, n: usize) -> (r: bool)
    requires
        n <= a.len(),
        n <= b.len(),
    ensures
        r == (text::views(a@).take(n as int) == text::views(b@).take(n as int)),
{
    let mut i: usize = 0;
    while i < n
        invariant
            i <= n,
            n <= a.len(),
            n <= b.len(),
            text::views(a@).take(i as int) == text::views(b@).take(i as int),
        decreases n - i,
    {
        if !text::eq_chars(&a[i], &b[i]) {
            proof {
                assert(text::views(a@).take(n as int)[i as int] == a@[i as int]@);
                assert(text::views(b@).take(n as int)[i as int] == b@[i as int]@);
            }
            return false;
        }
        assert(text::views(a@).take(i + 1) =~= text::views(a@).take(i as int).push(a@[i as int]@));
        assert(text::views(b@).take(i + 1) =~= text::views(b@).take(i as int).push(b@[i as int]@));
        i = i + 1;
    }
    true
}

/// Why a candidate may not be written at `output`, checked in this order:
/// it exists; it is the source; a directory source's candidate lies inside
/// the source; its name lacks the `.imazingapp` ending.
pub open spec fn output_refusal(
    source: Seq<char>,
    output: Seq<char>,
    output_exists: bool,
    kind: SourceKind,
) -> Option<CoreError> {
    let s = path_parts(source);
    let o = path_parts(output);
    let name = text::lower_ascii(path_file_name(output));
    if output_exists {
        Some(CoreError::OutputExists)
    } else if s == o {
        Some(CoreError::OutputIsSource)
    } else if kind == SourceKind::Directory && s.len() <= o.len() && o.take(s.len() as int) == s {
        Some(CoreError::OutputInsideSource)
    } else if !text::ends_with(name, ".imazingapp"@) && !text::ends_with(name, ".imazingapp.candidate"@) {
        Some(CoreError::CandidateOutputName)
    } else {
        None
    }
}

/// Checks where a candidate is written; paths compare by their components,
/// and `output` is absolute.
pub fn validate_output(source: &str, output: &str, output_exists: bool, kind: SourceKind) -> (r: Result<
    (),
    CoreError,
>)
    ensures
        match output_refusal(source@, output@, output_exists, kind) {
            Some(e) => r == Err::<(), CoreError>(e),
            None => r is Ok,
        },
{
    if output_exists {
        return Err(CoreError::OutputExists);
    }
    let s = path_parts_of(source);
    let o = path_parts_of(output);
    if s.len() == o.len() && same_parts(&s, &o, s.len()) {
        assert(text::views(s@).take(s.len() as int) =~= text::views(s@));
        assert(text::views(o@).take(o.len() as int) =~= text::views(o@));
        return Err(CoreError::OutputIsSource);
    }
    proof {
        if text::views(s@) == text::views(o@) {
            assert(text::views(s@).take(s.len() as int) =~= text::views(s@));
            assert(text::views(o@).take(o.len() as int) =~= text::views(o@));
        }
    }
    if kind == SourceKind::Directory && s.len() <= o.len() && same_parts(&s, &o, s.len()) {
        assert(text::views(s@).take(s.len() as int) =~= text::views(s@));
        return Err(CoreError::OutputInsideSource);
    }
    proof {
        if kind == SourceKind::Directory && s.len() <= o.len() && text::views(o@).take(s.len() as int)
            == text::views(s@) {
            assert(text::views(s@).take(s.len() as int) =~= text::views(s@));
        }
    }
    let name = file_name_of(output);
    assert(name@ == path_file_name(output@));
    if !paths::candidate_output_name_ok(text::string_of(&name).as_str()) {
        return Err(CoreError::CandidateOutputName);
    }
    Ok(())
}

/// Refuses a direct `Line.sqlite` as the source of a candidate: only a
/// complete backup can become an archive.
pub fn require_backup_source(kind: SourceKind) -> (r: Result<(), CoreError>)
    ensures
        kind == SourceKind::Sqlite ==> r == Err::<(), CoreError>(CoreError::SqliteIsNotBackup),
        kind != SourceKind::Sqlite ==> r is Ok,
{
    match kind {
        SourceKind::Sqlite => Err(CoreError::SqliteIsNotBackup),
        _ => Ok(()),
    }
}

// ---------------------------------------------------------------------
// The report of a finished candidate
// ---------------------------------------------------------------------

/// The size from which a ZIP entry or archive needs ZIP64 records
/// (`zip::ZIP64_BYTES_THR`, the largest `u32`).
#[verifier::external_body]
fn zip64_bytes_threshold() -> (r: u64)
    ensures
        r == 0xFFFF_FFFFu64,
{
    zip::ZIP64_BYTES_THR
}

/// Whether a candidate of `output_bytes` bytes and `output_entries`
/// entries uses ZIP64 records.
pub fn uses_zip64(output_bytes: u64, output_entries: u64) -> (r: bool)
    ensures
        r == (output_bytes >= 0xFFFF_FFFFu64 || output_entries >= 0xFFFFu64),
{
    output_bytes >= zip64_bytes_threshold() || output_entries >= 0xFFFFu64
}

/// The warning when a candidate holds duplicate links.
pub open spec fn link_warning_text() -> Seq<char> {
    "duplicate attachments use relative symbolic links; verify iMazing restore compatibility before relying on this candidate"@
}

/// The warning for a candidate built from a directory.
pub open spec fn directory_warning_text() -> Seq<char> {
    "directory sources are stored without compression; ZIP metadata may differ from iMazing"@
}

/// The warnings of a candidate: those about the source (for a directory,
/// that it is stored without compression), those of the database rewrites,
/// and one about links when the candidate holds any.
pub open spec fn candidate_warnings(
    kind: SourceKind,
    source_warnings: Seq<Seq<char>>,
    rewrite_warnings: Seq<Seq<char>>,
    linked: bool,
) -> Seq<Seq<char>> {
    (if kind == SourceKind::Directory {
        seq![directory_warning_text()]
    } else {
        source_warnings
    }) + rewrite_warnings + (if linked {
        seq![link_warning_text()]
    } else {
        seq![]
    })
}

fn clone_strings(v: &Vec<String>) -> (r: Vec<String>)
    ensures
        string_views(r@) == string_views(v@),
{
    let mut out: Vec<String> = Vec::new();
    let mut i: usize = 0;
    while i < v.len()
        invariant
            i <= v.len(),
            string_views(out@) == string_views(v@).take(i as int),
        decreases v.len() - i,
    {
        let ghost before = out@;
        out.push(v[i].clone());
        assert(string_views(out@) =~= string_views(before).push(v@[i as int]@));
        assert(string_views(v@).take(i + 1) =~= string_views(v@).take(i as int).push(v@[i as int]@));
        i = i + 1;
    }
    assert(string_views(v@).take(v.len() as int) =~= string_views(v@));
    out
}

fn append_strings(out: &mut Vec<String>, v: &Vec<String>)
    ensures
        string_views(final(out)@) == string_views(old(out)@) + string_views(v@),
{
    let mut i: usize = 0;
    while i < v.len()
        invariant
            i <= v.len(),
            string_views(out@) == string_views(old(out)@) + string_views(v@).take(i as int),
        decreases v.len() - i,
    {
        let ghost before = out@;
        out.push(v[i].clone());
        assert(string_views(out@) =~= string_views(before).push(v@[i as int]@));
        assert(string_views(v@).take(i + 1) =~= string_views(v@).take(i as int).push(v@[i as int]@));
        i = i + 1;
    }
    assert(string_views(v@).take(v.len() as int) =~= string_views(v@));
}

/// What the writing of a candidate found, for its report.
#[derive(Debug, Clone)]
pub struct CandidateOutcome {
    pub kind: SourceKind,
    pub input_entries: u64,
    pub output_bytes: u64,
    pub full_crc: bool,
    /// Protected entries of the source.
    pub protected_names: Vec<String>,
    /// Warnings about the source archive.
    pub source_warnings: Vec<String>,
}

/// The report of a finished candidate. Source and output paths are left
/// empty for the caller to fill.
pub fn candidate_report(
    outcome: &CandidateOutcome,
    tally: &BuildTally,
    rewrites: &DatabaseRewrites,
    links: &DuplicateSymlinkPlan,
) -> (r: CandidateReport)
    requires
        tally.removed_found.len() + tally.skipped_sidecars_found <= u64::MAX,
        chats_removed(rewrites.entries@) <= u64::MAX,
        messages_removed(rewrites.entries@) <= u64::MAX,
        linked_total(links.links@) <= u64::MAX,
    ensures
        r.source_path@.len() == 0,
        r.output_path@.len() == 0,
        r.input_entries == outcome.input_entries,
        r.output_entries == tally.output_entries,
        r.removed_entries == tally.removed_found.len() + tally.skipped_sidecars_found,
        r.removed_chats == chats_removed(rewrites.entries@),
        r.removed_messages == messages_removed(rewrites.entries@),
        r.linked_duplicate_entries == links.links.len(),
        r.linked_duplicate_bytes == linked_total(links.links@),
        order::sorted_texts(string_views(r.rewritten_databases@)),
        string_views(r.rewritten_databases@).to_multiset() == rewrite_names(rewrites.entries@).to_multiset(),
        r.output_bytes == outcome.output_bytes,
        r.used_zip64 == (outcome.output_bytes >= 0xFFFF_FFFFu64 || tally.output_entries >= 0xFFFFu64),
        r.full_crc_verified == outcome.full_crc,
        order::sorted_texts(string_views(r.protected_entries_verified@)),
        string_views(r.protected_entries_verified@).to_multiset() == kept_protected(
            string_views(outcome.protected_names@),
            *rewrites,
        ).to_multiset(),
        string_views(r.warnings@) == candidate_warnings(
            outcome.kind,
            string_views(outcome.source_warnings@),
            string_views(rewrites.warnings@),
            links.links.len() > 0,
        ),
{
    let mut warnings: Vec<String> = match outcome.kind {
        SourceKind::Directory => {
            let mut w: Vec<String> = Vec::new();
            w.push(
                text::to_string(
                    "directory sources are stored without compression; ZIP metadata may differ from iMazing",
                ),
            );
            w
        },
        _ => clone_strings(&outcome.source_warnings),
    };
    append_strings(&mut warnings, &rewrites.warnings);
    let linked = links.linked_entries();
    if linked > 0 {
        let ghost before = string_views(warnings@);
        warnings.push(
            text::to_string(
                "duplicate attachments use relative symbolic links; verify iMazing restore compatibility before relying on this candidate",
            ),
        );
        assert(string_views(warnings@) =~= before.push(link_warning_text()));
    }
    assert(string_views(warnings@) =~= candidate_warnings(
        outcome.kind,
        string_views(outcome.source_warnings@),
        string_views(rewrites.warnings@),
        links.links.len() > 0,
    ));
    CandidateReport {
        source_path: String::new(),
        output_path: String::new(),
        input_entries: outcome.input_entries,
        output_entries: tally.output_entries,
        removed_entries: tally.removed_found.len() as u64 + tally.skipped_sidecars_found,
        removed_chats: rewrites.removed_chats(),
        removed_messages: rewrites.removed_messages(),
        linked_duplicate_entries: linked,
        linked_duplicate_bytes: links.linked_bytes(),
        rewritten_databases: rewrites.rewritten_names(),
        output_bytes: outcome.output_bytes,
        used_zip64: uses_zip64(outcome.output_bytes, tally.output_entries),
        full_crc_verified: outcome.full_crc,
        protected_entries_verified: protected_entries_to_verify(&outcome.protected_names, rewrites),
        warnings,
    }
}

// ---------------------------------------------------------------------
// Laws of a candidate
// ---------------------------------------------------------------------

/// An entry the candidate writes (a folder, a rewritten database, a link
/// or a copy) is never a marked removal nor a stale sidecar.
pub proof fn lemma_written_entries_are_kept(
    r: EntryAction,
    name: Seq<char>,
    is_dir: bool,
    marked: Seq<Seq<char>>,
    rewrites: DatabaseRewrites,
    links: Seq<DuplicateSymlink>,
)
    requires
        entry_action_ok(r, name, is_dir, marked, rewrites, links),
        r != EntryAction::Remove,
        r != EntryAction::SkipSidecar,
        !is_dir,
    ensures
        !marked.contains(name),
        !string_views(rewrites.skipped_sidecars@).contains(name),
{
}

/// Every link of a planned set of links leads to its target: following the
/// link text from the link's folder arrives at the target entry.
pub open spec fn links_resolve(links: Seq<(Seq<char>, Seq<char>, Seq<char>, u64)>) -> bool {
    forall|k: int|
        0 <= k < links.len() ==> {
            &&& paths::safe_archive_path((#[trigger] links[k]).0)
            &&& paths::safe_archive_path(links[k].1)
            &&& links[k].2 == link_text(links[k].0, links[k].1)
            &&& paths::resolve(text::split(links[k].0, '/').drop_last(), text::split(links[k].2, '/'))
                == text::split(links[k].1, '/')
        }
}

proof fn lemma_keyed_insert_resolves(
    links: Seq<(Seq<char>, Seq<char>, Seq<char>, u64)>,
    x: (Seq<char>, Seq<char>, Seq<char>, u64),
)
    requires
        links_resolve(links),
        links_resolve(seq![x]),
    ensures
        links_resolve(keyed_insert(links, x)),
{
    let out = keyed_insert(links, x);
    assert(seq![x][0] == x);
    assert forall|k: int| 0 <= k < out.len() implies {
        &&& paths::safe_archive_path((#[trigger] out[k]).0)
        &&& paths::safe_archive_path(out[k].1)
        &&& out[k].2 == link_text(out[k].0, out[k].1)
        &&& paths::resolve(text::split(out[k].0, '/').drop_last(), text::split(out[k].2, '/'))
            == text::split(out[k].1, '/')
    } by {
        if out[k] != x {
            if exists|i: int| 0 <= i < links.len() && links[i].0 == x.0 {
                let c = choose|i: int| 0 <= i < links.len() && links[i].0 == x.0;
                assert(out[k] == links[k]);
            } else {
                assert(out[k] == links[k]);
            }
        }
    }
}

/// The links a successful plan holds all lead to their targets.
pub proof fn lemma_planned_links_resolve(rows: Seq<(Seq<char>, Seq<char>, u64)>)
    requires
        forall|i: int| 0 <= i < rows.len() ==> link_ok(#[trigger] rows[i].0, rows[i].1),
    ensures
        links_resolve(planned_links(rows)),
    decreases rows.len(),
{
    if rows.len() > 0 {
        let front = rows.drop_last();
        assert forall|i: int| 0 <= i < front.len() implies link_ok(#[trigger] front[i].0, front[i].1) by {
            assert(front[i] == rows[i]);
        }
        lemma_planned_links_resolve(front);
        let r = rows.last();
        assert(link_ok(rows[rows.len() - 1].0, rows[rows.len() - 1].1));
        let x = (r.0, r.1, link_text(r.0, r.1), r.2);
        paths::lemma_relative_link_resolves(r.0, r.1);
        paths::lemma_relative_link_text(r.0, r.1);
        assert(links_resolve(seq![x])) by {
            assert(seq![x][0] == x);
        }
        lemma_keyed_insert_resolves(planned_links(front), x);
    }
}

/// What `plan_duplicate_symlinks` plans for `groups` leads every linked
/// entry to the first member of its group.
pub proof fn lemma_duplicate_links_resolve(groups: Seq<Vec<DuplicateLinkMember>>)
    requires
        forall|i: int|
            0 <= i < link_rows(groups).len() ==> link_ok(
                #[trigger] link_rows(groups)[i].0,
                link_rows(groups)[i].1,
            ),
    ensures
        links_resolve(planned_links(link_rows(groups))),
{
    lemma_planned_links_resolve(link_rows(groups));
}

} // verus!
