//! Decisions of the request server: the safety review run before a
//! cleanup candidate is built, the counts of the database-level cleanup
//! report, request defaults, and the bounded reading of request lines.

use vstd::prelude::*;

use crate::error::CoreError;
use crate::model::{
    AdvancedCleanupReport, Chat, CleanupCategoryTotal, CleanupOverview, CleanupPreflightReport,
    CleanupRisk, DEFAULT_PAGE_SIZE,
};
use crate::source::{source_kind_name, SourceKind};
use crate::text;

verus! {

// ---------------------------------------------------------------------
// Cleanup preflight
// ---------------------------------------------------------------------

/// What the preflight review looks at, gathered by the caller from the
/// source database and the catalog.
#[derive(Debug, Clone)]
pub struct PreflightFacts {
    pub source_kind: SourceKind,
    pub source_read_only: bool,
    pub quick_check: String,
    pub catalog_source_current: bool,
    pub scan_status: String,
    pub overview: CleanupOverview,
    /// The running job as its kind and id.
    pub active_job: Option<(String, String)>,
    pub wal_present: bool,
    pub shm_present: bool,
}

/// The risks the preflight review can raise.
#[derive(Debug, Clone, Copy, PartialEq, Eq, Structural)]
pub enum PreflightRisk {
    SourceWritable,
    SqliteCheck,
    CatalogStale,
    ScanIncomplete,
    ContextIncomplete,
    SqliteCompanion,
    UnreferencedFiles,
    UnconfirmedFiles,
    ActiveJob,
    NothingMarked,
}

/// File count and bytes of the first category total named `name`, zero
/// when there is none.
pub open spec fn category_total(cats: Seq<CleanupCategoryTotal>, name: Seq<char>) -> (u64, u64)
    decreases cats.len(),
{
    if cats.len() == 0 {
        (0, 0)
    } else if cats[0].category@ == name {
        (cats[0].file_count, cats[0].bytes)
    } else {
        category_total(cats.drop_first(), name)
    }
}

/// The running job as `kind:id`.
pub open spec fn job_label(job: (String, String)) -> Seq<char> {
    job.0@ + ":"@ + job.1@
}

/// `k` alone when `raised`, else nothing.
pub open spec fn risk_if(raised: bool, k: PreflightRisk) -> Seq<PreflightRisk> {
    if raised {
        seq![k]
    } else {
        seq![]
    }
}

/// The risks raised for `f`, in the order they are reported.
#[verifier::opaque]
pub open spec fn preflight_risks(f: PreflightFacts) -> Seq<PreflightRisk> {
    risk_if(!f.source_read_only, PreflightRisk::SourceWritable) + risk_if(
        !text::eq_ignore_case(f.quick_check@, "ok"@),
        PreflightRisk::SqliteCheck,
    ) + risk_if(!f.catalog_source_current, PreflightRisk::CatalogStale) + risk_if(
        f.scan_status@ != "complete"@,
        PreflightRisk::ScanIncomplete,
    ) + risk_if(f.overview.context_status@ != "complete"@, PreflightRisk::ContextIncomplete)
        + risk_if(f.wal_present || f.shm_present, PreflightRisk::SqliteCompanion) + risk_if(
        category_total(f.overview.categories@, "unreferenced"@).0 > 0,
        PreflightRisk::UnreferencedFiles,
    ) + risk_if(
        category_total(f.overview.categories@, "unconfirmed"@).0 > 0,
        PreflightRisk::UnconfirmedFiles,
    ) + risk_if(f.active_job is Some, PreflightRisk::ActiveJob) + risk_if(
        f.overview.marked_count == 0,
        PreflightRisk::NothingMarked,
    )
}

/// The code of a risk.
pub open spec fn risk_code(k: PreflightRisk) -> Seq<char> {
    match k {
        PreflightRisk::SourceWritable => "source-writable"@,
        PreflightRisk::SqliteCheck => "sqlite-check"@,
        PreflightRisk::CatalogStale => "catalog-stale"@,
        PreflightRisk::ScanIncomplete => "scan-incomplete"@,
        PreflightRisk::ContextIncomplete => "context-incomplete"@,
        PreflightRisk::SqliteCompanion => "sqlite-companion"@,
        PreflightRisk::UnreferencedFiles => "unreferenced-files"@,
        PreflightRisk::UnconfirmedFiles => "unconfirmed-files"@,
        PreflightRisk::ActiveJob => "active-job"@,
        PreflightRisk::NothingMarked => "nothing-marked"@,
    }
}

/// Whether a risk stops a candidate build.
pub open spec fn blocks(k: PreflightRisk) -> bool {
    match k {
        PreflightRisk::SourceWritable | PreflightRisk::SqliteCheck | PreflightRisk::CatalogStale
        | PreflightRisk::ScanIncomplete | PreflightRisk::ContextIncomplete => true,
        _ => false,
    }
}

/// Whether a risk is a warning: neither blocking nor the note that
/// nothing is marked.
pub open spec fn warns(k: PreflightRisk) -> bool {
    !blocks(k) && k != PreflightRisk::NothingMarked
}

/// How serious a risk is.
pub open spec fn risk_severity(k: PreflightRisk) -> Seq<char> {
    if blocks(k) {
        "blocker"@
    } else if warns(k) {
        "warning"@
    } else {
        "info"@
    }
}

/// The title of a risk.
pub open spec fn risk_title(k: PreflightRisk) -> Seq<char> {
    match k {
        PreflightRisk::SourceWritable => "來源資料庫不是唯讀"@,
        PreflightRisk::SqliteCheck => "SQLite 完整性檢查未通過"@,
        PreflightRisk::CatalogStale => "附件索引與目前來源不一致"@,
        PreflightRisk::ScanIncomplete => "附件掃描尚未完成"@,
        PreflightRisk::ContextIncomplete => "訊息與附件的交叉確認尚未完成"@,
        PreflightRisk::SqliteCompanion => "來源旁仍有 SQLite 暫存檔"@,
        PreflightRisk::UnreferencedFiles => "有 SQLite 未引用附件"@,
        PreflightRisk::UnconfirmedFiles => "有無法確認來源的附件"@,
        PreflightRisk::ActiveJob => "仍有原生工作正在執行"@,
        PreflightRisk::NothingMarked => "目前沒有已標記的清理項目"@,
    }
}

/// The explanation of a risk for `f`.
pub open spec fn risk_detail(k: PreflightRisk, f: PreflightFacts) -> Seq<char> {
    match k {
        PreflightRisk::SourceWritable => "為避免清理流程改寫原始備份，請先關閉可能正在使用來源資料庫的程式。"@,
        PreflightRisk::SqliteCheck => "quick_check 回報："@ + f.quick_check@
            + "。建立候選檔前請先保留來源並修復資料庫。"@,
        PreflightRisk::CatalogStale => "來源檔案可能在掃描後變更；請重新掃描附件，完成後再建立候選檔。"@,
        PreflightRisk::ScanIncomplete => "目前掃描狀態為 "@ + f.scan_status@ + "，尚未取得完整檔案清單。"@,
        PreflightRisk::ContextIncomplete => "目前脈絡索引狀態為 "@ + f.overview.context_status@
            + "；未完成前不會把不明檔案視為安全候選。"@,
        PreflightRisk::SqliteCompanion => "來源旁存在 -wal 或 -shm；請確認 LINE 與備份工具已停止寫入，再依目前快照清理。"@,
        PreflightRisk::UnreferencedFiles => "這些檔案可能是索引遺漏，也可能是可清理殘留；只能列入人工複核，不會由安全自動規則處理。"@,
        PreflightRisk::UnconfirmedFiles => "無法把這些檔案安全對應到訊息；建立候選檔前請逐項查看路徑與內容。"@,
        PreflightRisk::ActiveJob => "目前工作："@ + (match f.active_job {
            Some(job) => job_label(job),
            None => Seq::empty(),
        }) + "。請等待完成後再建立候選檔。"@,
        PreflightRisk::NothingMarked => "可以先查看清理方案預演，或從聊天室逐項選取附件。"@,
    }
}

/// Files and bytes a risk speaks of.
pub open spec fn risk_amount(k: PreflightRisk, f: PreflightFacts) -> (u64, u64) {
    match k {
        PreflightRisk::UnreferencedFiles => category_total(f.overview.categories@, "unreferenced"@),
        PreflightRisk::UnconfirmedFiles => category_total(f.overview.categories@, "unconfirmed"@),
        _ => (0, 0),
    }
}

/// `r` is the report of risk `k` for `f`.
#[verifier::opaque]
pub open spec fn risk_is(r: CleanupRisk, k: PreflightRisk, f: PreflightFacts) -> bool {
    &&& r.code@ == risk_code(k)
    &&& r.severity@ == risk_severity(k)
    &&& r.title@ == risk_title(k)
    &&& r.detail@ == risk_detail(k, f)
    &&& (r.file_count, r.bytes) == risk_amount(k, f)
}

/// How many risks in `ks` block (`blocking`) or warn (otherwise).
pub open spec fn severity_count(ks: Seq<PreflightRisk>, blocking: bool) -> int
    decreases ks.len(),
{
    if ks.len() == 0 {
        0
    } else {
        severity_count(ks.drop_last(), blocking) + if (if blocking {
            blocks(ks.last())
        } else {
            warns(ks.last())
        }) {
            1int
        } else {
            0
        }
    }
}

proof fn lemma_category_total_first(cats: Seq<CleanupCategoryTotal>, name: Seq<char>, j: int)
    requires
        0 <= j < cats.len(),
        cats[j].category@ == name,
        forall|q: int| 0 <= q < j ==> (#[trigger] cats[q]).category@ != name,
    ensures
        category_total(cats, name) == (cats[j].file_count, cats[j].bytes),
    decreases j,
{
    if j > 0 {
        let d = cats.drop_first();
        assert(cats[0].category@ != name);
        assert forall|q: int| 0 <= q < j - 1 implies (#[trigger] d[q]).category@ != name by {
            assert(d[q] == cats[q + 1]);
        }
        assert(d[j - 1] == cats[j]);
        lemma_category_total_first(d, name, j - 1);
    }
}

proof fn lemma_category_total_absent(cats: Seq<CleanupCategoryTotal>, name: Seq<char>)
    requires
        forall|q: int| 0 <= q < cats.len() ==> (#[trigger] cats[q]).category@ != name,
    ensures
        category_total(cats, name) == (0u64, 0u64),
    decreases cats.len(),
{
    if cats.len() > 0 {
        let d = cats.drop_first();
        assert(cats[0].category@ != name);
        assert forall|q: int| 0 <= q < d.len() implies (#[trigger] d[q]).category@ != name by {
            assert(d[q] == cats[q + 1]);
        }
        lemma_category_total_absent(d, name);
    }
}

proof fn lemma_contains_concat(a: Seq<PreflightRisk>, b: Seq<PreflightRisk>, x: PreflightRisk)
    ensures
        (a + b).contains(x) <==> (a.contains(x) || b.contains(x)),
{
    if (a + b).contains(x) {
        let i = choose|i: int| 0 <= i < (a + b).len() && (a + b)[i] == x;
        if i < a.len() {
            assert(a[i] == x);
        } else {
            assert(b[i - a.len()] == x);
        }
    }
    if a.contains(x) {
        let i = choose|i: int| 0 <= i < a.len() && a[i] == x;
        assert((a + b)[i] == x);
    }
    if b.contains(x) {
        let i = choose|i: int| 0 <= i < b.len() && b[i] == x;
        assert((a + b)[a.len() + i] == x);
    }
}

proof fn lemma_risk_if_contains(raised: bool, k: PreflightRisk, x: PreflightRisk)
    ensures
        risk_if(raised, k).contains(x) <==> (raised && k == x),
{
    if raised {
        assert(risk_if(raised, k)[0] == k);
    }
}

/// Whether the review raises `x` for `f`.
proof fn lemma_raised(f: PreflightFacts, x: PreflightRisk)
    ensures
        preflight_risks(f).contains(x) <==> match x {
            PreflightRisk::SourceWritable => !f.source_read_only,
            PreflightRisk::SqliteCheck => !text::eq_ignore_case(f.quick_check@, "ok"@),
            PreflightRisk::CatalogStale => !f.catalog_source_current,
            PreflightRisk::ScanIncomplete => f.scan_status@ != "complete"@,
            PreflightRisk::ContextIncomplete => f.overview.context_status@ != "complete"@,
            PreflightRisk::SqliteCompanion => f.wal_present || f.shm_present,
            PreflightRisk::UnreferencedFiles => category_total(f.overview.categories@, "unreferenced"@).0 > 0,
            PreflightRisk::UnconfirmedFiles => category_total(f.overview.categories@, "unconfirmed"@).0 > 0,
            PreflightRisk::ActiveJob => f.active_job is Some,
            PreflightRisk::NothingMarked => f.overview.marked_count == 0,
        },
{
    reveal(preflight_risks);
    let a0 = risk_if(!f.source_read_only, PreflightRisk::SourceWritable);
    let a1 = risk_if(!text::eq_ignore_case(f.quick_check@, "ok"@), PreflightRisk::SqliteCheck);
    let a2 = risk_if(!f.catalog_source_current, PreflightRisk::CatalogStale);
    let a3 = risk_if(f.scan_status@ != "complete"@, PreflightRisk::ScanIncomplete);
    let a4 = risk_if(f.overview.context_status@ != "complete"@, PreflightRisk::ContextIncomplete);
    let a5 = risk_if(f.wal_present || f.shm_present, PreflightRisk::SqliteCompanion);
    let a6 = risk_if(
        category_total(f.overview.categories@, "unreferenced"@).0 > 0,
        PreflightRisk::UnreferencedFiles,
    );
    let a7 = risk_if(
        category_total(f.overview.categories@, "unconfirmed"@).0 > 0,
        PreflightRisk::UnconfirmedFiles,
    );
    let a8 = risk_if(f.active_job is Some, PreflightRisk::ActiveJob);
    let a9 = risk_if(f.overview.marked_count == 0, PreflightRisk::NothingMarked);
    assert(preflight_risks(f) == a0 + a1 + a2 + a3 + a4 + a5 + a6 + a7 + a8 + a9);
    lemma_contains_concat(a0, a1, x);
    lemma_contains_concat(a0 + a1, a2, x);
    lemma_contains_concat(a0 + a1 + a2, a3, x);
    lemma_contains_concat(a0 + a1 + a2 + a3, a4, x);
    lemma_contains_concat(a0 + a1 + a2 + a3 + a4, a5, x);
    lemma_contains_concat(a0 + a1 + a2 + a3 + a4 + a5, a6, x);
    lemma_contains_concat(a0 + a1 + a2 + a3 + a4 + a5 + a6, a7, x);
    lemma_contains_concat(a0 + a1 + a2 + a3 + a4 + a5 + a6 + a7, a8, x);
    lemma_contains_concat(a0 + a1 + a2 + a3 + a4 + a5 + a6 + a7 + a8, a9, x);
    lemma_risk_if_contains(!f.source_read_only, PreflightRisk::SourceWritable, x);
    lemma_risk_if_contains(!text::eq_ignore_case(f.quick_check@, "ok"@), PreflightRisk::SqliteCheck, x);
    lemma_risk_if_contains(!f.catalog_source_current, PreflightRisk::CatalogStale, x);
    lemma_risk_if_contains(f.scan_status@ != "complete"@, PreflightRisk::ScanIncomplete, x);
    lemma_risk_if_contains(f.overview.context_status@ != "complete"@, PreflightRisk::ContextIncomplete, x);
    lemma_risk_if_contains(f.wal_present || f.shm_present, PreflightRisk::SqliteCompanion, x);
    lemma_risk_if_contains(
        category_total(f.overview.categories@, "unreferenced"@).0 > 0,
        PreflightRisk::UnreferencedFiles,
        x,
    );
    lemma_risk_if_contains(
        category_total(f.overview.categories@, "unconfirmed"@).0 > 0,
        PreflightRisk::UnconfirmedFiles,
        x,
    );
    lemma_risk_if_contains(f.active_job is Some, PreflightRisk::ActiveJob, x);
    lemma_risk_if_contains(f.overview.marked_count == 0, PreflightRisk::NothingMarked, x);
}

/// Law: the review warns of unconfirmed files exactly when the overview's
/// first category named `unconfirmed` holds a file, and the warning
/// reports that category's files and bytes; with no such category it is
/// never raised. The same holds of unreferenced files and the
/// `unreferenced` category.
pub proof fn lemma_unconfirmed_and_unreferenced_risks_follow_their_categories(f: PreflightFacts)
    ensures
        warns(PreflightRisk::UnconfirmedFiles),
        warns(PreflightRisk::UnreferencedFiles),
        forall|j: int|
            0 <= j < f.overview.categories@.len() && (#[trigger] f.overview.categories@[j]).category@
                == "unconfirmed"@ && (forall|q: int|
                0 <= q < j ==> f.overview.categories@[q].category@ != "unconfirmed"@) ==> {
                &&& preflight_risks(f).contains(PreflightRisk::UnconfirmedFiles)
                    <==> f.overview.categories@[j].file_count > 0
                &&& risk_amount(PreflightRisk::UnconfirmedFiles, f) == (
                    f.overview.categories@[j].file_count,
                    f.overview.categories@[j].bytes,
                )
            },
        (forall|q: int|
            0 <= q < f.overview.categories@.len() ==> f.overview.categories@[q].category@
                != "unconfirmed"@) ==> !preflight_risks(f).contains(PreflightRisk::UnconfirmedFiles),
        forall|j: int|
            0 <= j < f.overview.categories@.len() && (#[trigger] f.overview.categories@[j]).category@
                == "unreferenced"@ && (forall|q: int|
                0 <= q < j ==> f.overview.categories@[q].category@ != "unreferenced"@) ==> {
                &&& preflight_risks(f).contains(PreflightRisk::UnreferencedFiles)
                    <==> f.overview.categories@[j].file_count > 0
                &&& risk_amount(PreflightRisk::UnreferencedFiles, f) == (
                    f.overview.categories@[j].file_count,
                    f.overview.categories@[j].bytes,
                )
            },
        (forall|q: int|
            0 <= q < f.overview.categories@.len() ==> f.overview.categories@[q].category@
                != "unreferenced"@) ==> !preflight_risks(f).contains(PreflightRisk::UnreferencedFiles),
{
    let cats = f.overview.categories@;
    lemma_raised(f, PreflightRisk::UnconfirmedFiles);
    lemma_raised(f, PreflightRisk::UnreferencedFiles);
    assert forall|j: int|
        0 <= j < cats.len() && (#[trigger] cats[j]).category@ == "unconfirmed"@ && (forall|q: int|
            0 <= q < j ==> cats[q].category@ != "unconfirmed"@) implies category_total(cats, "unconfirmed"@)
        == (cats[j].file_count, cats[j].bytes) by {
        lemma_category_total_first(cats, "unconfirmed"@, j);
    }
    assert forall|j: int|
        0 <= j < cats.len() && (#[trigger] cats[j]).category@ == "unreferenced"@ && (forall|q: int|
            0 <= q < j ==> cats[q].category@ != "unreferenced"@) implies category_total(cats, "unreferenced"@)
        == (cats[j].file_count, cats[j].bytes) by {
        lemma_category_total_first(cats, "unreferenced"@, j);
    }
    if forall|q: int| 0 <= q < cats.len() ==> cats[q].category@ != "unconfirmed"@ {
        lemma_category_total_absent(cats, "unconfirmed"@);
    }
    if forall|q: int| 0 <= q < cats.len() ==> cats[q].category@ != "unreferenced"@ {
        lemma_category_total_absent(cats, "unreferenced"@);
    }
}

/// Law: a candidate build is blocked exactly by a writable source, a
/// failed integrity check, a stale catalog, an unfinished scan or an
/// unfinished context index; companion files, unreferenced and unconfirmed
/// files and a running job are warnings; nothing marked is only a note.
pub proof fn lemma_risk_severities(k: PreflightRisk)
    ensures
        blocks(k) <==> (k == PreflightRisk::SourceWritable || k == PreflightRisk::SqliteCheck || k
            == PreflightRisk::CatalogStale || k == PreflightRisk::ScanIncomplete || k
            == PreflightRisk::ContextIncomplete),
        warns(k) <==> (k == PreflightRisk::SqliteCompanion || k == PreflightRisk::UnreferencedFiles || k
            == PreflightRisk::UnconfirmedFiles || k == PreflightRisk::ActiveJob),
        risk_severity(k) == "info"@ <==> k == PreflightRisk::NothingMarked,
{
    reveal_strlit("blocker");
    reveal_strlit("warning");
    reveal_strlit("info");
    assert("blocker"@.len() == 7 && "warning"@.len() == 7 && "info"@.len() == 4);
}

/// No risk is both blocking and a warning: the two counts of a review
/// never exceed the number of its risks.
pub proof fn lemma_severity_counts_bounded(ks: Seq<PreflightRisk>)
    ensures
        0 <= severity_count(ks, true),
        0 <= severity_count(ks, false),
        severity_count(ks, true) + severity_count(ks, false) <= ks.len(),
    decreases ks.len(),
{
    if ks.len() > 0 {
        lemma_severity_counts_bounded(ks.drop_last());
    }
}

fn category_amount(cats: &Vec<CleanupCategoryTotal>, name: &str) -> (r: (u64, u64))
    ensures
        r == category_total(cats@, name@),
{
    let n = text::chars_of(name);
    let mut i: usize = 0;
    assert(cats@.skip(0) =~= cats@);
    while i < cats.len()
        invariant
            i <= cats.len(),
            n@ == name@,
            category_total(cats@.skip(i as int), name@) == category_total(cats@, name@),
        decreases cats.len() - i,
    {
        assert(cats@.skip(i as int)[0] == cats@[i as int]);
        assert(cats@.skip(i as int).drop_first() =~= cats@.skip(i + 1));
        if text::eq_chars(&text::chars_of(cats[i].category.as_str()), &n) {
            return (cats[i].file_count, cats[i].bytes);
        }
        i = i + 1;
    }
    assert(cats@.skip(i as int).len() == 0);
    (0, 0)
}

/// `a`, `b` and `c` one after the other.
fn concat3(a: &str, b: &str, c: &str) -> (r: String)
    ensures
        r@ == a@ + b@ + c@,
{
    let mut v = text::chars_of(a);
    text::append_str(&mut v, b);
    text::append_str(&mut v, c);
    text::string_of(&v)
}

fn risk_report(k: PreflightRisk, f: &PreflightFacts) -> (r: CleanupRisk)
    ensures
        risk_is(r, k, *f),
{
    reveal(risk_is);
    let (code, severity, title) = match k {
        PreflightRisk::SourceWritable => ("source-writable", "blocker", "來源資料庫不是唯讀"),
        PreflightRisk::SqliteCheck => ("sqlite-check", "blocker", "SQLite 完整性檢查未通過"),
        PreflightRisk::CatalogStale => ("catalog-stale", "blocker", "附件索引與目前來源不一致"),
        PreflightRisk::ScanIncomplete => ("scan-incomplete", "blocker", "附件掃描尚未完成"),
        PreflightRisk::ContextIncomplete => (
            "context-incomplete",
            "blocker",
            "訊息與附件的交叉確認尚未完成",
        ),
        PreflightRisk::SqliteCompanion => ("sqlite-companion", "warning", "來源旁仍有 SQLite 暫存檔"),
        PreflightRisk::UnreferencedFiles => ("unreferenced-files", "warning", "有 SQLite 未引用附件"),
        PreflightRisk::UnconfirmedFiles => ("unconfirmed-files", "warning", "有無法確認來源的附件"),
        PreflightRisk::ActiveJob => ("active-job", "warning", "仍有原生工作正在執行"),
        PreflightRisk::NothingMarked => ("nothing-marked", "info", "目前沒有已標記的清理項目"),
    };
    let detail = match k {
        PreflightRisk::SourceWritable => text::to_string(
            "為避免清理流程改寫原始備份，請先關閉可能正在使用來源資料庫的程式。",
        ),
        PreflightRisk::SqliteCheck => concat3(
            "quick_check 回報：",
            f.quick_check.as_str(),
            "。建立候選檔前請先保留來源並修復資料庫。",
        ),
        PreflightRisk::CatalogStale => text::to_string(
            "來源檔案可能在掃描後變更；請重新掃描附件，完成後再建立候選檔。",
        ),
        PreflightRisk::ScanIncomplete => concat3(
            "目前掃描狀態為 ",
            f.scan_status.as_str(),
            "，尚未取得完整檔案清單。",
        ),
        PreflightRisk::ContextIncomplete => concat3(
            "目前脈絡索引狀態為 ",
            f.overview.context_status.as_str(),
            "；未完成前不會把不明檔案視為安全候選。",
        ),
        PreflightRisk::SqliteCompanion => text::to_string(
            "來源旁存在 -wal 或 -shm；請確認 LINE 與備份工具已停止寫入，再依目前快照清理。",
        ),
        PreflightRisk::UnreferencedFiles => text::to_string(
            "這些檔案可能是索引遺漏，也可能是可清理殘留；只能列入人工複核，不會由安全自動規則處理。",
        ),
        PreflightRisk::UnconfirmedFiles => text::to_string(
            "無法把這些檔案安全對應到訊息；建立候選檔前請逐項查看路徑與內容。",
        ),
        PreflightRisk::ActiveJob => {
            let label = match &f.active_job {
                Some(job) => active_job_label(job),
                None => String::new(),
            };
            concat3("目前工作：", label.as_str(), "。請等待完成後再建立候選檔。")
        },
        PreflightRisk::NothingMarked => text::to_string(
            "可以先查看清理方案預演，或從聊天室逐項選取附件。",
        ),
    };
    let (file_count, bytes) = match k {
        PreflightRisk::UnreferencedFiles => category_amount(&f.overview.categories, "unreferenced"),
        PreflightRisk::UnconfirmedFiles => category_amount(&f.overview.categories, "unconfirmed"),
        _ => (0, 0),
    };
    CleanupRisk {
        code: text::to_string(code),
        severity: text::to_string(severity),
        title: text::to_string(title),
        detail,
        file_count,
        bytes,
    }
}

fn active_job_label(job: &(String, String)) -> (r: String)
    ensures
        r@ == job_label(*job),
{
    concat3(job.0.as_str(), ":", job.1.as_str())
}

/// Each report in `risks` is that of the risk at the same place in `kinds`.
#[verifier::opaque]
pub open spec fn risks_are(risks: Seq<CleanupRisk>, kinds: Seq<PreflightRisk>, f: PreflightFacts) -> bool {
    risks.len() == kinds.len() && forall|i: int|
        0 <= i < risks.len() ==> risk_is(#[trigger] risks[i], kinds[i], f)
}

fn push_risk(
    risks: &mut Vec<CleanupRisk>,
    kinds: &mut Vec<PreflightRisk>,
    k: PreflightRisk,
    f: &PreflightFacts,
)
    requires
        risks_are(old(risks)@, old(kinds)@, *f),
    ensures
        final(kinds)@ == old(kinds)@.push(k),
        risks_are(final(risks)@, final(kinds)@, *f),
{
    reveal(risks_are);
    risks.push(risk_report(k, f));
    kinds.push(k);
}

fn count_severity(kinds: &Vec<PreflightRisk>, blocking: bool) -> (r: u64)
    ensures
        r == severity_count(kinds@, blocking),
{
    let mut n: u64 = 0;
    let mut i: usize = 0;
    while i < kinds.len()
        invariant
            i <= kinds.len(),
            n == severity_count(kinds@.take(i as int), blocking),
            n <= i,
        decreases kinds.len() - i,
    {
        assert(kinds@.take(i + 1).drop_last() =~= kinds@.take(i as int));
        assert(kinds@.take(i + 1).last() == kinds@[i as int]);
        let hit = match kinds[i] {
            PreflightRisk::SourceWritable | PreflightRisk::SqliteCheck | PreflightRisk::CatalogStale
            | PreflightRisk::ScanIncomplete | PreflightRisk::ContextIncomplete => blocking,
            PreflightRisk::NothingMarked => false,
            _ => !blocking,
        };
        if hit {
            n = n + 1;
        }
        i = i + 1;
    }
    assert(kinds@.take(kinds.len() as int) =~= kinds@);
    n
}

fn is_complete(status: &String) -> (r: bool)
    ensures
        r == (status@ == "complete"@),
{
    text::eq_str(&text::chars_of(status.as_str()), "complete")
}

fn push_if(
    risks: &mut Vec<CleanupRisk>,
    kinds: &mut Vec<PreflightRisk>,
    raised: bool,
    k: PreflightRisk,
    f: &PreflightFacts,
)
    requires
        risks_are(old(risks)@, old(kinds)@, *f),
    ensures
        final(kinds)@ == old(kinds)@ + risk_if(raised, k),
        risks_are(final(risks)@, final(kinds)@, *f),
{
    if raised {
        push_risk(risks, kinds, k, f);
    }
    assert(kinds@ =~= old(kinds)@ + risk_if(raised, k));
}

fn collect_risks(f: &PreflightFacts) -> (r: (Vec<CleanupRisk>, Vec<PreflightRisk>, Option<String>))
    ensures
        r.1@ == preflight_risks(*f),
        r.0.len() == r.1.len(),
        forall|i: int| 0 <= i < r.0.len() ==> risk_is(#[trigger] r.0@[i], r.1@[i], *f),
        match f.active_job {
            Some(job) => r.2 matches Some(s) && s@ == job_label(job),
            None => r.2 is None,
        },
{
    let unreferenced = category_amount(&f.overview.categories, "unreferenced");
    let unconfirmed = category_amount(&f.overview.categories, "unconfirmed");
    let bad_check = !text::eq_ignore_ascii_case(
        &text::chars_of(f.quick_check.as_str()),
        &text::chars_of("ok"),
    );
    let scan_open = !is_complete(&f.scan_status);
    let context_open = !is_complete(&f.overview.context_status);
    let active_job = match &f.active_job {
        Some(job) => Some(active_job_label(job)),
        None => None,
    };
    let mut risks: Vec<CleanupRisk> = Vec::new();
    let mut kinds: Vec<PreflightRisk> = Vec::new();
    assert(risks_are(risks@, kinds@, *f)) by {
        reveal(risks_are);
    }
    push_if(&mut risks, &mut kinds, !f.source_read_only, PreflightRisk::SourceWritable, f);
    assert(kinds@ =~= risk_if(!f.source_read_only, PreflightRisk::SourceWritable));
    push_if(&mut risks, &mut kinds, bad_check, PreflightRisk::SqliteCheck, f);
    push_if(&mut risks, &mut kinds, !f.catalog_source_current, PreflightRisk::CatalogStale, f);
    push_if(&mut risks, &mut kinds, scan_open, PreflightRisk::ScanIncomplete, f);
    push_if(&mut risks, &mut kinds, context_open, PreflightRisk::ContextIncomplete, f);
    push_if(&mut risks, &mut kinds, f.wal_present || f.shm_present, PreflightRisk::SqliteCompanion, f);
    push_if(&mut risks, &mut kinds, unreferenced.0 > 0, PreflightRisk::UnreferencedFiles, f);
    push_if(&mut risks, &mut kinds, unconfirmed.0 > 0, PreflightRisk::UnconfirmedFiles, f);
    push_if(&mut risks, &mut kinds, active_job.is_some(), PreflightRisk::ActiveJob, f);
    push_if(&mut risks, &mut kinds, f.overview.marked_count == 0, PreflightRisk::NothingMarked, f);
    assert(kinds@ == preflight_risks(*f)) by {
        reveal(preflight_risks);
    }
    proof {
        reveal(risks_are);
    }
    (risks, kinds, active_job)
}

/// The safety review run before a cleanup candidate is built: every risk
/// that the gathered facts show, in a fixed order, with the counts of
/// blocking and warning risks.
pub fn cleanup_preflight(facts: &PreflightFacts) -> (r: CleanupPreflightReport)
    ensures
        r.risks.len() == preflight_risks(*facts).len(),
        forall|i: int|
            0 <= i < r.risks.len() ==> risk_is(
                #[trigger] r.risks@[i],
                preflight_risks(*facts)[i],
                *facts,
            ),
        r.risk_count == preflight_risks(*facts).len(),
        r.blocker_count == severity_count(preflight_risks(*facts), true),
        r.warning_count == severity_count(preflight_risks(*facts), false),
        r.source_kind@ == source_kind_name(facts.source_kind),
        r.source_read_only == facts.source_read_only,
        r.sqlite_quick_check@ == facts.quick_check@,
        r.catalog_source_current == facts.catalog_source_current,
        r.scan_status@ == facts.scan_status@,
        r.context_status@ == facts.overview.context_status@,
        match facts.active_job {
            Some(job) => r.active_job matches Some(s) && s@ == job_label(job),
            None => r.active_job is None,
        },
        r.safe_candidate_count == facts.overview.automatic_candidate_count,
        r.safe_candidate_bytes == facts.overview.automatic_candidate_bytes,
        r.marked_count == facts.overview.marked_count,
        r.marked_bytes == facts.overview.marked_bytes,
{
    let f = facts;
    let (risks, kinds, active_job) = collect_risks(f);
    let blocker_count = count_severity(&kinds, true);
    let warning_count = count_severity(&kinds, false);
    CleanupPreflightReport {
        source_kind: text::to_string(f.source_kind.as_str()),
        source_read_only: f.source_read_only,
        sqlite_quick_check: f.quick_check.clone(),
        catalog_source_current: f.catalog_source_current,
        scan_status: f.scan_status.clone(),
        context_status: f.overview.context_status.clone(),
        active_job,
        risk_count: risks.len() as u64,
        blocker_count,
        warning_count,
        safe_candidate_count: f.overview.automatic_candidate_count,
        safe_candidate_bytes: f.overview.automatic_candidate_bytes,
        marked_count: f.overview.marked_count,
        marked_bytes: f.overview.marked_bytes,
        risks,
    }
}

// ---------------------------------------------------------------------
// Database-level cleanup counts
// ---------------------------------------------------------------------

/// A chat without any message.
pub open spec fn empty_chat(c: Chat) -> bool {
    c.message_count == 0
}

/// A chat whose messages are all system messages.
pub open spec fn system_only_chat(c: Chat) -> bool {
    c.message_count > 0 && c.human_message_count == 0
}

/// Positions, in order, of the empty chats (`want_empty`) or of the
/// system-only chats (otherwise).
pub open spec fn positions(chats: Seq<Chat>, want_empty: bool) -> Seq<usize>
    decreases chats.len(),
{
    if chats.len() == 0 {
        seq![]
    } else {
        let prev = positions(chats.drop_last(), want_empty);
        let c = chats.last();
        if (if want_empty {
            empty_chat(c)
        } else {
            system_only_chat(c)
        }) {
            prev.push((chats.len() - 1) as usize)
        } else {
            prev
        }
    }
}

/// What the database-level cleanup found.
#[derive(Debug, Clone)]
pub struct AdvancedCleanupAnalysis {
    /// Positions in the community chats of those offered for removal:
    /// the empty ones first, then the system-only ones.
    pub square_cleanup: Vec<usize>,
    pub community_chats: u64,
    pub orphan_messages: u64,
    pub line_empty_chats: u64,
    pub line_system_only_chats: u64,
    pub square_available: bool,
    pub square_empty_chats: u64,
    pub square_system_only_chats: u64,
}

fn split_positions(chats: &Vec<Chat>) -> (r: (Vec<usize>, Vec<usize>))
    ensures
        r.0@ == positions(chats@, true),
        r.1@ == positions(chats@, false),
        r.0.len() <= chats.len(),
        r.1.len() <= chats.len(),
{
    let mut empty: Vec<usize> = Vec::new();
    let mut system: Vec<usize> = Vec::new();
    let mut i: usize = 0;
    while i < chats.len()
        invariant
            i <= chats.len(),
            empty@ == positions(chats@.take(i as int), true),
            system@ == positions(chats@.take(i as int), false),
            empty.len() <= i,
            system.len() <= i,
        decreases chats.len() - i,
    {
        assert(chats@.take(i + 1).drop_last() =~= chats@.take(i as int));
        assert(chats@.take(i + 1).last() == chats@[i as int]);
        let c = &chats[i];
        if c.message_count == 0 {
            empty.push(i);
        } else if c.human_message_count == 0 && c.message_count > 0 {
            system.push(i);
        }
        i = i + 1;
    }
    assert(chats@.take(chats.len() as int) =~= chats@);
    (empty, system)
}

/// Counts the chats the database-level cleanup can remove: the empty and
/// system-only chats of the LINE database and, where the community
/// database is there, of the community database, whose picked chats come
/// empty ones first.
pub fn analyze_advanced_cleanup(
    line_chats: &Vec<Chat>,
    square_chats: Option<&Vec<Chat>>,
    orphan_messages: u64,
) -> (r: AdvancedCleanupAnalysis)
    ensures
        r.line_empty_chats == positions(line_chats@, true).len(),
        r.line_system_only_chats == positions(line_chats@, false).len(),
        r.square_available == square_chats is Some,
        match square_chats {
            Some(chats) => {
                &&& r.square_cleanup@ == positions(chats@, true) + positions(chats@, false)
                &&& r.square_empty_chats == positions(chats@, true).len()
                &&& r.square_system_only_chats == positions(chats@, false).len()
                &&& r.community_chats == chats.len()
                &&& r.orphan_messages == orphan_messages
            },
            None => {
                &&& r.square_cleanup@.len() == 0
                &&& r.square_empty_chats == 0
                &&& r.square_system_only_chats == 0
                &&& r.community_chats == 0
                &&& r.orphan_messages == 0
            },
        },
{
    let (line_empty, line_system) = split_positions(line_chats);
    match square_chats {
        Some(chats) => {
            let (mut picked, system) = split_positions(chats);
            let empty_count = picked.len() as u64;
            let system_count = system.len() as u64;
            let mut j: usize = 0;
            let ghost first = picked@;
            while j < system.len()
                invariant
                    j <= system.len(),
                    picked@ == first + system@.take(j as int),
                decreases system.len() - j,
            {
                picked.push(system[j]);
                assert(system@.take(j + 1) =~= system@.take(j as int).push(system@[j as int]));
                j = j + 1;
            }
            assert(system@.take(system.len() as int) =~= system@);
            AdvancedCleanupAnalysis {
                square_cleanup: picked,
                community_chats: chats.len() as u64,
                orphan_messages,
                line_empty_chats: line_empty.len() as u64,
                line_system_only_chats: line_system.len() as u64,
                square_available: true,
                square_empty_chats: empty_count,
                square_system_only_chats: system_count,
            }
        },
        None => AdvancedCleanupAnalysis {
            square_cleanup: Vec::new(),
            community_chats: 0,
            orphan_messages: 0,
            line_empty_chats: line_empty.len() as u64,
            line_system_only_chats: line_system.len() as u64,
            square_available: false,
            square_empty_chats: 0,
            square_system_only_chats: 0,
        },
    }
}

/// Messages of a chat, negative counts as none.
pub open spec fn messages_of(c: Chat) -> int {
    if c.message_count < 0 {
        0
    } else {
        c.message_count as int
    }
}

/// Messages of all `chats`.
pub open spec fn message_total(chats: Seq<Chat>) -> int
    decreases chats.len(),
{
    if chats.len() == 0 {
        0
    } else {
        message_total(chats.drop_last()) + messages_of(chats.last())
    }
}

proof fn lemma_message_total_prefix(chats: Seq<Chat>, n: int)
    requires
        0 <= n <= chats.len(),
    ensures
        message_total(chats.take(n)) <= message_total(chats),
    decreases chats.len(),
{
    if n < chats.len() {
        assert(chats.drop_last().take(n) =~= chats.take(n));
        lemma_message_total_prefix(chats.drop_last(), n);
    } else {
        assert(chats.take(n) =~= chats);
    }
}

/// `a + b` held at the largest `u64`.
pub open spec fn sat_add_u64(a: int, b: int) -> int {
    if a + b > u64::MAX {
        u64::MAX as int
    } else {
        a + b
    }
}

/// Messages the community cleanup would remove: those of every community
/// chat and the orphaned ones, the latter added up to the largest `u64`.
pub fn community_messages(chats: &Vec<Chat>, orphan_messages: u64) -> (r: u64)
    requires
        message_total(chats@) <= u64::MAX,
    ensures
        r == sat_add_u64(message_total(chats@), orphan_messages as int),
{
    let mut total: u64 = 0;
    let mut i: usize = 0;
    while i < chats.len()
        invariant
            i <= chats.len(),
            total == message_total(chats@.take(i as int)),
            message_total(chats@) <= u64::MAX,
        decreases chats.len() - i,
    {
        assert(chats@.take(i + 1).drop_last() =~= chats@.take(i as int));
        assert(chats@.take(i + 1).last() == chats@[i as int]);
        proof {
            lemma_message_total_prefix(chats@, i + 1);
        }
        let count = chats[i].message_count;
        if count > 0 {
            total = total + count as u64;
        }
        i = i + 1;
    }
    assert(chats@.take(chats.len() as int) =~= chats@);
    total.saturating_add(orphan_messages)
}

/// What the cleanup plan tables hold, as the catalog counts them.
#[derive(Debug, Clone, Copy)]
pub struct PlannedTotals {
    pub automatic_cleanup_planned: bool,
    pub community_cleanup_planned: bool,
    pub planned_chats: i64,
    pub planned_chat_messages: i64,
    pub planned_orphan_messages: i64,
    pub planned_files: i64,
    pub planned_bytes: i64,
}

/// `v` as a count: negative values as zero.
pub open spec fn count_of(v: int) -> int {
    if v < 0 {
        0
    } else {
        v
    }
}

/// `a + b` held within the `i64` range.
pub open spec fn sat_add_i64(a: int, b: int) -> int {
    if a + b > i64::MAX {
        i64::MAX as int
    } else if a + b < i64::MIN {
        i64::MIN as int
    } else {
        a + b
    }
}

/// The report of the database-level cleanup: the found counts, and what
/// is planned, where a planned community cleanup adds every community chat
/// and its messages.
pub fn advanced_cleanup_report(
    analysis: &AdvancedCleanupAnalysis,
    community_messages: u64,
    totals: PlannedTotals,
) -> (r: AdvancedCleanupReport)
    ensures
        r.line_empty_chats == analysis.line_empty_chats,
        r.line_system_only_chats == analysis.line_system_only_chats,
        r.square_available == analysis.square_available,
        r.square_empty_chats == analysis.square_empty_chats,
        r.square_system_only_chats == analysis.square_system_only_chats,
        r.orphan_community_messages == analysis.orphan_messages,
        r.automatic_cleanup_planned == totals.automatic_cleanup_planned,
        r.planned_chats == sat_add_u64(
            count_of(totals.planned_chats as int),
            if totals.community_cleanup_planned { analysis.community_chats as int } else { 0 },
        ),
        r.planned_database_messages == sat_add_u64(
            count_of(
                sat_add_i64(
                    totals.planned_chat_messages as int,
                    totals.planned_orphan_messages as int,
                ),
            ),
            if totals.community_cleanup_planned { community_messages as int } else { 0 },
        ),
        r.planned_files == count_of(totals.planned_files as int),
        r.planned_bytes == count_of(totals.planned_bytes as int),
{
    let planned_chats: u64 = if totals.planned_chats < 0 {
        0
    } else {
        totals.planned_chats as u64
    };
    let community_chats: u64 = if totals.community_cleanup_planned {
        analysis.community_chats
    } else {
        0
    };
    let wide: i128 = totals.planned_chat_messages as i128 + totals.planned_orphan_messages as i128;
    let planned_messages: u64 = if wide < 0 {
        0
    } else if wide > i64::MAX as i128 {
        i64::MAX as u64
    } else {
        wide as u64
    };
    let extra_messages: u64 = if totals.community_cleanup_planned {
        community_messages
    } else {
        0
    };
    AdvancedCleanupReport {
        line_empty_chats: analysis.line_empty_chats,
        line_system_only_chats: analysis.line_system_only_chats,
        square_available: analysis.square_available,
        square_empty_chats: analysis.square_empty_chats,
        square_system_only_chats: analysis.square_system_only_chats,
        orphan_community_messages: analysis.orphan_messages,
        automatic_cleanup_planned: totals.automatic_cleanup_planned,
        planned_chats: planned_chats.saturating_add(community_chats),
        planned_database_messages: planned_messages.saturating_add(extra_messages),
        planned_files: if totals.planned_files < 0 {
            0
        } else {
            totals.planned_files as u64
        },
        planned_bytes: if totals.planned_bytes < 0 {
            0
        } else {
            totals.planned_bytes as u64
        },
    }
}

// ---------------------------------------------------------------------
// Request defaults
// ---------------------------------------------------------------------

/// Chats listed per page when a request names no limit.
pub fn default_chat_limit() -> (r: u32)
    ensures
        r == 100,
{
    100
}

/// The database messages are read from when a request names none.
pub fn default_message_source() -> (r: String)
    ensures
        r@ == "line"@,
{
    text::to_string("line")
}

/// Messages listed per page when a request names no limit.
pub fn default_message_limit() -> (r: u32)
    ensures
        r == DEFAULT_PAGE_SIZE,
{
    DEFAULT_PAGE_SIZE
}

/// Cleanup activities listed when a request names no limit.
pub fn default_cleanup_audit_limit() -> (r: u32)
    ensures
        r == 20,
{
    20
}

/// Attachments listed per page when a request names no limit.
pub fn default_attachment_limit() -> (r: u32)
    ensures
        r == 100,
{
    100
}

/// The cleanup page shown when a request names none.
pub fn default_cleanup_page() -> (r: u32)
    ensures
        r == 1,
{
    1
}

/// Cleanup groups per page when a request names no size.
pub fn default_cleanup_page_size() -> (r: u32)
    ensures
        r == 24,
{
    24
}

/// The cleanup file kind when a request names none.
pub fn default_cleanup_kind() -> (r: String)
    ensures
        r@ == "all"@,
{
    text::to_string("all")
}

/// The cleanup category when a request names none.
pub fn default_cleanup_category() -> (r: String)
    ensures
        r@ == "all"@,
{
    text::to_string("all")
}

/// The cleanup ordering when a request names none.
pub fn default_cleanup_sort() -> (r: String)
    ensures
        r@ == "size"@,
{
    text::to_string("size")
}

// ---------------------------------------------------------------------
// Bounded request lines
// ---------------------------------------------------------------------

/// How reading one request line ended.
#[derive(Debug, Clone, Copy, PartialEq, Eq, Structural)]
pub enum ReadLine {
    /// The input ended before any byte of a line.
    Eof,
    /// A whole line was read.
    Line,
    /// The line was longer than allowed; its bytes were dropped.
    TooLarge,
}

/// Position of the first newline in `bytes`.
pub open spec fn newline_at(bytes: Seq<u8>) -> Option<int>
    decreases bytes.len(),
{
    if bytes.len() == 0 {
        None
    } else {
        match newline_at(bytes.drop_last()) {
            Some(k) => Some(k),
            None => if bytes.last() == 10 {
                Some(bytes.len() - 1)
            } else {
                None
            },
        }
    }
}

/// How many of `bytes` belong to the current line: up to and including
/// the first newline, or all of them.
pub open spec fn line_take(bytes: Seq<u8>) -> int {
    match newline_at(bytes) {
        Some(k) => k + 1,
        None => bytes.len() as int,
    }
}

/// `line` without one trailing `\n` and then without one trailing `\r`.
pub open spec fn strip_line_end(line: Seq<u8>) -> Seq<u8> {
    let a = if line.len() > 0 && line.last() == 10 {
        line.drop_last()
    } else {
        line
    };
    if a.len() > 0 && a.last() == 13 {
        a.drop_last()
    } else {
        a
    }
}

/// What feeding `chunk` to a reader that holds `line` (dropped when
/// `too_large`) leaves: the bytes it then holds, whether the line is
/// dropped, and how the line ended when the chunk completed it.
pub open spec fn after_feed(line: Seq<u8>, too_large: bool, maximum: int, chunk: Seq<u8>) -> (
    Seq<u8>,
    bool,
    Option<ReadLine>,
) {
    let take = line_take(chunk);
    let dropped = too_large || line.len() + take > maximum;
    let kept = if dropped {
        Seq::<u8>::empty()
    } else {
        line + chunk.take(take)
    };
    match newline_at(chunk) {
        Some(_) => (
            strip_line_end(kept),
            dropped,
            Some(
                if dropped {
                    ReadLine::TooLarge
                } else {
                    ReadLine::Line
                },
            ),
        ),
        None => (kept, dropped, None),
    }
}

proof fn lemma_newline_bounds(b: Seq<u8>)
    ensures
        newline_at(b) matches Some(k) ==> 0 <= k < b.len() && b[k] == 10,
        0 <= line_take(b) <= b.len(),
    decreases b.len(),
{
    if b.len() > 0 {
        lemma_newline_bounds(b.drop_last());
    }
}

proof fn lemma_newline_after_plain(a: Seq<u8>, b: Seq<u8>)
    requires
        newline_at(a) is None,
    ensures
        newline_at(a + b) == match newline_at(b) {
            Some(k) => Some(a.len() + k),
            None => None::<int>,
        },
    decreases b.len(),
{
    if b.len() == 0 {
        assert(a + b =~= a);
    } else {
        assert((a + b).drop_last() =~= a + b.drop_last());
        lemma_newline_after_plain(a, b.drop_last());
    }
}

/// Law: a request line read in two chunks, the first without a newline,
/// leaves the reader exactly as the same bytes read in one chunk; the
/// bytes consumed add up.
pub proof fn lemma_feed_chunking(line: Seq<u8>, too_large: bool, maximum: int, a: Seq<u8>, b: Seq<u8>)
    requires
        newline_at(a) is None,
        too_large ==> line.len() == 0,
    ensures
        line_take(a + b) == a.len() + line_take(b),
        ({
            let first = after_feed(line, too_large, maximum, a);
            after_feed(first.0, first.1, maximum, b) == after_feed(line, too_large, maximum, a + b)
        }),
{
    lemma_newline_after_plain(a, b);
    lemma_newline_bounds(a);
    lemma_newline_bounds(b);
    let first = after_feed(line, too_large, maximum, a);
    assert(a.take(line_take(a)) =~= a);
    let take_b = line_take(b);
    assert((a + b).take(a.len() + take_b) =~= a + b.take(take_b));
    assert(line + a + b.take(take_b) =~= line + (a + b).take(a.len() + take_b));
}

/// The chunks of input laid end to end.
pub open spec fn joined_chunks(chunks: Seq<Seq<u8>>) -> Seq<u8>
    decreases chunks.len(),
{
    if chunks.len() == 0 {
        Seq::empty()
    } else {
        chunks[0] + joined_chunks(chunks.drop_first())
    }
}

/// Feeding `chunks` in turn to a reader, stopping at the chunk that
/// completes the line: what the reader then holds, whether the line is
/// dropped, and how it ended.
pub open spec fn feed_chunks(line: Seq<u8>, too_large: bool, maximum: int, chunks: Seq<Seq<u8>>) -> (
    Seq<u8>,
    bool,
    Option<ReadLine>,
)
    decreases chunks.len(),
{
    if chunks.len() == 0 {
        (line, too_large, None)
    } else {
        let f = after_feed(line, too_large, maximum, chunks[0]);
        if f.2 is Some {
            f
        } else {
            feed_chunks(f.0, f.1, maximum, chunks.drop_first())
        }
    }
}

/// The bytes the input consumes while `chunks` are fed in turn, up to the
/// chunk that completes the line.
pub open spec fn fed_bytes(chunks: Seq<Seq<u8>>) -> int
    decreases chunks.len(),
{
    if chunks.len() == 0 {
        0
    } else if newline_at(chunks[0]) is Some {
        line_take(chunks[0])
    } else {
        line_take(chunks[0]) + fed_bytes(chunks.drop_first())
    }
}

proof fn lemma_newline_kept_when_extended(a: Seq<u8>, b: Seq<u8>)
    requires
        newline_at(a) is Some,
    ensures
        newline_at(a + b) == newline_at(a),
    decreases b.len(),
{
    if b.len() > 0 {
        assert((a + b).drop_last() =~= a + b.drop_last());
        lemma_newline_kept_when_extended(a, b.drop_last());
    } else {
        assert(a + b =~= a);
    }
}

/// Law: however the input of a line is cut into chunks, feeding them in
/// turn leaves the reader as the whole input fed at once would, and the
/// input gives up exactly the line's bytes, its newline included. A kept
/// line never holds more than `maximum` bytes.
pub proof fn lemma_line_read_in_any_chunks(
    line: Seq<u8>,
    too_large: bool,
    maximum: int,
    chunks: Seq<Seq<u8>>,
)
    requires
        too_large ==> line.len() == 0,
        line.len() <= maximum,
        forall|i: int| 0 <= i < chunks.len() ==> (#[trigger] chunks[i]).len() > 0,
    ensures
        feed_chunks(line, too_large, maximum, chunks) == after_feed(
            line,
            too_large,
            maximum,
            joined_chunks(chunks),
        ),
        fed_bytes(chunks) == line_take(joined_chunks(chunks)),
        after_feed(line, too_large, maximum, joined_chunks(chunks)).0.len() <= maximum,
    decreases chunks.len(),
{
    let all = joined_chunks(chunks);
    lemma_newline_bounds(all);
    if chunks.len() == 0 {
        assert(all =~= Seq::<u8>::empty());
        assert(all.take(0) =~= Seq::<u8>::empty());
        assert(line + all.take(0) =~= line);
    } else {
        let a = chunks[0];
        let rest = chunks.drop_first();
        let b = joined_chunks(rest);
        assert(all == a + b);
        lemma_newline_bounds(a);
        lemma_newline_bounds(b);
        if newline_at(a) is Some {
            lemma_newline_kept_when_extended(a, b);
            let k = newline_at(a)->0;
            assert((a + b).take(k + 1) =~= a.take(k + 1));
        } else {
            assert forall|i: int| 0 <= i < rest.len() implies (#[trigger] rest[i]).len() > 0 by {
                assert(rest[i] == chunks[i + 1]);
            }
            let f = after_feed(line, too_large, maximum, a);
            lemma_feed_chunking(line, too_large, maximum, a, b);
            assert(f.1 ==> f.0.len() == 0);
            assert(f.0.len() <= maximum);
            lemma_line_read_in_any_chunks(f.0, f.1, maximum, rest);
        }
        let r = after_feed(line, too_large, maximum, all);
        if !(too_large || line.len() + line_take(all) > maximum) {
            let kept = line + all.take(line_take(all));
            assert(kept.len() <= maximum);
        }
    }
}

/// Reads one request line from chunks of input, keeping at most
/// `maximum` bytes of it; a longer line is dropped whole.
pub struct LineReader {
    pub line: Vec<u8>,
    pub too_large: bool,
    pub maximum: usize,
}

impl LineReader {
    /// A reader with no byte read yet.
    pub fn new(maximum: usize) -> (r: Self)
        ensures
            r.line@.len() == 0,
            !r.too_large,
            r.maximum == maximum,
    {
        LineReader { line: Vec::new(), too_large: false, maximum }
    }

    /// A dropped line keeps no bytes, and a kept one no more than the
    /// maximum.
    pub open spec fn wf(&self) -> bool {
        &&& self.too_large ==> self.line@.len() == 0
        &&& self.line@.len() <= self.maximum
    }

    /// Takes the next bytes the input offers. Returns how many of them
    /// belong to the current line (the input consumes those), and, once
    /// the line is complete, how it ended; `line` then holds it without
    /// its line ending.
    pub fn feed(&mut self, available: &[u8]) -> (r: (usize, Option<ReadLine>))
        requires
            old(self).wf(),
            available@.len() > 0,
        ensures
            final(self).wf(),
            final(self).maximum == old(self).maximum,
            r.0 == line_take(available@),
            (final(self).line@, final(self).too_large, r.1) == after_feed(
                old(self).line@,
                old(self).too_large,
                old(self).maximum as int,
                available@,
            ),
            final(self).too_large == (old(self).too_large || old(self).line@.len() + line_take(
                available@,
            ) > old(self).maximum),
            ({
                let kept = if final(self).too_large {
                    Seq::<u8>::empty()
                } else {
                    old(self).line@ + available@.take(line_take(available@))
                };
                match newline_at(available@) {
                    Some(_) => {
                        &&& final(self).line@ == strip_line_end(kept)
                        &&& r.1 == Some(
                            if final(self).too_large {
                                ReadLine::TooLarge
                            } else {
                                ReadLine::Line
                            },
                        )
                    },
                    None => final(self).line@ == kept && r.1 is None,
                }
            }),
    {
        let n: usize = available.len();
        let newline = first_newline(available);
        let take: usize = match newline {
            Some(k) => {
                assert(k < n);
                k + 1
            },
            None => n,
        };
        assert(n == available@.len());
        assert(newline is None ==> newline_at(available@) is None);
        assert(take == line_take(available@));
        let found = newline.is_some();
        if !self.too_large {
            if self.line.len() as u128 + take as u128 > self.maximum as u128 {
                self.too_large = true;
                self.line.clear();
            } else {
                append_bytes(&mut self.line, available, take);
            }
        }
        if found {
            let ghost kept = self.line@;
            if self.line.len() > 0 && self.line[self.line.len() - 1] == 10 {
                self.line.pop();
            }
            if self.line.len() > 0 && self.line[self.line.len() - 1] == 13 {
                self.line.pop();
            }
            assert(self.line@ =~= strip_line_end(kept));
            let outcome = if self.too_large {
                ReadLine::TooLarge
            } else {
                ReadLine::Line
            };
            (take, Some(outcome))
        } else {
            (take, None)
        }
    }

    /// How the line ended when the input ran out.
    pub fn finish(&self) -> (r: ReadLine)
        ensures
            r == (if self.line@.len() == 0 && !self.too_large {
                ReadLine::Eof
            } else if self.too_large {
                ReadLine::TooLarge
            } else {
                ReadLine::Line
            }),
    {
        if self.line.len() == 0 && !self.too_large {
            ReadLine::Eof
        } else if self.too_large {
            ReadLine::TooLarge
        } else {
            ReadLine::Line
        }
    }
}

fn append_bytes(v: &mut Vec<u8>, src: &[u8], n: usize)
    requires
        n <= src@.len(),
    ensures
        final(v)@ == old(v)@ + src@.take(n as int),
{
    let mut j: usize = 0;
    while j < n
        invariant
            j <= n,
            n <= src@.len(),
            v@ == old(v)@ + src@.take(j as int),
        decreases n - j,
    {
        v.push(src[j]);
        assert(src@.take(j + 1) =~= src@.take(j as int).push(src@[j as int]));
        j = j + 1;
    }
}

fn first_newline(bytes: &[u8]) -> (r: Option<usize>)
    ensures
        r matches Some(k) ==> newline_at(bytes@) == Some(k as int) && k < bytes@.len(),
        r is None ==> newline_at(bytes@) is None,
{
    let mut k: usize = 0;
    while k < bytes.len()
        invariant
            k <= bytes.len(),
            newline_at(bytes@.take(k as int)) is None,
        decreases bytes.len() - k,
    {
        assert(bytes@.take(k + 1).drop_last() =~= bytes@.take(k as int));
        assert(bytes@.take(k + 1).last() == bytes@[k as int]);
        if bytes[k] == 10 {
            proof {
                lemma_newline_prefix(bytes@, k as int);
            }
            return Some(k);
        }
        k = k + 1;
    }
    proof {
        lemma_newline_prefix(bytes@, k as int);
    }
    None
}

/// When the first `k` bytes hold no newline and `k` is the end or a
/// newline, `k` is where the first newline is.
proof fn lemma_newline_prefix(bytes: Seq<u8>, k: int)
    requires
        0 <= k <= bytes.len(),
        newline_at(bytes.take(k)) is None,
        k < bytes.len() ==> bytes[k] == 10,
    ensures
        k < bytes.len() ==> newline_at(bytes) == Some(k),
        k == bytes.len() ==> newline_at(bytes) is None,
    decreases bytes.len(),
{
    if k == bytes.len() {
        assert(bytes.take(k) =~= bytes);
    } else if k == bytes.len() - 1 {
        assert(bytes.drop_last() =~= bytes.take(k));
    } else {
        assert(bytes.drop_last().take(k) =~= bytes.take(k));
        lemma_newline_prefix(bytes.drop_last(), k);
    }
}

/// Whether a request line holds only ASCII white space, and is skipped.
pub fn is_blank_request(line: &[u8]) -> (r: bool)
    ensures
        r == forall|i: int| 0 <= i < line@.len() ==> is_ascii_space(#[trigger] line@[i]),
{
    let mut i: usize = 0;
    while i < line.len()
        invariant
            i <= line.len(),
            forall|j: int| 0 <= j < i ==> is_ascii_space(#[trigger] line@[j]),
        decreases line.len() - i,
    {
        let b = line[i];
        if !(b == 32 || b == 9 || b == 10 || b == 12 || b == 13) {
            return false;
        }
        i = i + 1;
    }
    true
}

/// ASCII white space as `u8::is_ascii_whitespace` reads it.
pub open spec fn is_ascii_space(b: u8) -> bool {
    b == 32 || b == 9 || b == 10 || b == 12 || b == 13
}


/// The operations a client can ask of the server, one per request method.
#[derive(Debug, Clone, Copy, PartialEq, Eq)]
pub enum RequestMethod {
    RecoverInterruptedOperations,
    SessionInfo,
    ListChats,
    ListMessages,
    SearchMessages,
    ScanCatalog,
    ListAttachments,
    SetAttachmentMarked,
    ClearManualAttachmentPlan,
    ClearAllRemovalPlans,
    StageAttachmentPreview,
    CatalogStats,
    CleanupOverview,
    CleanupPreflight,
    CleanupPlanPreviews,
    CleanupAudit,
    SetAllChatAttachmentsPlanned,
    ListCleanupGroups,
    ListCleanupReviews,
    ApplyCleanupGroupAction,
    PlanSafeAttachmentCleanup,
    AdvancedCleanupReport,
    SetChatRemovalPlanned,
    PlanAutomaticCleanup,
    SetCommunityCleanupPlanned,
    SetOldAccountCleanupPlanned,
    ClearAdvancedCleanupPlan,
    HashDuplicateCandidates,
    ListDuplicateGroups,
    ListDuplicateMembers,
    BuildCandidate,
    Shutdown,
}

/// The name by which a request asks for a method.
pub open spec fn method_name(m: RequestMethod) -> Seq<char> {
    match m {
        RequestMethod::RecoverInterruptedOperations => "recoverInterruptedOperations"@,
        RequestMethod::SessionInfo => "sessionInfo"@,
        RequestMethod::ListChats => "listChats"@,
        RequestMethod::ListMessages => "listMessages"@,
        RequestMethod::SearchMessages => "searchMessages"@,
        RequestMethod::ScanCatalog => "scanCatalog"@,
        RequestMethod::ListAttachments => "listAttachments"@,
        RequestMethod::SetAttachmentMarked => "setAttachmentMarked"@,
        RequestMethod::ClearManualAttachmentPlan => "clearManualAttachmentPlan"@,
        RequestMethod::ClearAllRemovalPlans => "clearAllRemovalPlans"@,
        RequestMethod::StageAttachmentPreview => "stageAttachmentPreview"@,
        RequestMethod::CatalogStats => "catalogStats"@,
        RequestMethod::CleanupOverview => "cleanupOverview"@,
        RequestMethod::CleanupPreflight => "cleanupPreflight"@,
        RequestMethod::CleanupPlanPreviews => "cleanupPlanPreviews"@,
        RequestMethod::CleanupAudit => "cleanupAudit"@,
        RequestMethod::SetAllChatAttachmentsPlanned => "setAllChatAttachmentsPlanned"@,
        RequestMethod::ListCleanupGroups => "listCleanupGroups"@,
        RequestMethod::ListCleanupReviews => "listCleanupReviews"@,
        RequestMethod::ApplyCleanupGroupAction => "applyCleanupGroupAction"@,
        RequestMethod::PlanSafeAttachmentCleanup => "planSafeAttachmentCleanup"@,
        RequestMethod::AdvancedCleanupReport => "advancedCleanupReport"@,
        RequestMethod::SetChatRemovalPlanned => "setChatRemovalPlanned"@,
        RequestMethod::PlanAutomaticCleanup => "planAutomaticCleanup"@,
        RequestMethod::SetCommunityCleanupPlanned => "setCommunityCleanupPlanned"@,
        RequestMethod::SetOldAccountCleanupPlanned => "setOldAccountCleanupPlanned"@,
        RequestMethod::ClearAdvancedCleanupPlan => "clearAdvancedCleanupPlan"@,
        RequestMethod::HashDuplicateCandidates => "hashDuplicateCandidates"@,
        RequestMethod::ListDuplicateGroups => "listDuplicateGroups"@,
        RequestMethod::ListDuplicateMembers => "listDuplicateMembers"@,
        RequestMethod::BuildCandidate => "buildCandidate"@,
        RequestMethod::Shutdown => "shutdown"@,
    }
}

/// The method a request names. A name that is no method is refused with
/// the name in the error.
pub fn request_method(name: &str) -> (r: Result<RequestMethod, CoreError>)
    ensures
        match r {
            Ok(m) => name@ == method_name(m),
            Err(e) => {
                &&& e matches CoreError::UnknownMethod(n) && n@ == name@
                &&& forall|m: RequestMethod| name@ != #[trigger] method_name(m)
            },
        },
{
    let v = text::chars_of(name);
    if text::eq_str(&v, "recoverInterruptedOperations") {
        Ok(RequestMethod::RecoverInterruptedOperations)
    } else if text::eq_str(&v, "sessionInfo") {
        Ok(RequestMethod::SessionInfo)
    } else if text::eq_str(&v, "listChats") {
        Ok(RequestMethod::ListChats)
    } else if text::eq_str(&v, "listMessages") {
        Ok(RequestMethod::ListMessages)
    } else if text::eq_str(&v, "searchMessages") {
        Ok(RequestMethod::SearchMessages)
    } else if text::eq_str(&v, "scanCatalog") {
        Ok(RequestMethod::ScanCatalog)
    } else if text::eq_str(&v, "listAttachments") {
        Ok(RequestMethod::ListAttachments)
    } else if text::eq_str(&v, "setAttachmentMarked") {
        Ok(RequestMethod::SetAttachmentMarked)
    } else if text::eq_str(&v, "clearManualAttachmentPlan") {
        Ok(RequestMethod::ClearManualAttachmentPlan)
    } else if text::eq_str(&v, "clearAllRemovalPlans") {
        Ok(RequestMethod::ClearAllRemovalPlans)
    } else if text::eq_str(&v, "stageAttachmentPreview") {
        Ok(RequestMethod::StageAttachmentPreview)
    } else if text::eq_str(&v, "catalogStats") {
        Ok(RequestMethod::CatalogStats)
    } else if text::eq_str(&v, "cleanupOverview") {
        Ok(RequestMethod::CleanupOverview)
    } else if text::eq_str(&v, "cleanupPreflight") {
        Ok(RequestMethod::CleanupPreflight)
    } else if text::eq_str(&v, "cleanupPlanPreviews") {
        Ok(RequestMethod::CleanupPlanPreviews)
    } else if text::eq_str(&v, "cleanupAudit") {
        Ok(RequestMethod::CleanupAudit)
    } else if text::eq_str(&v, "setAllChatAttachmentsPlanned") {
        Ok(RequestMethod::SetAllChatAttachmentsPlanned)
    } else if text::eq_str(&v, "listCleanupGroups") {
        Ok(RequestMethod::ListCleanupGroups)
    } else if text::eq_str(&v, "listCleanupReviews") {
        Ok(RequestMethod::ListCleanupReviews)
    } else if text::eq_str(&v, "applyCleanupGroupAction") {
        Ok(RequestMethod::ApplyCleanupGroupAction)
    } else if text::eq_str(&v, "planSafeAttachmentCleanup") {
        Ok(RequestMethod::PlanSafeAttachmentCleanup)
    } else if text::eq_str(&v, "advancedCleanupReport") {
        Ok(RequestMethod::AdvancedCleanupReport)
    } else if text::eq_str(&v, "setChatRemovalPlanned") {
        Ok(RequestMethod::SetChatRemovalPlanned)
    } else if text::eq_str(&v, "planAutomaticCleanup") {
        Ok(RequestMethod::PlanAutomaticCleanup)
    } else if text::eq_str(&v, "setCommunityCleanupPlanned") {
        Ok(RequestMethod::SetCommunityCleanupPlanned)
    } else if text::eq_str(&v, "setOldAccountCleanupPlanned") {
        Ok(RequestMethod::SetOldAccountCleanupPlanned)
    } else if text::eq_str(&v, "clearAdvancedCleanupPlan") {
        Ok(RequestMethod::ClearAdvancedCleanupPlan)
    } else if text::eq_str(&v, "hashDuplicateCandidates") {
        Ok(RequestMethod::HashDuplicateCandidates)
    } else if text::eq_str(&v, "listDuplicateGroups") {
        Ok(RequestMethod::ListDuplicateGroups)
    } else if text::eq_str(&v, "listDuplicateMembers") {
        Ok(RequestMethod::ListDuplicateMembers)
    } else if text::eq_str(&v, "buildCandidate") {
        Ok(RequestMethod::BuildCandidate)
    } else if text::eq_str(&v, "shutdown") {
        Ok(RequestMethod::Shutdown)
    } else {
        Err(CoreError::UnknownMethod(v))
    }
}

/// Whether a request ends the session once it is answered.
pub fn ends_session(m: RequestMethod) -> (r: bool)
    ensures
        r == (m == RequestMethod::Shutdown),
{
    match m {
        RequestMethod::Shutdown => true,
        _ => false,
    }
}

/// The database of a chat: the LINE one or the LINE Square one.
#[derive(Debug, Clone, Copy, PartialEq, Eq)]
pub enum ChatDatabase {
    Line,
    Square,
}

/// The database a message request reads: `line`, or `square` when that
/// database is loaded.
pub fn message_database(source: &str, square_loaded: bool) -> (r: Result<ChatDatabase, CoreError>)
    ensures
        source@ == "line"@ ==> r == Ok::<ChatDatabase, CoreError>(ChatDatabase::Line),
        source@ == "square"@ ==> r == if square_loaded {
            Ok::<ChatDatabase, CoreError>(ChatDatabase::Square)
        } else {
            Err(CoreError::SquareUnavailable)
        },
        source@ != "line"@ && source@ != "square"@ ==> r == Err::<ChatDatabase, CoreError>(
            CoreError::MessageSource,
        ),
{
    database_of(source, square_loaded, CoreError::MessageSource)
}

/// The database a chat cleanup request names: `line`, or `square` when that
/// database is loaded.
pub fn chat_cleanup_database(source: &str, square_loaded: bool) -> (r: Result<ChatDatabase, CoreError>)
    ensures
        source@ == "line"@ ==> r == Ok::<ChatDatabase, CoreError>(ChatDatabase::Line),
        source@ == "square"@ ==> r == if square_loaded {
            Ok::<ChatDatabase, CoreError>(ChatDatabase::Square)
        } else {
            Err(CoreError::SquareUnavailable)
        },
        source@ != "line"@ && source@ != "square"@ ==> r == Err::<ChatDatabase, CoreError>(
            CoreError::ChatSource,
        ),
{
    database_of(source, square_loaded, CoreError::ChatSource)
}

fn database_of(source: &str, square_loaded: bool, refusal: CoreError) -> (r: Result<ChatDatabase, CoreError>)
    ensures
        source@ == "line"@ ==> r == Ok::<ChatDatabase, CoreError>(ChatDatabase::Line),
        source@ == "square"@ ==> r == if square_loaded {
            Ok::<ChatDatabase, CoreError>(ChatDatabase::Square)
        } else {
            Err(CoreError::SquareUnavailable)
        },
        source@ != "line"@ && source@ != "square"@ ==> r == Err::<ChatDatabase, CoreError>(refusal),
{
    proof {
        reveal_strlit("line");
        reveal_strlit("square");
        assert("line"@.len() != "square"@.len());
    }
    let v = text::chars_of(source);
    if text::eq_str(&v, "line") {
        Ok(ChatDatabase::Line)
    } else if text::eq_str(&v, "square") {
        if square_loaded {
            Ok(ChatDatabase::Square)
        } else {
            Err(CoreError::SquareUnavailable)
        }
    } else {
        Err(refusal)
    }
}

/// Whether a long job reports its progress after this item: every 64th item
/// and the last one.
pub fn reports_progress(processed: u64, total: u64) -> (r: bool)
    ensures
        r == (processed % 64 == 0 || processed == total),
{
    processed % 64 == 0 || processed == total
}

} // verus!
