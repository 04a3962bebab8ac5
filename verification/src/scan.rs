//! Scanning a source into the catalog: whether a scan starts over or
//! resumes, which files a resumed scan skips, how archive work is split
//! between workers, and what a preview file's first bytes say it is.

use vstd::prelude::*;

use crate::error::CoreError;
use crate::order::text_lt;
use crate::source::SourceKind;
use crate::text;

verus! {

// ---------------------------------------------------------------------
// Reading stored numbers
// ---------------------------------------------------------------------

/// The value of a run of decimal digits.
pub open spec fn digits_value(s: Seq<char>) -> int
    decreases s.len(),
{
    if s.len() == 0 {
        0
    } else {
        digits_value(s.drop_last()) * 10 + (s.last() as int - 48)
    }
}

/// Every character of `s` is a decimal digit.
pub open spec fn all_digits(s: Seq<char>) -> bool {
    forall|i: int| 0 <= i < s.len() ==> text::is_digit(#[trigger] s[i])
}

/// What `str::parse::<i64>` reads from `s`: an optional sign, then one or
/// more decimal digits, whose value fits `i64`; nothing else.
pub open spec fn parsed_i64(s: Seq<char>) -> Option<i64> {
    let negative = s.len() > 0 && s[0] == '-';
    let signed = s.len() > 0 && (s[0] == '-' || s[0] == '+');
    let body = if signed {
        s.drop_first()
    } else {
        s
    };
    if body.len() == 0 || !all_digits(body) {
        None
    } else {
        let v = if negative {
            -digits_value(body)
        } else {
            digits_value(body)
        };
        if i64::MIN <= v <= i64::MAX {
            Some(v as i64)
        } else {
            None
        }
    }
}

proof fn lemma_digits_grow(s: Seq<char>, k: int)
    requires
        all_digits(s),
        0 <= k <= s.len(),
    ensures
        0 <= digits_value(s.take(k)) <= digits_value(s),
    decreases s.len(),
{
    if k < s.len() {
        assert(all_digits(s.drop_last())) by {
            assert forall|i: int| 0 <= i < s.drop_last().len() implies text::is_digit(
                #[trigger] s.drop_last()[i],
            ) by {
                assert(s.drop_last()[i] == s[i]);
            }
        }
        assert(s.drop_last().take(k) =~= s.take(k));
        lemma_digits_grow(s.drop_last(), k);
        assert(text::is_digit(s[s.len() - 1]));
    } else {
        assert(s.take(k) =~= s);
        lemma_digits_nonneg(s);
    }
}

proof fn lemma_digits_nonneg(s: Seq<char>)
    requires
        all_digits(s),
    ensures
        digits_value(s) >= 0,
    decreases s.len(),
{
    if s.len() > 0 {
        assert(all_digits(s.drop_last())) by {
            assert forall|i: int| 0 <= i < s.drop_last().len() implies text::is_digit(
                #[trigger] s.drop_last()[i],
            ) by {
                assert(s.drop_last()[i] == s[i]);
            }
        }
        lemma_digits_nonneg(s.drop_last());
        assert(text::is_digit(s[s.len() - 1]));
    }
}

fn parse_digits(v: &Vec<char>, start: usize) -> (r: Option<i128>)
    requires
        start <= v.len(),
    ensures
        r matches Some(x) ==> all_digits(v@.skip(start as int)) && x == digits_value(v@.skip(start as int))
            && 0 <= x <= 9223372036854775808,
        r is None ==> !all_digits(v@.skip(start as int)) || digits_value(v@.skip(start as int))
            > 9223372036854775808,
{
    let ghost body = v@.skip(start as int);
    let limit: i128 = 9223372036854775808;
    let mut acc: i128 = 0;
    let mut i: usize = start;
    assert(body.take(0) =~= Seq::<char>::empty());
    while i < v.len()
        invariant
            start <= i <= v.len(),
            body == v@.skip(start as int),
            all_digits(body.take(i - start)),
            acc == digits_value(body.take(i - start)),
            0 <= acc <= limit,
            limit == 9223372036854775808,
        decreases v.len() - i,
    {
        let c = v[i];
        assert(body.take(i + 1 - start).drop_last() =~= body.take(i - start));
        assert(body.take(i + 1 - start).last() == c);
        assert(body[i - start] == c);
        if !text::char_is_digit(c) {
            assert(!all_digits(body));
            return None;
        }
        let d: i128 = (c as u32 - 48) as i128;
        acc = acc * 10 + d;
        assert(all_digits(body.take(i + 1 - start))) by {
            assert forall|j: int| 0 <= j < body.take(i + 1 - start).len() implies text::is_digit(
                #[trigger] body.take(i + 1 - start)[j],
            ) by {
                if j < i - start {
                    assert(body.take(i + 1 - start)[j] == body.take(i - start)[j]);
                }
            }
        }
        if acc > limit {
            if all_digits_from(v, i + 1) {
                proof {
                    assert(all_digits(body)) by {
                        assert forall|j: int| 0 <= j < body.len() implies text::is_digit(#[trigger] body[j]) by {
                            if j < i + 1 - start {
                                assert(body[j] == body.take(i + 1 - start)[j]);
                            } else {
                                assert(body[j] == v@[j + start]);
                            }
                        }
                    }
                    lemma_digits_grow(body, i + 1 - start);
                }
            } else {
                proof {
                    let j = choose|j: int| i + 1 <= j < v@.len() && !text::is_digit(#[trigger] v@[j]);
                    assert(body[j - start] == v@[j]);
                    assert(!all_digits(body));
                }
            }
            return None;
        }
        i = i + 1;
    }
    assert(body.take(i - start) =~= body);
    Some(acc)
}

proof fn lemma_decimal_digits(n: nat)
    ensures
        text::decimal(n).len() > 0,
        all_digits(text::decimal(n)),
        digits_value(text::decimal(n)) == n,
        text::decimal(n)[0] != '-' && text::decimal(n)[0] != '+',
    decreases n,
{
    if n < 10 {
        assert(text::decimal(n) == seq![text::digit_char(n)]);
        assert(text::digit_char(n) as int == n + 48);
        assert(text::decimal(n).drop_last() =~= Seq::<char>::empty());
        assert(digits_value(Seq::<char>::empty()) == 0);
        assert(digits_value(text::decimal(n)) == digits_value(text::decimal(n).drop_last()) * 10 + (
        text::decimal(n).last() as int - 48));
    } else {
        lemma_decimal_digits(n / 10);
        let d = text::decimal(n);
        let front = text::decimal(n / 10);
        assert(d == front.push(text::digit_char(n % 10)));
        assert(d.drop_last() =~= front);
        assert(text::digit_char(n % 10) as int == n % 10 + 48);
        assert(all_digits(d)) by {
            assert forall|i: int| 0 <= i < d.len() implies text::is_digit(#[trigger] d[i]) by {
                if i < front.len() {
                    assert(d[i] == front[i]);
                }
            }
        }
        assert(d[0] == front[0]);
        assert(d.last() == text::digit_char(n % 10));
        assert(digits_value(d) == digits_value(front) * 10 + (d.last() as int - 48));
        assert((n / 10) * 10 + n % 10 == n);
    }
}

/// A number written as `{}` writes it reads back as the same number: what
/// the catalog stores of a scan number, a later scan reads unchanged.
pub proof fn lemma_parse_reads_back_decimal(n: i64)
    ensures
        parsed_i64(text::decimal_int(n as int)) == Some(n),
{
    if n < 0 {
        let m = (-n) as nat;
        lemma_decimal_digits(m);
        let s = text::decimal_int(n as int);
        assert(s == seq!['-'] + text::decimal(m));
        assert(s.drop_first() =~= text::decimal(m));
    } else {
        lemma_decimal_digits(n as nat);
    }
}

/// Reads a stored number as `str::parse::<i64>` reads it.
pub fn parse_i64(s: &str) -> (r: Option<i64>)
    ensures
        r == parsed_i64(s@),
{
    let v = text::chars_of(s);
    let negative = v.len() > 0 && v[0] == '-';
    let signed = v.len() > 0 && (v[0] == '-' || v[0] == '+');
    let start: usize = if signed {
        1
    } else {
        0
    };
    assert((if signed { v@.drop_first() } else { v@ }) =~= v@.skip(start as int));
    if start == v.len() {
        return None;
    }
    match parse_digits(&v, start) {
        Some(acc) => {
            if negative {
                Some((-acc) as i64)
            } else if acc > i64::MAX as i128 {
                None
            } else {
                Some(acc as i64)
            }
        },
        None => None,
    }
}

fn all_digits_from(v: &Vec<char>, from: usize) -> (r: bool)
    requires
        from <= v.len(),
    ensures
        r == forall|j: int| from <= j < v.len() ==> text::is_digit(#[trigger] v@[j]),
{
    let mut i: usize = from;
    while i < v.len()
        invariant
            from <= i <= v.len(),
            forall|j: int| from <= j < i ==> text::is_digit(#[trigger] v@[j]),
        decreases v.len() - i,
    {
        if !text::char_is_digit(v[i]) {
            return false;
        }
        i = i + 1;
    }
    true
}

// ---------------------------------------------------------------------
// Starting or resuming a scan
// ---------------------------------------------------------------------

/// How a scan proceeds.
#[derive(Debug, Clone)]
pub struct ScanPlan {
    /// The source changed, or its fingerprint was never stored: removal
    /// plans, digests and the chat index are cleared.
    pub reset: bool,
    /// An interrupted scan of a folder goes on where it stopped.
    pub resume: bool,
    /// The number of this scan.
    pub scan_id: i64,
    /// The last path a resumed scan already recorded.
    pub resume_after: Option<String>,
}

/// `Some(v)` of an optional text, as a sequence.
pub open spec fn opt_view(v: Option<&str>) -> Option<Seq<char>> {
    match v {
        Some(s) => Some(s@),
        None => None,
    }
}

/// Whether the catalog belongs to another source than `source_key`.
pub open spec fn scan_is_foreign(existing_source: Option<&str>, source_key: &str) -> bool {
    existing_source matches Some(e) && e@ != source_key@
}

/// Whether a scan goes on where an interrupted one stopped: the last scan
/// of this folder was left running or resumable, and the source is the
/// same as when it ran.
pub open spec fn scan_resumes(
    existing_source: Option<&str>,
    previous_fingerprint: Option<&str>,
    fingerprint: &str,
    scan_status: Option<&str>,
    kind: SourceKind,
    scan_last_path: Option<&str>,
) -> bool {
    let changed = previous_fingerprint matches Some(p) && p@ != fingerprint@;
    let missing = existing_source is Some && previous_fingerprint is None;
    (scan_status matches Some(st) && (st@ == "scanning"@ || st@ == "resumable"@)) && !changed && !missing
        && kind == SourceKind::Directory && scan_last_path is Some
}

/// Whether a scan of `source_key` goes on where an interrupted one
/// stopped (`scan_resumes`).
pub fn scan_would_resume(
    existing_source: Option<&str>,
    previous_fingerprint: Option<&str>,
    fingerprint: &str,
    scan_status: Option<&str>,
    kind: SourceKind,
    scan_last_path: Option<&str>,
) -> (r: bool)
    ensures
        r == scan_resumes(existing_source, previous_fingerprint, fingerprint, scan_status, kind, scan_last_path),
{
    let changed = match previous_fingerprint {
        Some(p) => !text::eq_chars(&text::chars_of(p), &text::chars_of(fingerprint)),
        None => false,
    };
    let missing = existing_source.is_some() && previous_fingerprint.is_none();
    let active = match scan_status {
        Some(st) => {
            let sv = text::chars_of(st);
            text::eq_str(&sv, "scanning") || text::eq_str(&sv, "resumable")
        },
        None => false,
    };
    let directory = match kind {
        SourceKind::Directory => true,
        _ => false,
    };
    active && !changed && !missing && directory && scan_last_path.is_some()
}

/// Decides how a scan proceeds from what the catalog stored of the last
/// one: the source it belongs to, that source's fingerprint, the scan
/// status, the last recorded path and the scan number.
pub fn plan_scan(
    existing_source: Option<&str>,
    source_key: &str,
    previous_fingerprint: Option<&str>,
    fingerprint: &str,
    scan_status: Option<&str>,
    kind: SourceKind,
    scan_last_path: Option<&str>,
    scan_id_meta: Option<&str>,
) -> (r: Result<ScanPlan, CoreError>)
    requires
        !scan_is_foreign(existing_source, source_key) && !scan_resumes(
            existing_source,
            previous_fingerprint,
            fingerprint,
            scan_status,
            kind,
            scan_last_path,
        ) ==> (scan_id_meta matches Some(m) ==> parsed_i64(m@) != Some(i64::MAX)),
    ensures
        ({
            let foreign = existing_source matches Some(e) && e@ != source_key@;
            let changed = previous_fingerprint matches Some(p) && p@ != fingerprint@;
            let missing = existing_source is Some && previous_fingerprint is None;
            let resume = (scan_status matches Some(st) && (st@ == "scanning"@ || st@ == "resumable"@))
                && !changed && !missing && kind == SourceKind::Directory && scan_last_path is Some;
            let stored = match scan_id_meta {
                Some(m) => parsed_i64(m@),
                None => None,
            };
            if foreign {
                r == Err::<ScanPlan, CoreError>(CoreError::ForeignCatalog)
            } else if resume && stored is None {
                r == Err::<ScanPlan, CoreError>(CoreError::ScanIdMissing)
            } else {
                r matches Ok(plan) && {
                    &&& plan.reset == (changed || missing)
                    &&& plan.resume == resume
                    &&& plan.scan_id == (if resume {
                        stored->0 as int
                    } else {
                        match stored {
                            Some(n) => n + 1,
                            None => 1int,
                        }
                    })
                    &&& match plan.resume_after {
                        Some(p) => resume && (scan_last_path matches Some(l) && l@.len() > 0 && p@ == l@),
                        None => !(resume && (scan_last_path matches Some(l) && l@.len() > 0)),
                    }
                }
            }
        }),
{
    let key = text::chars_of(source_key);
    let foreign = match existing_source {
        Some(e) => !text::eq_chars(&text::chars_of(e), &key),
        None => false,
    };
    if foreign {
        return Err(CoreError::ForeignCatalog);
    }
    let changed = match previous_fingerprint {
        Some(p) => !text::eq_chars(&text::chars_of(p), &text::chars_of(fingerprint)),
        None => false,
    };
    let missing = existing_source.is_some() && previous_fingerprint.is_none();
    let resume = scan_would_resume(
        existing_source,
        previous_fingerprint,
        fingerprint,
        scan_status,
        kind,
        scan_last_path,
    );
    let stored = match scan_id_meta {
        Some(m) => parse_i64(m),
        None => None,
    };
    let scan_id = if resume {
        match stored {
            Some(n) => n,
            None => {
                return Err(CoreError::ScanIdMissing);
            },
        }
    } else {
        match stored {
            Some(n) => n + 1,
            None => 1,
        }
    };
    let resume_after = if resume {
        match scan_last_path {
            Some(l) => if text::chars_of(l).len() > 0 {
                Some(text::to_string(l))
            } else {
                None
            },
            None => None,
        }
    } else {
        None
    };
    Ok(ScanPlan { reset: changed || missing, resume, scan_id, resume_after })
}

/// Whether a resumed scan skips the file `relative`: it comes no later
/// than the last path already recorded.
pub fn skipped_on_resume(relative: &str, resume_after: Option<&str>) -> (r: bool)
    ensures
        r == (resume_after matches Some(last) && !text_lt(last@, relative@)),
{
    match resume_after {
        Some(last) => !crate::order::text_less(&text::chars_of(last), &text::chars_of(relative)),
        None => false,
    }
}

// ---------------------------------------------------------------------
// Splitting archive work
// ---------------------------------------------------------------------

/// The number of workers for `items` pieces of work: at least one, at
/// most one per piece.
pub fn worker_count(workers: usize, items: usize) -> (r: usize)
    ensures
        r == (if workers < 1 {
            1
        } else if items >= 1 && workers > items {
            items as int
        } else if items < 1 && workers > 1 {
            1
        } else {
            workers as int
        }),
{
    let most: usize = if items < 1 {
        1
    } else {
        items
    };
    if workers < 1 {
        1
    } else if workers > most {
        most
    } else {
        workers
    }
}

/// `a / b` rounded up.
pub open spec fn ceil_div(a: int, b: int) -> int {
    (a + b - 1) / b
}

/// The catalog ids worker `worker` of `workers` checks: an equal share of
/// the ids from `minimum_id` through `maximum_id`, the last share cut at
/// the largest id.
pub fn worker_id_range(minimum_id: i64, maximum_id: i64, workers: usize, worker: usize) -> (r: Result<
    (i64, i64),
    CoreError,
>)
    requires
        0 < workers,
        worker < workers,
    ensures
        ({
            let span = maximum_id - minimum_id + 1;
            if span < 0 || span > u64::MAX {
                r == Err::<(i64, i64), CoreError>(CoreError::CatalogIdRange)
            } else {
                let per = ceil_div(span, workers as int);
                let first = minimum_id + per * worker;
                let last = if first + per - 1 < maximum_id {
                    first + per - 1
                } else {
                    maximum_id as int
                };
                if i64::MIN <= first <= i64::MAX && i64::MIN <= last <= i64::MAX {
                    r == Ok::<(i64, i64), CoreError>((first as i64, last as i64))
                } else {
                    r == Err::<(i64, i64), CoreError>(CoreError::WorkerIdRange)
                }
            }
        }),
{
    let span: i128 = maximum_id as i128 - minimum_id as i128 + 1;
    if span < 0 || span > u64::MAX as i128 {
        return Err(CoreError::CatalogIdRange);
    }
    let w: i128 = workers as i128;
    let per: i128 = (span + w - 1) / w;
    assert(per <= span) by (nonlinear_arith)
        requires
            w >= 1,
            span >= 0,
            per as int == ((span as int) + (w as int) - 1) / (w as int),
    {
        assert(per * w <= span + w - 1);
        if per > span {
            assert(per >= span + 1);
            assert(per * w >= (span + 1) * w);
            assert((span + 1) * w == span * w + w);
            assert(span * w >= span);
        }
    }
    assert(per * (worker as i128) <= per * w) by (nonlinear_arith)
        requires
            per >= 0,
            worker < w,
            worker >= 0,
    {
    }
    assert(per * w <= span + w - 1) by (nonlinear_arith)
        requires
            w >= 1,
            span >= 0,
            per as int == ((span as int) + (w as int) - 1) / (w as int),
    {
    }
    let first: i128 = minimum_id as i128 + per * (worker as i128);
    let candidate: i128 = first + per - 1;
    let last: i128 = if candidate < maximum_id as i128 {
        candidate
    } else {
        maximum_id as i128
    };
    if first < i64::MIN as i128 || first > i64::MAX as i128 || last < i64::MIN as i128 || last
        > i64::MAX as i128 {
        return Err(CoreError::WorkerIdRange);
    }
    Ok((first as i64, last as i64))
}

// ---------------------------------------------------------------------
// Preview files
// ---------------------------------------------------------------------

/// `bytes` starts with `prefix`.
pub open spec fn starts_with_bytes(bytes: Seq<u8>, prefix: Seq<u8>) -> bool {
    prefix.len() <= bytes.len() && bytes.take(prefix.len() as int) == prefix
}

/// The image type a file's first bytes show: JPEG, PNG, GIF, WebP, BMP or
/// AVIF; none for anything else.
pub open spec fn image_media_type(h: Seq<u8>) -> Option<Seq<char>> {
    if starts_with_bytes(h, seq![0xffu8, 0xd8u8, 0xffu8]) {
        Some("image/jpeg"@)
    } else if starts_with_bytes(h, seq![0x89u8, 0x50u8, 0x4eu8, 0x47u8, 0x0du8, 0x0au8, 0x1au8, 0x0au8]) {
        Some("image/png"@)
    } else if starts_with_bytes(h, seq![0x47u8, 0x49u8, 0x46u8, 0x38u8, 0x37u8, 0x61u8])
        || starts_with_bytes(h, seq![0x47u8, 0x49u8, 0x46u8, 0x38u8, 0x39u8, 0x61u8]) {
        Some("image/gif"@)
    } else if h.len() >= 12 && h.take(4) == seq![0x52u8, 0x49u8, 0x46u8, 0x46u8] && h.subrange(8, 12)
        == seq![0x57u8, 0x45u8, 0x42u8, 0x50u8] {
        Some("image/webp"@)
    } else if starts_with_bytes(h, seq![0x42u8, 0x4du8]) {
        Some("image/bmp"@)
    } else if h.len() >= 12 && h.subrange(4, 8) == seq![0x66u8, 0x74u8, 0x79u8, 0x70u8] && (h.subrange(
        8,
        12,
    ) == seq![0x61u8, 0x76u8, 0x69u8, 0x66u8] || h.subrange(8, 12) == seq![0x61u8, 0x76u8, 0x69u8, 0x73u8]) {
        Some("image/avif"@)
    } else {
        None
    }
}

fn bytes_at(h: &[u8], at: usize, want: &[u8]) -> (r: bool)
    ensures
        r == (at + want@.len() <= h@.len() && h@.subrange(at as int, at + want@.len()) == want@),
{
    let n = want.len();
    if at > h.len() || n > h.len() - at {
        return false;
    }
    let mut i: usize = 0;
    while i < n
        invariant
            i <= n,
            n == want@.len(),
            at + n <= h.len(),
            h.len() == h@.len(),
            forall|j: int| 0 <= j < i ==> h@[at + j] == want@[j],
        decreases n - i,
    {
        if h[at + i] != want[i] {
            proof {
                assert(h@.subrange(at as int, at + n)[i as int] == h@[at + i]);
            }
            return false;
        }
        i = i + 1;
    }
    assert(h@.subrange(at as int, at + n) =~= want@);
    true
}

/// Tells an image's type from the first bytes of its file.
pub fn detect_image_media_type(header: &[u8]) -> (r: Option<&'static str>)
    ensures
        match image_media_type(header@) {
            Some(t) => r matches Some(s) && s@ == t,
            None => r is None,
        },
{
    let jpeg: [u8; 3] = [0xff, 0xd8, 0xff];
    let png: [u8; 8] = [0x89, 0x50, 0x4e, 0x47, 0x0d, 0x0a, 0x1a, 0x0a];
    let gif87: [u8; 6] = [0x47, 0x49, 0x46, 0x38, 0x37, 0x61];
    let gif89: [u8; 6] = [0x47, 0x49, 0x46, 0x38, 0x39, 0x61];
    let riff: [u8; 4] = [0x52, 0x49, 0x46, 0x46];
    let webp: [u8; 4] = [0x57, 0x45, 0x42, 0x50];
    let bm: [u8; 2] = [0x42, 0x4d];
    let ftyp: [u8; 4] = [0x66, 0x74, 0x79, 0x70];
    let avif: [u8; 4] = [0x61, 0x76, 0x69, 0x66];
    let avis: [u8; 4] = [0x61, 0x76, 0x69, 0x73];
    assert(jpeg@ =~= seq![0xffu8, 0xd8u8, 0xffu8]);
    assert(png@ =~= seq![0x89u8, 0x50u8, 0x4eu8, 0x47u8, 0x0du8, 0x0au8, 0x1au8, 0x0au8]);
    assert(gif87@ =~= seq![0x47u8, 0x49u8, 0x46u8, 0x38u8, 0x37u8, 0x61u8]);
    assert(gif89@ =~= seq![0x47u8, 0x49u8, 0x46u8, 0x38u8, 0x39u8, 0x61u8]);
    assert(riff@ =~= seq![0x52u8, 0x49u8, 0x46u8, 0x46u8]);
    assert(webp@ =~= seq![0x57u8, 0x45u8, 0x42u8, 0x50u8]);
    assert(bm@ =~= seq![0x42u8, 0x4du8]);
    assert(ftyp@ =~= seq![0x66u8, 0x74u8, 0x79u8, 0x70u8]);
    assert(avif@ =~= seq![0x61u8, 0x76u8, 0x69u8, 0x66u8]);
    assert(avis@ =~= seq![0x61u8, 0x76u8, 0x69u8, 0x73u8]);
    proof {
        assert forall|p: Seq<u8>| p.len() <= header@.len() implies header@.subrange(0, p.len() as int)
            =~= header@.take(p.len() as int) by {}
    }
    if bytes_at(header, 0, &jpeg) {
        Some("image/jpeg")
    } else if bytes_at(header, 0, &png) {
        Some("image/png")
    } else if bytes_at(header, 0, &gif87) || bytes_at(header, 0, &gif89) {
        Some("image/gif")
    } else if header.len() >= 12 && bytes_at(header, 0, &riff) && bytes_at(header, 8, &webp) {
        Some("image/webp")
    } else if bytes_at(header, 0, &bm) {
        Some("image/bmp")
    } else if header.len() >= 12 && bytes_at(header, 4, &ftyp) && (bytes_at(header, 8, &avif)
        || bytes_at(header, 8, &avis)) {
        Some("image/avif")
    } else {
        None
    }
}

/// Files to delete from a preview cache so that at most `keep` remain:
/// the oldest ones by modification time `(nanoseconds, path)`.
pub fn preview_cache_removals(files: Vec<(i128, String)>, keep: usize) -> (r: Vec<String>)
    ensures
        exists|ordered: Seq<(i128, String)>|
            {
                &&& crate::order::numbers_sorted(ordered)
                &&& ordered.to_multiset() == files@.to_multiset()
                &&& r@.len() == (if files@.len() > keep { files@.len() - keep } else { 0 })
                &&& forall|i: int| 0 <= i < r@.len() ==> (#[trigger] r@[i])@ == ordered[i].1@
            },
{
    let count = files.len();
    let ghost original = files@;
    let ordered = crate::order::sort_by_number(files);
    proof {
        vstd::seq_lib::to_multiset_len(ordered@);
        vstd::seq_lib::to_multiset_len(original);
    }
    let remove_count: usize = if count > keep {
        count - keep
    } else {
        0
    };
    let mut out: Vec<String> = Vec::new();
    let mut i: usize = 0;
    while i < remove_count
        invariant
            i <= remove_count,
            remove_count <= ordered.len(),
            out@.len() == i,
            forall|k: int| 0 <= k < i ==> (#[trigger] out@[k])@ == ordered@[k].1@,
        decreases remove_count - i,
    {
        out.push(ordered[i].1.clone());
        i = i + 1;
    }
    out
}

} // verus!
