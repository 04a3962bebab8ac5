//! Fingerprints: SHA-256 digests, in lowercase hexadecimal, of exact byte
//! encodings of a cleanup plan and of a source's file metadata. A
//! fingerprint changes when anything it covers changes.

use vstd::prelude::*;

use crate::digest::{hex, le_i64, le_u64, push_le_i64, push_le_u64, push_str_bytes, sha256, sha256_hex};
use crate::order;

verus! {

/// The UTF-8 bytes of a text.
pub open spec fn utf8(s: Seq<char>) -> Seq<u8> {
    vstd::utf8::encode_utf8(s)
}

/// `v`, negative values as zero.
pub open spec fn at_least_zero(v: i64) -> i64 {
    if v < 0 {
        0
    } else {
        v
    }
}

/// Planned file removals `(path, reason, bytes)`, each as its path, a zero
/// byte, its reason, a zero byte and its size.
pub open spec fn file_rows_bytes(rows: Seq<(String, String, i64)>) -> Seq<u8>
    decreases rows.len(),
{
    if rows.len() == 0 {
        seq![]
    } else {
        let r = rows.last();
        file_rows_bytes(rows.drop_last()) + utf8(r.0@) + seq![0u8] + utf8(r.1@) + seq![0u8] + le_i64(
            at_least_zero(r.2),
        )
    }
}

/// Planned chat removals `(source, chat key, reason, messages)`.
pub open spec fn chat_rows_bytes(rows: Seq<(String, i64, String, i64)>) -> Seq<u8>
    decreases rows.len(),
{
    if rows.len() == 0 {
        seq![]
    } else {
        let r = rows.last();
        chat_rows_bytes(rows.drop_last()) + utf8(r.0@) + le_i64(r.1) + utf8(r.2@) + le_i64(
            at_least_zero(r.3),
        )
    }
}

/// Planned orphan message removals `(source, message key, message id, chat key)`.
pub open spec fn orphan_rows_bytes(rows: Seq<(String, i64, String, i64)>) -> Seq<u8>
    decreases rows.len(),
{
    if rows.len() == 0 {
        seq![]
    } else {
        let r = rows.last();
        orphan_rows_bytes(rows.drop_last()) + utf8(r.0@) + le_i64(r.1) + utf8(r.2@) + le_i64(r.3)
    }
}

fn push_file_rows(out: &mut Vec<u8>, rows: &Vec<(String, String, i64)>)
    ensures
        final(out)@ == old(out)@ + file_rows_bytes(rows@),
{
    let mut i: usize = 0;
    while i < rows.len()
        invariant
            i <= rows.len(),
            out@ == old(out)@ + file_rows_bytes(rows@.take(i as int)),
        decreases rows.len() - i,
    {
        assert(rows@.take(i + 1).drop_last() =~= rows@.take(i as int));
        assert(rows@.take(i + 1).last() == rows@[i as int]);
        let r = &rows[i];
        push_str_bytes(out, r.0.as_str());
        out.push(0u8);
        push_str_bytes(out, r.1.as_str());
        out.push(0u8);
        let b: i64 = if r.2 < 0 {
            0
        } else {
            r.2
        };
        push_le_i64(out, b);
        assert(out@ =~= old(out)@ + file_rows_bytes(rows@.take(i + 1)));
        i = i + 1;
    }
    assert(rows@.take(rows.len() as int) =~= rows@);
}

fn push_chat_rows(out: &mut Vec<u8>, rows: &Vec<(String, i64, String, i64)>)
    ensures
        final(out)@ == old(out)@ + chat_rows_bytes(rows@),
{
    let mut i: usize = 0;
    while i < rows.len()
        invariant
            i <= rows.len(),
            out@ == old(out)@ + chat_rows_bytes(rows@.take(i as int)),
        decreases rows.len() - i,
    {
        assert(rows@.take(i + 1).drop_last() =~= rows@.take(i as int));
        assert(rows@.take(i + 1).last() == rows@[i as int]);
        let r = &rows[i];
        push_str_bytes(out, r.0.as_str());
        push_le_i64(out, r.1);
        push_str_bytes(out, r.2.as_str());
        let count: i64 = if r.3 < 0 {
            0
        } else {
            r.3
        };
        push_le_i64(out, count);
        assert(out@ =~= old(out)@ + chat_rows_bytes(rows@.take(i + 1)));
        i = i + 1;
    }
    assert(rows@.take(rows.len() as int) =~= rows@);
}

fn push_orphan_rows(out: &mut Vec<u8>, rows: &Vec<(String, i64, String, i64)>)
    ensures
        final(out)@ == old(out)@ + orphan_rows_bytes(rows@),
{
    let mut i: usize = 0;
    while i < rows.len()
        invariant
            i <= rows.len(),
            out@ == old(out)@ + orphan_rows_bytes(rows@.take(i as int)),
        decreases rows.len() - i,
    {
        assert(rows@.take(i + 1).drop_last() =~= rows@.take(i as int));
        assert(rows@.take(i + 1).last() == rows@[i as int]);
        let r = &rows[i];
        push_str_bytes(out, r.0.as_str());
        push_le_i64(out, r.1);
        push_str_bytes(out, r.2.as_str());
        push_le_i64(out, r.3);
        assert(out@ =~= old(out)@ + orphan_rows_bytes(rows@.take(i + 1)));
        i = i + 1;
    }
    assert(rows@.take(rows.len() as int) =~= rows@);
}

/// The fingerprint of a cleanup plan: the digest of its file removals,
/// then its chat removals, then its orphan message removals, each list in
/// the order given (the catalog lists them by path and reason, and by
/// source and key).
pub fn plan_fingerprint(
    file_rows: &Vec<(String, String, i64)>,
    chat_rows: &Vec<(String, i64, String, i64)>,
    orphan_rows: &Vec<(String, i64, String, i64)>,
) -> (r: String)
    ensures
        r@ == hex(
            sha256(file_rows_bytes(file_rows@) + chat_rows_bytes(chat_rows@) + orphan_rows_bytes(
                orphan_rows@,
            )),
        ),
{
    let mut message: Vec<u8> = Vec::new();
    push_file_rows(&mut message, file_rows);
    push_chat_rows(&mut message, chat_rows);
    push_orphan_rows(&mut message, orphan_rows);
    assert(message@ =~= file_rows_bytes(file_rows@) + chat_rows_bytes(chat_rows@)
        + orphan_rows_bytes(orphan_rows@));
    sha256_hex(&message)
}

/// Files of a source folder `(relative path, (bytes, modified ns))`, each
/// as its path, a zero byte, its size and its modification time.
pub open spec fn entry_rows_bytes(rows: Seq<(String, (u64, i64))>) -> Seq<u8>
    decreases rows.len(),
{
    if rows.len() == 0 {
        seq![]
    } else {
        let r = rows.last();
        entry_rows_bytes(rows.drop_last()) + utf8(r.0@) + seq![0u8] + le_u64(r.1.0) + le_i64(r.1.1)
    }
}

/// The fingerprint of a source folder's file metadata: the digest of the
/// number of files and then of each file, ordered by path.
pub fn directory_fingerprint(entries: Vec<(String, (u64, i64))>) -> (r: String)
    ensures
        exists|ordered: Seq<(String, (u64, i64))>|
            {
                &&& order::keys_sorted(ordered)
                &&& ordered.to_multiset() == entries@.to_multiset()
                &&& r@ == hex(sha256(le_u64(entries@.len() as u64) + entry_rows_bytes(ordered)))
            },
{
    let ghost original = entries@;
    let count = entries.len() as u64;
    let ordered = order::sort_keyed(entries);
    let mut message: Vec<u8> = Vec::new();
    push_le_u64(&mut message, count);
    let mut i: usize = 0;
    while i < ordered.len()
        invariant
            i <= ordered.len(),
            message@ == le_u64(count) + entry_rows_bytes(ordered@.take(i as int)),
        decreases ordered.len() - i,
    {
        assert(ordered@.take(i + 1).drop_last() =~= ordered@.take(i as int));
        assert(ordered@.take(i + 1).last() == ordered@[i as int]);
        let r = &ordered[i];
        push_str_bytes(&mut message, r.0.as_str());
        message.push(0u8);
        push_le_u64(&mut message, r.1.0);
        push_le_i64(&mut message, r.1.1);
        assert(message@ =~= le_u64(count) + entry_rows_bytes(ordered@.take(i + 1)));
        i = i + 1;
    }
    assert(ordered@.take(ordered.len() as int) =~= ordered@);
    let r = sha256_hex(&message);
    assert(order::keys_sorted(ordered@) && ordered@.to_multiset() == original.to_multiset() && r@
        == hex(sha256(le_u64(original.len() as u64) + entry_rows_bytes(ordered@))));
    r
}

/// The fingerprint of a single source file's metadata: its size and its
/// modification time.
pub fn file_fingerprint(bytes: u64, modified_ns: i64) -> (r: String)
    ensures
        r@ == hex(sha256(le_u64(bytes) + le_i64(modified_ns))),
{
    let mut message: Vec<u8> = Vec::new();
    push_le_u64(&mut message, bytes);
    push_le_i64(&mut message, modified_ns);
    assert(message@ =~= le_u64(bytes) + le_i64(modified_ns));
    sha256_hex(&message)
}

/// The name of the staging folder of an archive: the digest of its path,
/// a zero byte, its size and its modification time.
pub fn staging_fingerprint(path: &str, bytes: u64, modified_ns: i64) -> (r: String)
    ensures
        r@ == hex(sha256(utf8(path@) + seq![0u8] + le_u64(bytes) + le_i64(modified_ns))),
{
    let mut message: Vec<u8> = Vec::new();
    push_str_bytes(&mut message, path);
    message.push(0u8);
    push_le_u64(&mut message, bytes);
    push_le_i64(&mut message, modified_ns);
    assert(message@ =~= utf8(path@) + seq![0u8] + le_u64(bytes) + le_i64(modified_ns));
    sha256_hex(&message)
}

} // verus!
