//! The cleanup listing of chats that hold no attachment: which chats it
//! shows, in which order, and how it pages them.

use vstd::prelude::*;

use crate::catalog::{cleanup_offset, cleanup_sort_ok, cleanup_total_pages, total_pages};
use crate::error::CoreError;
use crate::model::{checked_page_size, page_size_ok, Chat, CleanupGroup, CleanupGroupPage};
use crate::order::{self, text_lt};
use crate::text::{self, lowercase, unicode_lowercase};

verus! {

broadcast use vstd::seq_lib::group_to_multiset_ensures;

/// The orders the listing offers: newest first, oldest first, or by title
/// (what it falls back to for the orders by size and path).
#[derive(Debug, Clone, Copy, PartialEq, Eq, Structural)]
pub enum ChatOrder {
    Recent,
    Oldest,
    Title,
}

/// The order a sort name asks for.
pub open spec fn chat_order_of(sort: Seq<char>) -> ChatOrder {
    if sort == "recent"@ {
        ChatOrder::Recent
    } else if sort == "oldest"@ {
        ChatOrder::Oldest
    } else {
        ChatOrder::Title
    }
}

/// Chat `a` is listed before chat `b`: by the chosen order, then by title,
/// source and key.
pub open spec fn chat_before(a: Chat, b: Chat, o: ChatOrder) -> bool {
    let first_lt = match o {
        ChatOrder::Recent => a.last_updated > b.last_updated,
        ChatOrder::Oldest => a.last_updated < b.last_updated,
        ChatOrder::Title => text_lt(a.title@, b.title@),
    };
    let first_eq = match o {
        ChatOrder::Recent | ChatOrder::Oldest => a.last_updated == b.last_updated,
        ChatOrder::Title => a.title@ == b.title@,
    };
    first_lt || (first_eq && (text_lt(a.title@, b.title@) || (a.title@ == b.title@ && (text_lt(
        a.source@,
        b.source@,
    ) || (a.source@ == b.source@ && a.pk < b.pk)))))
}

/// No chat of `s` is listed before one that precedes it.
pub open spec fn chats_sorted(s: Seq<Chat>, o: ChatOrder) -> bool {
    forall|i: int, j: int| 0 <= i < j < s.len() ==> !chat_before(#[trigger] s[j], #[trigger] s[i], o)
}

proof fn lemma_chat_before_asymmetric(a: Chat, b: Chat, o: ChatOrder)
    ensures
        !(chat_before(a, b, o) && chat_before(b, a, o)),
{
    order::lemma_text_lt_asymmetric(a.title@, b.title@);
    order::lemma_text_lt_asymmetric(a.source@, b.source@);
    order::lemma_text_lt_irreflexive(a.title@);
    order::lemma_text_lt_irreflexive(a.source@);
}

proof fn lemma_chat_before_transitive(a: Chat, b: Chat, c: Chat, o: ChatOrder)
    requires
        chat_before(a, b, o),
        chat_before(b, c, o),
    ensures
        chat_before(a, c, o),
{
    order::lemma_text_lt_irreflexive(a.title@);
    order::lemma_text_lt_irreflexive(b.title@);
    order::lemma_text_lt_irreflexive(a.source@);
    order::lemma_text_lt_irreflexive(b.source@);
    if text_lt(a.title@, b.title@) && text_lt(b.title@, c.title@) {
        order::lemma_text_lt_transitive(a.title@, b.title@, c.title@);
    }
    if text_lt(a.source@, b.source@) && text_lt(b.source@, c.source@) {
        order::lemma_text_lt_transitive(a.source@, b.source@, c.source@);
    }
}

/// Two chats neither of which is listed before the other agree on every
/// sort key, so they compare alike with any third chat.
proof fn lemma_chat_tie(a: Chat, b: Chat, x: Chat, o: ChatOrder)
    requires
        !chat_before(a, b, o),
        !chat_before(b, a, o),
    ensures
        chat_before(x, a, o) == chat_before(x, b, o),
{
    order::lemma_text_lt_total(a.title@, b.title@);
    order::lemma_text_lt_total(a.source@, b.source@);
}

/// Whether the chat `c` holds `needle` in its title, id or last message,
/// all compared in lowercase.
pub open spec fn chat_matches(c: Chat, needle: Seq<char>) -> bool {
    text::contains(unicode_lowercase(c.title@), needle) || text::contains(
        unicode_lowercase(c.id@),
        needle,
    ) || text::contains(unicode_lowercase(c.last_message@), needle)
}

/// Whether the chat `c` is listed: it has no indexed attachment, and it
/// matches the search when there is one.
pub open spec fn chat_listed(c: Chat, indexed: Seq<(String, i64)>, needle: Option<Seq<char>>) -> bool {
    &&& !(exists|k: int| 0 <= k < indexed.len() && #[trigger] indexed[k].0@ == c.source@ && indexed[k].1 == c.pk)
    &&& match needle {
        Some(n) => chat_matches(c, n),
        None => true,
    }
}

/// The listed chats of `chats`, in their given order.
pub open spec fn listed_chats(chats: Seq<Chat>, indexed: Seq<(String, i64)>, needle: Option<Seq<char>>) -> Seq<
    Chat,
>
    decreases chats.len(),
{
    if chats.len() == 0 {
        seq![]
    } else {
        let prev = listed_chats(chats.drop_last(), indexed, needle);
        if chat_listed(chats.last(), indexed, needle) {
            prev.push(chats.last())
        } else {
            prev
        }
    }
}

/// The lowercase search a request asks for: its trimmed text, when any.
pub open spec fn search_needle(search: Option<Seq<char>>) -> Option<Seq<char>> {
    match search {
        Some(s) => if text::trim(s).len() > 0 {
            Some(unicode_lowercase(text::trim(s)))
        } else {
            None
        },
        None => None,
    }
}

/// The key of a chat's group in the listing: `empty:<source>:<key>`.
pub open spec fn empty_chat_key(c: Chat) -> Seq<char> {
    "empty:"@ + c.source@ + ":"@ + text::decimal_int(c.pk as int)
}

/// `g` is the listing group of the chat `c`.
pub open spec fn group_of_chat(g: CleanupGroup, c: Chat) -> bool {
    &&& g.key@ == empty_chat_key(c)
    &&& g.chat_source@ == c.source@
    &&& g.chat_pk == Some(c.pk)
    &&& g.chat_id@ == c.id@
    &&& g.chat_title@ == c.title@
    &&& g.chat_kind@ == c.kind@
    &&& g.reference_status@ == "no_attachments"@
    &&& g.file_count == 0
    &&& g.total_bytes == 0
    &&& g.marked_count == 0
    &&& !g.has_original
    &&& !g.has_thumbnail
    &&& g.thumbnail_backed_image_count == 0
    &&& !g.keeping_thumbnails
    &&& g.latest_timestamp == c.last_updated
    &&& g.planned_for_chat_removal == c.planned_for_removal
}

/// The first rule a request for the listing breaks: page, page size, a
/// file filter (the listing has no files to filter), sort.
pub open spec fn empty_listing_error(page: u32, page_size: u32, kind: Seq<char>, sort: Seq<char>) -> Option<
    CoreError,
> {
    if page == 0 {
        Some(CoreError::CleanupPageZero)
    } else if !page_size_ok(page_size) {
        Some(CoreError::PageSize)
    } else if kind != "all"@ {
        Some(CoreError::EmptyChatKindFilter)
    } else if !cleanup_sort_ok(sort) {
        Some(CoreError::CleanupSort)
    } else {
        None
    }
}

fn insert_sorted(out: &mut Vec<Chat>, c: Chat, o: ChatOrder)
    requires
        chats_sorted(old(out)@, o),
    ensures
        chats_sorted(final(out)@, o),
        final(out)@.to_multiset() == old(out)@.to_multiset().insert(c),
{
    let mut p: usize = 0;
    while p < out.len()
        invariant
            p <= out.len(),
            out@ == old(out)@,
            forall|k: int| 0 <= k < p ==> !chat_before(c, #[trigger] out@[k], o),
        ensures
            p <= out.len(),
            out@ == old(out)@,
            forall|k: int| 0 <= k < p ==> !chat_before(c, #[trigger] out@[k], o),
            p < out.len() ==> chat_before(c, out@[p as int], o),
        decreases out.len() - p,
    {
        if before(&c, &out[p], o) {
            break;
        }
        p = p + 1;
    }
    let ghost prev = out@;
    proof {
        assert forall|k: int| p <= k < prev.len() implies chat_before(c, #[trigger] prev[k], o) by {
            if k > p {
                assert(!chat_before(prev[k], prev[p as int], o));
                if chat_before(prev[p as int], prev[k], o) {
                    lemma_chat_before_transitive(c, prev[p as int], prev[k], o);
                } else {
                    lemma_chat_tie(prev[p as int], prev[k], c, o);
                }
            }
        }
    }
    out.insert(p, c);
    proof {
        let now = out@;
        assert forall|a: int, b: int| 0 <= a < b < now.len() implies !chat_before(
            #[trigger] now[b],
            #[trigger] now[a],
            o,
        ) by {
            if a < p && b == p {
                assert(now[a] == prev[a]);
            } else if a == p {
                assert(now[b] == prev[b - 1]);
                lemma_chat_before_asymmetric(now[a], now[b], o);
            } else if b < p {
                assert(now[a] == prev[a] && now[b] == prev[b]);
            } else if a < p {
                assert(now[a] == prev[a] && now[b] == prev[b - 1]);
            } else {
                assert(now[a] == prev[a - 1] && now[b] == prev[b - 1]);
            }
        }
    }
}

fn before(a: &Chat, b: &Chat, o: ChatOrder) -> (r: bool)
    ensures
        r == chat_before(*a, *b, o),
{
    let first_lt = match o {
        ChatOrder::Recent => a.last_updated > b.last_updated,
        ChatOrder::Oldest => a.last_updated < b.last_updated,
        ChatOrder::Title => order::text_less(&text::chars_of(a.title.as_str()), &text::chars_of(b.title.as_str())),
    };
    if first_lt {
        return true;
    }
    let at = text::chars_of(a.title.as_str());
    let bt = text::chars_of(b.title.as_str());
    let first_eq = match o {
        ChatOrder::Recent | ChatOrder::Oldest => a.last_updated == b.last_updated,
        ChatOrder::Title => text::eq_chars(&at, &bt),
    };
    if !first_eq {
        return false;
    }
    if order::text_less(&at, &bt) {
        return true;
    }
    if !text::eq_chars(&at, &bt) {
        return false;
    }
    let a_source = text::chars_of(a.source.as_str());
    let b_source = text::chars_of(b.source.as_str());
    if order::text_less(&a_source, &b_source) {
        return true;
    }
    text::eq_chars(&a_source, &b_source) && a.pk < b.pk
}

fn contains_text(hay: &String, needle: &Vec<char>) -> (r: bool)
    ensures
        r == text::contains(hay@, needle@),
{
    text::contains_chars(&text::chars_of(hay.as_str()), needle)
}

fn listed(c: &Chat, indexed: &Vec<(String, i64)>, needle: &Option<Vec<char>>) -> (r: bool)
    ensures
        r == chat_listed(
            *c,
            indexed@,
            match needle {
                Some(n) => Some(n@),
                None => None,
            },
        ),
{
    let source = text::chars_of(c.source.as_str());
    let mut k: usize = 0;
    while k < indexed.len()
        invariant
            k <= indexed.len(),
            source@ == c.source@,
            forall|q: int| 0 <= q < k ==> !(#[trigger] indexed@[q].0@ == c.source@ && indexed@[q].1 == c.pk),
        decreases indexed.len() - k,
    {
        if indexed[k].1 == c.pk && text::eq_chars(&text::chars_of(indexed[k].0.as_str()), &source) {
            return false;
        }
        k = k + 1;
    }
    match needle {
        Some(n) => {
            contains_text(&lowercase(c.title.as_str()), n) || contains_text(
                &lowercase(c.id.as_str()),
                n,
            ) || contains_text(&lowercase(c.last_message.as_str()), n)
        },
        None => true,
    }
}

fn group_of(c: &Chat) -> (g: CleanupGroup)
    ensures
        group_of_chat(g, *c),
{
    let mut key = text::chars_of("empty:");
    text::append_str(&mut key, c.source.as_str());
    key.push(':');
    text::push_decimal_i64(&mut key, c.pk);
    proof {
        reveal_strlit(":");
    }
    assert(key@ =~= empty_chat_key(*c));
    CleanupGroup {
        key: text::string_of(&key),
        chat_source: c.source.clone(),
        chat_pk: Some(c.pk),
        chat_id: c.id.clone(),
        chat_title: c.title.clone(),
        chat_kind: c.kind.clone(),
        reference_status: text::to_string("no_attachments"),
        file_count: 0,
        total_bytes: 0,
        marked_count: 0,
        has_original: false,
        has_thumbnail: false,
        thumbnail_backed_image_count: 0,
        keeping_thumbnails: false,
        latest_timestamp: c.last_updated,
        planned_for_chat_removal: c.planned_for_removal,
    }
}

/// Sorts the listed chats of `chats`.
fn sorted_listed(
    chats: Vec<Chat>,
    indexed: &Vec<(String, i64)>,
    needle: &Option<Vec<char>>,
    o: ChatOrder,
) -> (r: Vec<Chat>)
    ensures
        chats_sorted(r@, o),
        r@.to_multiset() == listed_chats(
            chats@,
            indexed@,
            match needle {
                Some(n) => Some(n@),
                None => None,
            },
        ).to_multiset(),
{
    let ghost nd = match needle {
        Some(n) => Some(n@),
        None => None::<Seq<char>>,
    };
    let ghost original = chats@;
    assert(original.len() == chats.len());
    let mut rest = chats;
    let mut out: Vec<Chat> = Vec::new();
    let mut i: usize = 0;
    while rest.len() > 0
        invariant
            i <= original.len(),
            original.len() <= usize::MAX,
            rest@ == original.skip(i as int),
            nd == match needle {
                Some(n) => Some(n@),
                None => None::<Seq<char>>,
            },
            chats_sorted(out@, o),
            out@.to_multiset() == listed_chats(original.take(i as int), indexed@, nd).to_multiset(),
        decreases rest.len(),
    {
        let c = rest.remove(0);
        assert(c == original[i as int]);
        assert(original.take(i + 1).drop_last() =~= original.take(i as int));
        assert(original.take(i + 1).last() == original[i as int]);
        assert(rest@ =~= original.skip(i + 1));
        if listed(&c, indexed, needle) {
            insert_sorted(&mut out, c, o);
        }
        i = i + 1;
    }
    assert(original.skip(i as int).len() == 0);
    assert(original.take(i as int) =~= original);
    out
}

/// One page of the chats that hold no attachment. `indexed` names the
/// chats (source, key) that hold one; a search keeps the chats whose
/// title, id or last message holds its trimmed text, in lowercase.
pub fn list_empty_attachment_chats(
    chats: Vec<Chat>,
    indexed: &Vec<(String, i64)>,
    page: u32,
    page_size: u32,
    search: Option<&str>,
    kind: &str,
    sort: &str,
) -> (r: Result<CleanupGroupPage, CoreError>)
    ensures
        match empty_listing_error(page, page_size, kind@, sort@) {
            Some(e) => r == Err::<CleanupGroupPage, CoreError>(e),
            None => {
                let needle = search_needle(
                    match search {
                        Some(s) => Some(s@),
                        None => None,
                    },
                );
                let listed = listed_chats(chats@, indexed@, needle);
                let offset = (page - 1) * page_size;
                if offset > i64::MAX {
                    r is Err
                } else {
                    r matches Ok(p) && {
                        &&& p.page == page
                        &&& p.page_size == page_size
                        &&& p.total_items == listed.len()
                        &&& p.total_pages == total_pages(listed.len() as u64, page_size)
                        &&& exists|ordered: Seq<Chat>|
                            {
                                &&& chats_sorted(ordered, chat_order_of(sort@))
                                &&& ordered.to_multiset() == listed.to_multiset()
                                &&& p.items@.len() == (if offset >= ordered.len() {
                                    0
                                } else if ordered.len() - offset < page_size {
                                    ordered.len() - offset
                                } else {
                                    page_size as int
                                })
                                &&& forall|i: int|
                                    0 <= i < p.items@.len() ==> group_of_chat(
                                        #[trigger] p.items@[i],
                                        ordered[offset + i],
                                    )
                            }
                    }
                }
            },
        },
{
    if page == 0 {
        return Err(CoreError::CleanupPageZero);
    }
    let limit = checked_page_size(page_size)?;
    if !text::eq_str(&text::chars_of(kind), "all") {
        return Err(CoreError::EmptyChatKindFilter);
    }
    let s = text::chars_of(sort);
    let o = if text::eq_str(&s, "recent") {
        ChatOrder::Recent
    } else if text::eq_str(&s, "oldest") {
        ChatOrder::Oldest
    } else if text::eq_str(&s, "size") || text::eq_str(&s, "path") {
        ChatOrder::Title
    } else {
        return Err(CoreError::CleanupSort);
    };
    let needle: Option<Vec<char>> = match search {
        Some(q) => {
            let t = text::trimmed(&text::chars_of(q));
            if t.len() == 0 {
                None
            } else {
                Some(text::chars_of(lowercase(text::string_of(&t).as_str()).as_str()))
            }
        },
        None => None,
    };
    let ghost nd = search_needle(
        match search {
            Some(q) => Some(q@),
            None => None,
        },
    );
    assert(nd == match needle {
        Some(n) => Some(n@),
        None => None::<Seq<char>>,
    });
    let ghost original = chats@;
    let ordered = sorted_listed(chats, indexed, &needle, o);
    proof {
        vstd::seq_lib::to_multiset_len(ordered@);
        vstd::seq_lib::to_multiset_len(listed_chats(original, indexed@, nd));
    }
    let total = ordered.len() as u64;
    let offset = cleanup_offset(page, limit)?;
    let off: usize = if offset as u64 > usize::MAX as u64 {
        usize::MAX
    } else {
        offset as usize
    };
    assert(off >= ordered@.len() || off == (page - 1) * page_size);
    let mut items: Vec<CleanupGroup> = Vec::new();
    let mut j: usize = off;
    while j < ordered.len() && j - off < limit
        invariant
            off <= j,
            j <= ordered.len() || j == off,
            items@.len() == j - off,
            j - off <= limit,
            limit == page_size,
            forall|i: int| 0 <= i < items@.len() ==> group_of_chat(#[trigger] items@[i], ordered@[off + i]),
        decreases ordered.len() - j,
    {
        items.push(group_of(&ordered[j]));
        j = j + 1;
    }
    let total_pages = cleanup_total_pages(total, page_size);
    proof {
        let ghost offset_int = (page - 1) * page_size;
        let ghost want = if offset_int >= ordered@.len() {
            0
        } else if ordered@.len() - offset_int < page_size {
            ordered@.len() - offset_int
        } else {
            page_size as int
        };
        assert(items@.len() == want);
        assert(chats_sorted(ordered@, chat_order_of(sort@)));
        assert(ordered@.to_multiset() == listed_chats(original, indexed@, nd).to_multiset());
    }
    Ok(CleanupGroupPage { items, page, page_size, total_items: total, total_pages })
}

} // verus!
