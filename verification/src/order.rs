//! The order of texts that `String`'s `Ord` uses: character by character by
//! code point (UTF-8 bytes compare in the same order), a proper prefix
//! first; and a sort of text lists by it.

use vstd::prelude::*;

use crate::text;

verus! {

broadcast use vstd::seq_lib::group_to_multiset_ensures;

/// `a` comes strictly before `b`.
pub open spec fn text_lt(a: Seq<char>, b: Seq<char>) -> bool
    decreases a.len(),
{
    if a.len() == 0 {
        b.len() > 0
    } else if b.len() == 0 {
        false
    } else if a[0] != b[0] {
        (a[0] as u32) < (b[0] as u32)
    } else {
        text_lt(a.drop_first(), b.drop_first())
    }
}

/// Every text of `s` comes no later than the texts after it.
pub open spec fn sorted_texts(s: Seq<Seq<char>>) -> bool {
    forall|i: int, j: int| 0 <= i < j < s.len() ==> !text_lt(#[trigger] s[j], #[trigger] s[i])
}

/// No text comes before itself.
pub proof fn lemma_text_lt_irreflexive(a: Seq<char>)
    ensures
        !text_lt(a, a),
    decreases a.len(),
{
    if a.len() > 0 {
        lemma_text_lt_irreflexive(a.drop_first());
    }
}

/// Of two texts, at most one comes before the other.
pub proof fn lemma_text_lt_asymmetric(a: Seq<char>, b: Seq<char>)
    ensures
        !(text_lt(a, b) && text_lt(b, a)),
    decreases a.len(),
{
    if a.len() > 0 && b.len() > 0 && a[0] == b[0] {
        lemma_text_lt_asymmetric(a.drop_first(), b.drop_first());
    }
}

/// Of two different texts, one comes before the other.
pub proof fn lemma_text_lt_total(a: Seq<char>, b: Seq<char>)
    ensures
        a == b || text_lt(a, b) || text_lt(b, a),
    decreases a.len(),
{
    if a.len() > 0 && b.len() > 0 && a[0] == b[0] {
        lemma_text_lt_total(a.drop_first(), b.drop_first());
        if a.drop_first() == b.drop_first() {
            assert(a =~= seq![a[0]] + a.drop_first());
            assert(b =~= seq![b[0]] + b.drop_first());
        }
    } else if a.len() > 0 && b.len() > 0 {
        lemma_char_code_injective(a[0], b[0]);
    } else if a.len() == 0 && b.len() == 0 {
        assert(a =~= b);
    }
}

proof fn lemma_char_code_injective(c: char, d: char)
    requires
        c != d,
    ensures
        (c as u32) != (d as u32),
{
}

/// The order is transitive.
pub proof fn lemma_text_lt_transitive(a: Seq<char>, b: Seq<char>, c: Seq<char>)
    requires
        text_lt(a, b),
        text_lt(b, c),
    ensures
        text_lt(a, c),
    decreases a.len(),
{
    if a.len() > 0 && b.len() > 0 && c.len() > 0 && a[0] == b[0] && b[0] == c[0] {
        lemma_text_lt_transitive(a.drop_first(), b.drop_first(), c.drop_first());
    }
}

proof fn lemma_text_lt_skip(a: Seq<char>, b: Seq<char>, i: int)
    requires
        0 <= i <= a.len(),
        i <= b.len(),
        a.take(i) == b.take(i),
    ensures
        text_lt(a, b) == text_lt(a.skip(i), b.skip(i)),
    decreases i,
{
    if i > 0 {
        assert(a[0] == a.take(i)[0]);
        assert(b[0] == b.take(i)[0]);
        assert(a.drop_first().take(i - 1) =~= a.take(i).drop_first());
        assert(b.drop_first().take(i - 1) =~= b.take(i).drop_first());
        lemma_text_lt_skip(a.drop_first(), b.drop_first(), i - 1);
        assert(a.drop_first().skip(i - 1) =~= a.skip(i));
        assert(b.drop_first().skip(i - 1) =~= b.skip(i));
    } else {
        assert(a.skip(0) =~= a);
        assert(b.skip(0) =~= b);
    }
}

/// Whether `a` comes strictly before `b`.
pub fn text_less(a: &Vec<char>, b: &Vec<char>) -> (r: bool)
    ensures
        r == text_lt(a@, b@),
{
    let mut i: usize = 0;
    while i < a.len() && i < b.len()
        invariant
            i <= a.len(),
            i <= b.len(),
            a@.take(i as int) == b@.take(i as int),
        decreases a.len() - i,
    {
        if a[i] != b[i] {
            proof {
                lemma_text_lt_skip(a@, b@, i as int);
                assert(a@.skip(i as int)[0] == a@[i as int]);
                assert(b@.skip(i as int)[0] == b@[i as int]);
            }
            return (a[i] as u32) < (b[i] as u32);
        }
        assert(a@.take(i + 1) =~= a@.take(i as int).push(a@[i as int]));
        assert(b@.take(i + 1) =~= b@.take(i as int).push(b@[i as int]));
        i = i + 1;
    }
    proof {
        lemma_text_lt_skip(a@, b@, i as int);
    }
    i < b.len()
}

/// The texts of `items` in order, each one no later than the next; the
/// same texts, as many times each.
pub fn sort_texts(items: &Vec<Vec<char>>) -> (r: Vec<Vec<char>>)
    ensures
        sorted_texts(text::views(r@)),
        text::views(r@).to_multiset() == text::views(items@).to_multiset(),
{
    let mut out: Vec<Vec<char>> = Vec::new();
    let mut i: usize = 0;
    assert(text::views(items@).take(0) =~= Seq::<Seq<char>>::empty());
    while i < items.len()
        invariant
            i <= items.len(),
            sorted_texts(text::views(out@)),
            text::views(out@).to_multiset() == text::views(items@).take(i as int).to_multiset(),
        decreases items.len() - i,
    {
        let x = text::copy_chars(&items[i]);
        let mut p: usize = 0;
        while p < out.len()
            invariant
                p <= out.len(),
                x@ == items@[i as int]@,
                forall|k: int| 0 <= k < p ==> !text_lt(x@, #[trigger] out@[k]@),
            ensures
                p <= out.len(),
                forall|k: int| 0 <= k < p ==> !text_lt(x@, #[trigger] out@[k]@),
                p < out.len() ==> text_lt(x@, out@[p as int]@),
            decreases out.len() - p,
        {
            if text_less(&x, &out[p]) {
                break;
            }
            p = p + 1;
        }
        let ghost before = text::views(out@);
        proof {
            assert forall|k: int| p <= k < before.len() implies text_lt(x@, #[trigger] before[k]) by {
                assert(before[p as int] == out@[p as int]@);
                if k > p {
                    assert(!text_lt(before[k], before[p as int]));
                    lemma_text_lt_total(before[p as int], before[k]);
                    if text_lt(before[p as int], before[k]) {
                        lemma_text_lt_transitive(x@, before[p as int], before[k]);
                    }
                }
            }
        }
        out.insert(p, x);
        proof {
            let after = text::views(out@);
            assert(after =~= before.insert(p as int, items@[i as int]@));
            assert forall|a: int, b: int| 0 <= a < b < after.len() implies !text_lt(
                #[trigger] after[b],
                #[trigger] after[a],
            ) by {
                if a < p && b == p {
                    assert(after[a] == before[a]);
                } else if a == p {
                    assert(after[b] == before[b - 1]);
                    lemma_text_lt_asymmetric(after[a], after[b]);
                } else if b < p {
                    assert(after[a] == before[a] && after[b] == before[b]);
                } else if a < p {
                    assert(after[a] == before[a] && after[b] == before[b - 1]);
                } else {
                    assert(after[a] == before[a - 1] && after[b] == before[b - 1]);
                }
            }
            assert(text::views(items@).take(i + 1) =~= text::views(items@).take(i as int).push(
                items@[i as int]@,
            ));
        }
        i = i + 1;
    }
    assert(text::views(items@).take(items.len() as int) =~= text::views(items@));
    out
}

/// The strings of `items`, sorted as `Vec<String>::sort` sorts them.
pub fn sort_strings(items: &Vec<String>) -> (r: Vec<String>)
    ensures
        sorted_texts(r@.map_values(|s: String| s@)),
        r@.map_values(|s: String| s@).to_multiset() == items@.map_values(|s: String| s@).to_multiset(),
{
    let mut keys: Vec<Vec<char>> = Vec::new();
    let mut i: usize = 0;
    while i < items.len()
        invariant
            i <= items.len(),
            text::views(keys@) == items@.map_values(|s: String| s@).take(i as int),
        decreases items.len() - i,
    {
        keys.push(text::chars_of(items[i].as_str()));
        assert(items@.map_values(|s: String| s@).take(i + 1) =~= items@.map_values(
            |s: String| s@,
        ).take(i as int).push(items@[i as int]@));
        assert(text::views(keys@) =~= text::views(keys@).take(i as int).push(items@[i as int]@));
        i = i + 1;
    }
    assert(items@.map_values(|s: String| s@).take(items.len() as int) =~= items@.map_values(
        |s: String| s@,
    ));
    let sorted = sort_texts(&keys);
    let mut out: Vec<String> = Vec::new();
    let mut j: usize = 0;
    while j < sorted.len()
        invariant
            j <= sorted.len(),
            out@.map_values(|s: String| s@) == text::views(sorted@).take(j as int),
        decreases sorted.len() - j,
    {
        out.push(text::string_of(&sorted[j]));
        assert(text::views(sorted@).take(j + 1) =~= text::views(sorted@).take(j as int).push(
            sorted@[j as int]@,
        ));
        assert(out@.map_values(|s: String| s@) =~= out@.map_values(|s: String| s@).take(
            j as int,
        ).push(sorted@[j as int]@));
        j = j + 1;
    }
    assert(text::views(sorted@).take(sorted.len() as int) =~= text::views(sorted@));
    out
}

/// The keys of `items` come in order.
pub open spec fn keys_sorted<V>(items: Seq<(String, V)>) -> bool {
    forall|i: int, j: int|
        0 <= i < j < items.len() ==> !text_lt(#[trigger] items[j].0@, #[trigger] items[i].0@)
}

fn insert_keyed<V>(out: &mut Vec<(String, V)>, x: (String, V))
    requires
        keys_sorted(old(out)@),
    ensures
        keys_sorted(final(out)@),
        final(out)@.to_multiset() == old(out)@.to_multiset().insert(x),
{
    let key = text::chars_of(x.0.as_str());
    let mut p: usize = 0;
    while p < out.len()
        invariant
            p <= out.len(),
            out@ == old(out)@,
            key@ == x.0@,
            forall|k: int| 0 <= k < p ==> !text_lt(x.0@, #[trigger] out@[k].0@),
        ensures
            p <= out.len(),
            out@ == old(out)@,
            forall|k: int| 0 <= k < p ==> !text_lt(x.0@, #[trigger] out@[k].0@),
            p < out.len() ==> text_lt(x.0@, out@[p as int].0@),
        decreases out.len() - p,
    {
        if text_less(&key, &text::chars_of(out[p].0.as_str())) {
            break;
        }
        p = p + 1;
    }
    let ghost before = out@;
    proof {
        assert forall|k: int| p <= k < before.len() implies text_lt(x.0@, #[trigger] before[k].0@) by {
            if k > p {
                assert(!text_lt(before[k].0@, before[p as int].0@));
                lemma_text_lt_total(before[p as int].0@, before[k].0@);
                if text_lt(before[p as int].0@, before[k].0@) {
                    lemma_text_lt_transitive(x.0@, before[p as int].0@, before[k].0@);
                }
            }
        }
    }
    out.insert(p, x);
    proof {
        let after = out@;
        assert forall|a: int, b: int| 0 <= a < b < after.len() implies !text_lt(
            #[trigger] after[b].0@,
            #[trigger] after[a].0@,
        ) by {
            if a < p && b == p {
                assert(after[a] == before[a]);
            } else if a == p {
                assert(after[b] == before[b - 1]);
                lemma_text_lt_asymmetric(after[a].0@, after[b].0@);
            } else if b < p {
                assert(after[a] == before[a] && after[b] == before[b]);
            } else if a < p {
                assert(after[a] == before[a] && after[b] == before[b - 1]);
            } else {
                assert(after[a] == before[a - 1] && after[b] == before[b - 1]);
            }
        }
    }
}

/// `items` ordered by their keys; the same items, as many times each.
pub fn sort_keyed<V>(items: Vec<(String, V)>) -> (r: Vec<(String, V)>)
    ensures
        keys_sorted(r@),
        r@.to_multiset() == items@.to_multiset(),
{
    let ghost original = items@;
    assert(original.len() == items.len());
    let mut rest = items;
    let mut out: Vec<(String, V)> = Vec::new();
    let mut i: usize = 0;
    assert(original.take(0) =~= Seq::<(String, V)>::empty());
    assert(original.skip(0) =~= original);
    while rest.len() > 0
        invariant
            i <= original.len(),
            original.len() <= usize::MAX,
            rest@ == original.skip(i as int),
            keys_sorted(out@),
            out@.to_multiset() == original.take(i as int).to_multiset(),
        decreases rest.len(),
    {
        let x = rest.remove(0);
        assert(x == original[i as int]);
        assert(original.take(i + 1) =~= original.take(i as int).push(original[i as int]));
        assert(rest@ =~= original.skip(i + 1));
        insert_keyed(&mut out, x);
        i = i + 1;
    }
    assert(original.take(i as int) =~= original);
    out
}

/// The numbers of `items` come in order.
pub open spec fn numbers_sorted<V>(items: Seq<(i128, V)>) -> bool {
    forall|i: int, j: int| 0 <= i < j < items.len() ==> (#[trigger] items[i]).0 <= (#[trigger] items[j]).0
}

fn insert_numbered<V>(out: &mut Vec<(i128, V)>, x: (i128, V))
    requires
        numbers_sorted(old(out)@),
    ensures
        numbers_sorted(final(out)@),
        final(out)@.to_multiset() == old(out)@.to_multiset().insert(x),
{
    let mut p: usize = 0;
    while p < out.len()
        invariant
            p <= out.len(),
            out@ == old(out)@,
            forall|k: int| 0 <= k < p ==> (#[trigger] out@[k]).0 <= x.0,
        ensures
            p <= out.len(),
            out@ == old(out)@,
            forall|k: int| 0 <= k < p ==> (#[trigger] out@[k]).0 <= x.0,
            p < out.len() ==> x.0 < out@[p as int].0,
        decreases out.len() - p,
    {
        if x.0 < out[p].0 {
            break;
        }
        p = p + 1;
    }
    let ghost before = out@;
    out.insert(p, x);
    proof {
        let after = out@;
        assert forall|a: int, b: int| 0 <= a < b < after.len() implies (#[trigger] after[a]).0
            <= (#[trigger] after[b]).0 by {
            if a < p && b == p {
                assert(after[a] == before[a]);
            } else if a == p {
                assert(after[b] == before[b - 1]);
                assert(before[p as int].0 <= before[b - 1].0);
            } else if b < p {
                assert(after[a] == before[a] && after[b] == before[b]);
            } else if a < p {
                assert(after[a] == before[a] && after[b] == before[b - 1]);
            } else {
                assert(after[a] == before[a - 1] && after[b] == before[b - 1]);
            }
        }
    }
}

/// `items` ordered by their numbers; the same items, as many times each.
pub fn sort_by_number<V>(items: Vec<(i128, V)>) -> (r: Vec<(i128, V)>)
    ensures
        numbers_sorted(r@),
        r@.to_multiset() == items@.to_multiset(),
{
    let ghost original = items@;
    assert(original.len() == items.len());
    let mut rest = items;
    let mut out: Vec<(i128, V)> = Vec::new();
    let mut i: usize = 0;
    assert(original.take(0) =~= Seq::<(i128, V)>::empty());
    assert(original.skip(0) =~= original);
    while rest.len() > 0
        invariant
            i <= original.len(),
            original.len() <= usize::MAX,
            rest@ == original.skip(i as int),
            numbers_sorted(out@),
            out@.to_multiset() == original.take(i as int).to_multiset(),
        decreases rest.len(),
    {
        let x = rest.remove(0);
        assert(x == original[i as int]);
        assert(original.take(i + 1) =~= original.take(i as int).push(original[i as int]));
        assert(rest@ =~= original.skip(i + 1));
        insert_numbered(&mut out, x);
        i = i + 1;
    }
    assert(original.take(i as int) =~= original);
    out
}

} // verus!
