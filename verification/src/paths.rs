//! Rules for the paths of backup entries: which are safe, which are
//! protected, which are attachments, and how related entries are named.
//!
//! Paths are `/`-separated text relative to the backup root, as archive
//! entries and catalog rows hold them.

use vstd::prelude::*;

use crate::error::CoreError;
use crate::text;

verus! {

// ---------------------------------------------------------------------
// Specifications
// ---------------------------------------------------------------------

/// A path component that may not appear in a safe relative path.
pub open spec fn bad_component(c: Seq<char>) -> bool {
    c.len() == 0 || c == "."@ || c == ".."@
}

/// Every `/`-separated component of `p` is non-empty and neither `.` nor `..`.
pub open spec fn components_ok(p: Seq<char>) -> bool {
    forall|k: int| 0 <= k < text::split(p, '/').len() ==> !bad_component(#[trigger] text::split(p, '/')[k])
}

/// A relative path that can be resolved inside a root without escaping it.
pub open spec fn safe_relative(p: Seq<char>) -> bool {
    p.len() > 0 && p[0] != '/' && components_ok(p)
}

/// An archive path that may take part in duplicate linking.
pub open spec fn safe_archive_path(p: Seq<char>) -> bool {
    safe_relative(p) && !text::has_char(p, '\\')
}

/// `p` with every leading and trailing `c` removed.
pub open spec fn strip_char(p: Seq<char>, c: char) -> Seq<char> {
    strip_end_char(strip_start_char(p, c), c)
}

/// `p` with every leading `c` removed.
pub open spec fn strip_start_char(p: Seq<char>, c: char) -> Seq<char>
    decreases p.len(),
{
    if p.len() > 0 && p[0] == c {
        strip_start_char(p.drop_first(), c)
    } else {
        p
    }
}

/// `p` with every trailing `c` removed.
pub open spec fn strip_end_char(p: Seq<char>, c: char) -> Seq<char>
    decreases p.len(),
{
    if p.len() > 0 && p.last() == c {
        strip_end_char(p.drop_last(), c)
    } else {
        p
    }
}

/// An entry under a `Message Attachments` or `Message Thumbnails` folder.
pub open spec fn removable_attachment(p: Seq<char>) -> bool {
    let wrapped = seq!['/'] + strip_char(p, '/') + seq!['/'];
    text::contains(wrapped, "/Message Attachments/"@) || text::contains(wrapped, "/Message Thumbnails/"@)
}

/// An entry that a cleanup may never remove or change.
pub open spec fn protected_path(p: Seq<char>) -> bool {
    ||| p == ".lock"@
    ||| p == "iTunesArtwork"@
    ||| p == "iTunesMetadata.plist"@
    ||| p == "Payload/LINE.app/Info.plist"@
    ||| text::ends_with(p, "/Messages/Line.sqlite"@)
    ||| text::ends_with(p, "/Messages/Line.sqlite-wal"@)
    ||| text::ends_with(p, "/Messages/Line.sqlite-shm"@)
}

/// The name of `file` beside the entry `database`: same folder, other name.
pub open spec fn sibling_name(database: Seq<char>, file: Seq<char>) -> Seq<char> {
    match text::last_index_of(database, '/') {
        Some(k) => database.subrange(0, k) + seq!['/'] + file,
        None => file,
    }
}

/// `p` with backslashes turned into slashes.
pub open spec fn slashed(p: Seq<char>) -> Seq<char> {
    text::replace_char(p, '\\', '/')
}

/// The `/`-separated segments of `p` after turning backslashes into slashes.
pub open spec fn segments(p: Seq<char>) -> Seq<Seq<char>> {
    text::split(slashed(p), '/')
}

/// The leading run of ASCII digits of `s`.
pub open spec fn leading_digits(s: Seq<char>) -> Seq<char>
    decreases s.len(),
{
    if s.len() > 0 && text::is_digit(s[0]) {
        seq![s[0]] + leading_digits(s.drop_first())
    } else {
        Seq::empty()
    }
}

/// The message id a file name starts with: at least eight leading digits.
pub open spec fn message_id_of(file_name: Seq<char>) -> Seq<char> {
    if leading_digits(file_name).len() >= 8 {
        leading_digits(file_name)
    } else {
        Seq::empty()
    }
}

proof fn lemma_leading_digits_of_run(s: Seq<char>, k: int)
    requires
        0 <= k <= s.len(),
        forall|i: int| 0 <= i < k ==> text::is_digit(#[trigger] s[i]),
        k == s.len() || !text::is_digit(s[k]),
    ensures
        leading_digits(s) == s.take(k),
    decreases k,
{
    if k == 0 {
        assert(s.take(0) =~= Seq::<char>::empty());
    } else {
        let d = s.drop_first();
        assert forall|i: int| 0 <= i < k - 1 implies text::is_digit(#[trigger] d[i]) by {
            assert(d[i] == s[i + 1]);
        }
        if k < s.len() {
            assert(d[k - 1] == s[k]);
        }
        lemma_leading_digits_of_run(d, k - 1);
        assert(seq![s[0]] + d.take(k - 1) =~= s.take(k));
    }
}

/// Law: when a file name starts with a run of `k` ASCII digits, its
/// message id is that whole run if it is at least eight digits long,
/// however long, and nothing otherwise.
pub proof fn lemma_message_id_is_the_leading_run(file_name: Seq<char>, k: int)
    requires
        0 <= k <= file_name.len(),
        forall|i: int| 0 <= i < k ==> text::is_digit(#[trigger] file_name[i]),
        k == file_name.len() || !text::is_digit(file_name[k]),
    ensures
        k >= 8 ==> message_id_of(file_name) == file_name.take(k),
        k < 8 ==> message_id_of(file_name) == Seq::<char>::empty(),
{
    lemma_leading_digits_of_run(file_name, k);
}

/// Rank of a path as the main LINE database: lower is preferred.
pub open spec fn database_rank(p: Seq<char>) -> Option<u8> {
    let n = slashed(p);
    if !text::ends_with(text::lower_ascii(n), "/messages/line.sqlite"@) && !text::eq_ignore_case(n, "Line.sqlite"@) {
        None
    } else if text::contains(n, "/PrivateStore/P_"@) {
        Some(0)
    } else if text::contains(n, "group.com.linecorp.line"@) {
        Some(1)
    } else {
        Some(2)
    }
}

/// Index of the first segment that satisfies `f`.
pub open spec fn first_index(segs: Seq<Seq<char>>, f: spec_fn(Seq<char>) -> bool) -> Option<int>
    decreases segs.len(),
{
    if segs.len() == 0 {
        None
    } else if f(segs[0]) {
        Some(0)
    } else {
        match first_index(segs.drop_first(), f) {
            Some(i) => Some(i + 1),
            None => None,
        }
    }
}

/// The account id of the first `P_` segment of `p`, when it is non-empty.
pub open spec fn account_id_of(p: Seq<char>) -> Option<Seq<char>> {
    let segs = segments(p);
    match first_index(segs, |s: Seq<char>| text::starts_with(s, "P_"@)) {
        Some(k) => {
            let id = segs[k].subrange(2, segs[k].len() as int);
            if id.len() > 0 {
                Some(id)
            } else {
                None
            }
        },
        None => None,
    }
}

/// The account id and account folder of a path under `PrivateStore/P_<id>`.
pub open spec fn private_store_account(p: Seq<char>) -> Option<(Seq<char>, Seq<char>)> {
    let segs = text::split(p, '/');
    if text::has_char(p, '\\') {
        None
    } else {
        match first_index(segs.drop_last(), |s: Seq<char>| s == "PrivateStore"@) {
            Some(k) => {
                let next = segs[k + 1];
                if text::starts_with(next, "P_"@) && next.len() > 2 {
                    Some(
                        (
                            next.subrange(2, next.len() as int),
                            text::join(segs.take(k + 2), seq!['/']),
                        ),
                    )
                } else {
                    None
                }
            },
            None => None,
        }
    }
}

/// The last `/`-separated segment of `p`.
pub open spec fn last_segment(p: Seq<char>) -> Seq<char> {
    text::split(p, '/').last()
}

// ---------------------------------------------------------------------
// Lemmas
// ---------------------------------------------------------------------

proof fn lemma_leading_digits_step(s: Seq<char>, i: int)
    requires
        0 <= i < s.len(),
        text::is_digit(s[i]),
    ensures
        leading_digits(s.skip(i)) == seq![s[i]] + leading_digits(s.skip(i + 1)),
{
    assert(s.skip(i).drop_first() =~= s.skip(i + 1));
    assert(s.skip(i)[0] == s[i]);
}

// ---------------------------------------------------------------------
// Executable rules
// ---------------------------------------------------------------------

fn is_bad_component(c: &Vec<char>) -> (r: bool)
    ensures
        r == bad_component(c@),
{
    c.len() == 0 || text::eq_str(c, ".") || text::eq_str(c, "..")
}

fn all_components_ok(parts: &Vec<Vec<char>>) -> (r: bool)
    ensures
        r == forall|k: int| 0 <= k < parts.len() ==> !bad_component(#[trigger] parts@[k]@),
{
    let mut i: usize = 0;
    while i < parts.len()
        invariant
            i <= parts.len(),
            forall|k: int| 0 <= k < i ==> !bad_component(#[trigger] parts@[k]@),
        decreases parts.len() - i,
    {
        if is_bad_component(&parts[i]) {
            return false;
        }
        i = i + 1;
    }
    true
}

/// Whether every component of `p` is non-empty and neither `.` nor `..`.
fn check_components(p: &Vec<char>) -> (r: bool)
    ensures
        r == components_ok(p@),
{
    let parts = text::split_on(p, '/');
    let ok = all_components_ok(&parts);
    proof {
        if ok {
            assert forall|k: int| 0 <= k < text::split(p@, '/').len() implies !bad_component(
                #[trigger] text::split(p@, '/')[k],
            ) by {
                assert(text::split(p@, '/')[k] == text::views(parts@)[k]);
            }
        } else {
            let k = choose|k: int| 0 <= k < parts.len() && bad_component(#[trigger] parts@[k]@);
            assert(text::split(p@, '/')[k] == parts@[k]@);
        }
    }
    ok
}

/// The components of a safe archive path; anything that could escape the
/// archive root is refused.
pub fn safe_archive_components(path: &str) -> (r: Result<Vec<String>, CoreError>)
    ensures
        match r {
            Ok(parts) => safe_archive_path(path@) && parts@.map_values(|s: String| s@) == text::split(
                path@,
                '/',
            ),
            Err(e) => !safe_archive_path(path@) && (e matches CoreError::UnsafeLinkPath(v) && v@
                == path@),
        },
{
    let p = text::chars_of(path);
    let parts = text::split_on(&p, '/');
    let ok = p.len() > 0 && p[0] != '/' && !text::contains_char(&p, '\\') && check_components(&p);
    if !ok {
        return Err(CoreError::UnsafeLinkPath(p));
    }
    let mut out: Vec<String> = Vec::new();
    let mut i: usize = 0;
    while i < parts.len()
        invariant
            i <= parts.len(),
            text::views(parts@) == text::split(p@, '/'),
            out@.map_values(|s: String| s@) == text::views(parts@).take(i as int),
        decreases parts.len() - i,
    {
        let s = text::string_of(&parts[i]);
        let ghost prev = out@;
        out.push(s);
        assert(out@.map_values(|s: String| s@) =~= prev.map_values(|s: String| s@).push(
            parts@[i as int]@,
        ));
        assert(text::views(parts@).take(i + 1) =~= text::views(parts@).take(i as int).push(
            parts@[i as int]@,
        ));
        i = i + 1;
    }
    assert(text::views(parts@).take(parts.len() as int) =~= text::views(parts@));
    Ok(out)
}


// ---------------------------------------------------------------------
// Relative links between archive entries
// ---------------------------------------------------------------------

/// How many leading components `a` and `b` share.
pub open spec fn common_prefix_len(a: Seq<Seq<char>>, b: Seq<Seq<char>>) -> nat
    decreases a.len(),
{
    if a.len() > 0 && b.len() > 0 && a[0] == b[0] {
        1 + common_prefix_len(a.drop_first(), b.drop_first())
    } else {
        0
    }
}

/// `n` parent steps.
pub open spec fn parent_steps(n: nat) -> Seq<Seq<char>> {
    Seq::new(n, |i: int| ".."@)
}

/// The components of the relative link from the entry `link` to the entry `target`.
pub open spec fn relative_link_components(link: Seq<char>, target: Seq<char>) -> Seq<Seq<char>> {
    let parent = text::split(link, '/').drop_last();
    let goal = text::split(target, '/');
    let c = common_prefix_len(parent, goal);
    parent_steps((parent.len() - c) as nat) + goal.skip(c as int)
}

/// Where a relative path leads from the folder `base`: `..` leaves a folder,
/// any other component enters one.
pub open spec fn resolve(base: Seq<Seq<char>>, rel: Seq<Seq<char>>) -> Seq<Seq<char>>
    decreases rel.len(),
{
    if rel.len() == 0 {
        base
    } else if rel[0] == ".."@ {
        resolve(base.drop_last(), rel.drop_first())
    } else {
        resolve(base.push(rel[0]), rel.drop_first())
    }
}

proof fn lemma_common_prefix(a: Seq<Seq<char>>, b: Seq<Seq<char>>)
    ensures
        common_prefix_len(a, b) <= a.len(),
        common_prefix_len(a, b) <= b.len(),
        a.take(common_prefix_len(a, b) as int) == b.take(common_prefix_len(a, b) as int),
        common_prefix_len(a, b) < a.len() && common_prefix_len(a, b) < b.len() ==> a[common_prefix_len(a, b) as int] != b[common_prefix_len(a, b) as int],
    decreases a.len(),
{
    if a.len() > 0 && b.len() > 0 && a[0] == b[0] {
        lemma_common_prefix(a.drop_first(), b.drop_first());
        let c = common_prefix_len(a.drop_first(), b.drop_first());
        assert(a.take((c + 1) as int) =~= seq![a[0]] + a.drop_first().take(c as int));
        assert(b.take((c + 1) as int) =~= seq![b[0]] + b.drop_first().take(c as int));
    } else {
        assert(a.take(0) =~= b.take(0));
    }
}

proof fn lemma_resolve_steps(base: Seq<Seq<char>>, n: nat, rest: Seq<Seq<char>>)
    requires
        n <= base.len(),
    ensures
        resolve(base, parent_steps(n) + rest) == resolve(base.take(base.len() - n), rest),
    decreases n,
{
    if n == 0 {
        assert(parent_steps(0) + rest =~= rest);
        assert(base.take(base.len() as int) =~= base);
    } else {
        let whole = parent_steps(n) + rest;
        assert(whole[0] == ".."@);
        assert(whole.drop_first() =~= parent_steps((n - 1) as nat) + rest);
        lemma_resolve_steps(base.drop_last(), (n - 1) as nat, rest);
        assert(base.drop_last().take(base.drop_last().len() - (n - 1)) =~= base.take(
            base.len() - n,
        ));
    }
}

proof fn lemma_resolve_plain(base: Seq<Seq<char>>, rest: Seq<Seq<char>>)
    requires
        forall|k: int| 0 <= k < rest.len() ==> #[trigger] rest[k] != ".."@,
    ensures
        resolve(base, rest) == base + rest,
    decreases rest.len(),
{
    if rest.len() == 0 {
        assert(base + rest =~= base);
    } else {
        assert(rest[0] != ".."@);
        assert forall|k: int| 0 <= k < rest.drop_first().len() implies #[trigger] rest.drop_first()[k]
            != ".."@ by {
            assert(rest.drop_first()[k] == rest[k + 1]);
        }
        lemma_resolve_plain(base.push(rest[0]), rest.drop_first());
        assert(base.push(rest[0]) + rest.drop_first() =~= base + rest);
    }
}

/// A relative link placed beside `link` leads to `target`: following its
/// components from the folder of `link` arrives at the components of `target`.
pub proof fn lemma_relative_link_resolves(link: Seq<char>, target: Seq<char>)
    requires
        safe_archive_path(link),
        safe_archive_path(target),
    ensures
        resolve(text::split(link, '/').drop_last(), relative_link_components(link, target))
            == text::split(target, '/'),
{
    let parent = text::split(link, '/').drop_last();
    let goal = text::split(target, '/');
    text::lemma_split_nonempty(link, '/');
    lemma_common_prefix(parent, goal);
    let c = common_prefix_len(parent, goal);
    lemma_resolve_steps(parent, (parent.len() - c) as nat, goal.skip(c as int));
    assert(parent.take(parent.len() - (parent.len() - c)) =~= parent.take(c as int));
    assert forall|k: int| 0 <= k < goal.skip(c as int).len() implies #[trigger] goal.skip(
        c as int,
    )[k] != ".."@ by {
        assert(goal.skip(c as int)[k] == goal[k + c]);
        assert(!bad_component(goal[k + c]));
    }
    lemma_resolve_plain(parent.take(c as int), goal.skip(c as int));
    assert(goal.take(c as int) + goal.skip(c as int) =~= goal);
}

/// The relative link text placed at `link` lists exactly the link components.
pub proof fn lemma_relative_link_text(link: Seq<char>, target: Seq<char>)
    requires
        safe_archive_path(link),
        safe_archive_path(target),
        relative_link_components(link, target).len() > 0,
    ensures
        text::split(text::join(relative_link_components(link, target), seq!['/']), '/')
            == relative_link_components(link, target),
{
    let rel = relative_link_components(link, target);
    let parent = text::split(link, '/').drop_last();
    let goal = text::split(target, '/');
    text::lemma_split_nonempty(link, '/');
    lemma_common_prefix(parent, goal);
    let c = common_prefix_len(parent, goal);
    text::lemma_split_pieces_free(target, '/');
    assert forall|k: int| 0 <= k < rel.len() implies !text::has_char(#[trigger] rel[k], '/') by {
        if k < parent.len() - c {
            assert(rel[k] == ".."@);
            reveal_strlit("..");
            if text::has_char(rel[k], '/') {
                let i = choose|i: int| 0 <= i < rel[k].len() && rel[k][i] == '/';
                assert(i == 0 || i == 1);
            }
        } else {
            assert(rel[k] == goal[k - (parent.len() - c) + c]);
        }
    }
    text::lemma_split_join(rel, '/');
}

fn common_prefix(a: &Vec<Vec<char>>, a_len: usize, b: &Vec<Vec<char>>) -> (r: usize)
    requires
        a_len <= a.len(),
    ensures
        r == common_prefix_len(text::views(a@).take(a_len as int), text::views(b@)),
        r <= a_len,
        r <= b.len(),
{
    let ghost av = text::views(a@).take(a_len as int);
    let ghost bv = text::views(b@);
    let mut i: usize = 0;
    assert(av.skip(0) =~= av);
    assert(bv.skip(0) =~= bv);
    while i < a_len && i < b.len() && text::eq_chars(&a[i], &b[i])
        invariant
            i <= a_len <= a.len(),
            i <= b.len(),
            av == text::views(a@).take(a_len as int),
            bv == text::views(b@),
            common_prefix_len(av, bv) == i + common_prefix_len(av.skip(i as int), bv.skip(i as int)),
        decreases a_len - i,
    {
        assert(av.skip(i as int)[0] == a@[i as int]@);
        assert(bv.skip(i as int)[0] == b@[i as int]@);
        assert(av.skip(i as int).drop_first() =~= av.skip(i + 1));
        assert(bv.skip(i as int).drop_first() =~= bv.skip(i + 1));
        i = i + 1;
    }
    proof {
        if i < a_len && i < b.len() {
            assert(av.skip(i as int)[0] == a@[i as int]@);
            assert(bv.skip(i as int)[0] == b@[i as int]@);
        }
    }
    i
}

/// The relative link text that leads from the entry `link_path` to the entry
/// `target_path`; both must be safe archive paths, and the link may not be
/// its own target.
pub fn relative_symlink_target(link_path: &str, target_path: &str) -> (r: Result<String, CoreError>)
    ensures
        !safe_archive_path(link_path@) ==> (r matches Err(CoreError::UnsafeLinkPath(v)) && v@
            == link_path@),
        safe_archive_path(link_path@) && !safe_archive_path(target_path@) ==> (r matches Err(
            CoreError::UnsafeLinkPath(v),
        ) && v@ == target_path@),
        safe_archive_path(link_path@) && safe_archive_path(target_path@) ==> {
            let rel = relative_link_components(link_path@, target_path@);
            &&& rel.len() == 0 ==> (r matches Err(CoreError::LinkTargetIsSelf(v)) && v@
                == link_path@)
            &&& rel.len() > 0 ==> (r matches Ok(s) && s@ == text::join(rel, seq!['/']))
        },
{
    let l = text::chars_of(link_path);
    let t = text::chars_of(target_path);
    let l_ok = l.len() > 0 && l[0] != '/' && !text::contains_char(&l, '\\') && check_components(&l);
    if !l_ok {
        return Err(CoreError::UnsafeLinkPath(l));
    }
    let t_ok = t.len() > 0 && t[0] != '/' && !text::contains_char(&t, '\\') && check_components(&t);
    if !t_ok {
        return Err(CoreError::UnsafeLinkPath(t));
    }
    let lc = text::split_on(&l, '/');
    let tc = text::split_on(&t, '/');
    let parent_len = lc.len() - 1;
    let ghost parent = text::split(l@, '/').drop_last();
    let ghost goal = text::split(t@, '/');
    assert(text::views(lc@).take(parent_len as int) =~= parent);
    let common = common_prefix(&lc, parent_len, &tc);
    let mut rel: Vec<Vec<char>> = Vec::new();
    let mut k: usize = 0;
    while k < parent_len - common
        invariant
            common <= parent_len,
            k <= parent_len - common,
            text::views(rel@) == parent_steps(k as nat),
        decreases parent_len - common - k,
    {
        let mut up: Vec<char> = Vec::new();
        up.push('.');
        up.push('.');
        proof {
            reveal_strlit("..");
            assert(up@ =~= ".."@);
        }
        let ghost before = rel@;
        rel.push(up);
        assert(text::views(rel@) =~= text::views(before).push(up@));
        assert(text::views(rel@) =~= parent_steps((k + 1) as nat));
        k = k + 1;
    }
    let mut j: usize = common;
    while j < tc.len()
        invariant
            common <= j <= tc.len(),
            common <= parent_len,
            text::views(tc@) == goal,
            text::views(rel@) == parent_steps((parent_len - common) as nat) + goal.subrange(
                common as int,
                j as int,
            ),
        decreases tc.len() - j,
    {
        let piece = text::copy_chars(&tc[j]);
        let ghost before = text::views(rel@);
        rel.push(piece);
        assert(text::views(rel@) =~= before.push(goal[j as int]));
        assert(goal.subrange(common as int, j + 1) =~= goal.subrange(common as int, j as int).push(
            goal[j as int],
        ));
        j = j + 1;
    }
    assert(goal.subrange(common as int, tc.len() as int) =~= goal.skip(common as int));
    assert(text::views(rel@) == relative_link_components(l@, t@));
    if rel.len() == 0 {
        return Err(CoreError::LinkTargetIsSelf(l));
    }
    let joined = text::join_on(&rel, '/');
    Ok(text::string_of(&joined))
}

// ---------------------------------------------------------------------
// Searching segments
// ---------------------------------------------------------------------

pub proof fn lemma_first_index_found(segs: Seq<Seq<char>>, f: spec_fn(Seq<char>) -> bool, i: int)
    requires
        0 <= i < segs.len(),
        f(segs[i]),
        forall|j: int| 0 <= j < i ==> !f(#[trigger] segs[j]),
    ensures
        first_index(segs, f) == Some(i),
    decreases i,
{
    if i > 0 {
        assert(!f(segs[0]));
        assert forall|j: int| 0 <= j < i - 1 implies !f(#[trigger] segs.drop_first()[j]) by {
            assert(segs.drop_first()[j] == segs[j + 1]);
        }
        lemma_first_index_found(segs.drop_first(), f, i - 1);
    }
}

pub proof fn lemma_first_index_none(segs: Seq<Seq<char>>, f: spec_fn(Seq<char>) -> bool)
    requires
        forall|j: int| 0 <= j < segs.len() ==> !f(#[trigger] segs[j]),
    ensures
        first_index(segs, f) is None,
    decreases segs.len(),
{
    if segs.len() > 0 {
        assert(!f(segs[0]));
        assert forall|j: int| 0 <= j < segs.len() - 1 implies !f(#[trigger] segs.drop_first()[j]) by {
            assert(segs.drop_first()[j] == segs[j + 1]);
        }
        lemma_first_index_none(segs.drop_first(), f);
    }
}

pub proof fn lemma_first_index_bounds(segs: Seq<Seq<char>>, f: spec_fn(Seq<char>) -> bool)
    ensures
        first_index(segs, f) matches Some(k) ==> 0 <= k < segs.len() && f(segs[k]),
    decreases segs.len(),
{
    if segs.len() > 0 && !f(segs[0]) {
        lemma_first_index_bounds(segs.drop_first(), f);
    }
}

// ---------------------------------------------------------------------
// Entry names
// ---------------------------------------------------------------------

/// The entry `filename` in the folder of the entry `database_name`.
pub fn sibling_entry_name(database_name: &str, filename: &str) -> (r: String)
    ensures
        r@ == sibling_name(database_name@, filename@),
{
    let d = text::chars_of(database_name);
    let f = text::chars_of(filename);
    match text::rfind_char(&d, '/') {
        Some(k) => {
            let mut out = text::slice(&d, 0, k);
            out.push('/');
            text::append(&mut out, &f);
            text::string_of(&out)
        },
        None => text::string_of(&f),
    }
}

fn strip_slashes(p: &Vec<char>) -> (r: Vec<char>)
    ensures
        r@ == strip_char(p@, '/'),
{
    let mut a: usize = 0;
    assert(p@.subrange(0, p.len() as int) =~= p@);
    while a < p.len() && p[a] == '/'
        invariant
            a <= p.len(),
            strip_start_char(p@, '/') == strip_start_char(p@.subrange(a as int, p.len() as int), '/'),
        decreases p.len() - a,
    {
        assert(p@.subrange(a as int, p.len() as int).drop_first() =~= p@.subrange(
            a + 1,
            p.len() as int,
        ));
        a = a + 1;
    }
    let ghost ts = p@.subrange(a as int, p.len() as int);
    let mut b: usize = p.len();
    while b > a && p[b - 1] == '/'
        invariant
            a <= b <= p.len(),
            ts == p@.subrange(a as int, p.len() as int),
            strip_end_char(ts, '/') == strip_end_char(p@.subrange(a as int, b as int), '/'),
        decreases b - a,
    {
        assert(p@.subrange(a as int, b as int).drop_last() =~= p@.subrange(a as int, b - 1));
        assert(p@.subrange(a as int, b as int).last() == p@[b - 1]);
        b = b - 1;
    }
    proof {
        if b > a {
            assert(p@.subrange(a as int, b as int).last() == p@[b - 1]);
        }
    }
    text::slice(p, a, b)
}

/// Whether a path lies under a `Message Attachments` or `Message Thumbnails` folder.
pub fn is_removable_attachment(path: &str) -> (r: bool)
    ensures
        r == removable_attachment(path@),
{
    let p = text::chars_of(path);
    let mut wrapped: Vec<char> = Vec::new();
    wrapped.push('/');
    let inner = strip_slashes(&p);
    text::append(&mut wrapped, &inner);
    wrapped.push('/');
    assert(wrapped@ =~= seq!['/'] + strip_char(path@, '/') + seq!['/']);
    let a = text::chars_of("/Message Attachments/");
    let t = text::chars_of("/Message Thumbnails/");
    text::contains_chars(&wrapped, &a) || text::contains_chars(&wrapped, &t)
}

/// Whether a path is one that a cleanup must never remove or change.
pub fn is_protected(path: &str) -> (r: bool)
    ensures
        r == protected_path(path@),
{
    let p = text::chars_of(path);
    text::eq_str(&p, ".lock") || text::eq_str(&p, "iTunesArtwork") || text::eq_str(
        &p,
        "iTunesMetadata.plist",
    ) || text::eq_str(&p, "Payload/LINE.app/Info.plist") || text::has_suffix(
        &p,
        &text::chars_of("/Messages/Line.sqlite"),
    ) || text::has_suffix(&p, &text::chars_of("/Messages/Line.sqlite-wal")) || text::has_suffix(
        &p,
        &text::chars_of("/Messages/Line.sqlite-shm"),
    )
}

/// A source path relative to the backup root, with slashes for separators;
/// empty paths and paths with empty, `.` or `..` components are refused.
pub fn normalized_relative_path(relative: &str) -> (r: Result<String, CoreError>)
    ensures
        components_ok(slashed(relative@)) ==> (r matches Ok(s) && s@ == slashed(relative@)),
        !components_ok(slashed(relative@)) ==> (r matches Err(CoreError::UnsafeRelativePath(v))
            && v@ == slashed(relative@)),
{
    let p = text::chars_of(relative);
    let value = text::replace_all_char(&p, '\\', '/');
    if value.len() == 0 || !check_components(&value) {
        proof {
            if value.len() == 0 {
                assert(text::split(value@, '/') =~= seq![Seq::<char>::empty()]);
                assert(bad_component(text::split(value@, '/')[0]));
            }
        }
        return Err(CoreError::UnsafeRelativePath(value));
    }
    Ok(text::string_of(&value))
}

/// `relative` placed under the folder `base`, as `Path::join` joins them.
pub open spec fn path_join(base: Seq<char>, relative: Seq<char>) -> Seq<char> {
    if base.len() == 0 {
        relative
    } else if base.last() == '/' {
        base + relative
    } else {
        base + seq!['/'] + relative
    }
}

/// The path of a catalog entry inside the source folder; catalog paths that
/// could escape the folder are refused.
pub fn safe_source_join(source: &str, relative: &str) -> (r: Result<String, CoreError>)
    ensures
        safe_relative(relative@) ==> (r matches Ok(s) && s@ == path_join(source@, relative@)),
        !safe_relative(relative@) ==> (r matches Err(CoreError::UnsafeSourcePath(v)) && v@
            == relative@),
{
    let rel = text::chars_of(relative);
    if rel.len() == 0 || rel[0] == '/' || !check_components(&rel) {
        return Err(CoreError::UnsafeSourcePath(rel));
    }
    let mut out = text::chars_of(source);
    if out.len() > 0 && out[out.len() - 1] != '/' {
        out.push('/');
    }
    text::append(&mut out, &rel);
    Ok(text::string_of(&out))
}

/// Rank of an entry as the main LINE database: 0 for an account store,
/// 1 for the shared LINE group, 2 elsewhere; `None` when the entry is not
/// a `Messages/Line.sqlite`.
pub fn database_priority(path: &str) -> (r: Option<u8>)
    ensures
        r == database_rank(path@),
{
    let p = text::chars_of(path);
    let n = text::replace_all_char(&p, '\\', '/');
    let lowered = text::to_lower_ascii(&n);
    let is_db = text::has_suffix(&lowered, &text::chars_of("/messages/line.sqlite"))
        || text::eq_ignore_ascii_case(&n, &text::chars_of("Line.sqlite"));
    if !is_db {
        None
    } else if text::contains_chars(&n, &text::chars_of("/PrivateStore/P_")) {
        Some(0)
    } else if text::contains_chars(&n, &text::chars_of("group.com.linecorp.line")) {
        Some(1)
    } else {
        Some(2)
    }
}

/// The LINE account id named by the first `P_<id>` folder of a database path.
pub fn account_id_from_database_path(path: &str) -> (r: Option<String>)
    ensures
        match account_id_of(path@) {
            Some(id) => r matches Some(s) && s@ == id,
            None => r is None,
        },
{
    let p = text::chars_of(path);
    let n = text::replace_all_char(&p, '\\', '/');
    let segs = text::split_on(&n, '/');
    let ghost sv = text::views(segs@);
    let ghost f = |s: Seq<char>| text::starts_with(s, "P_"@);
    let prefix = text::chars_of("P_");
    let mut i: usize = 0;
    while i < segs.len()
        invariant
            i <= segs.len(),
            sv == text::views(segs@),
            sv == segments(path@),
            prefix@ == "P_"@,
            f == (|s: Seq<char>| text::starts_with(s, "P_"@)),
            forall|j: int| 0 <= j < i ==> !f(#[trigger] sv[j]),
        decreases segs.len() - i,
    {
        if text::has_prefix(&segs[i], &prefix) {
            proof {
                lemma_first_index_found(sv, f, i as int);
                reveal_strlit("P_");
            }
            let seg = &segs[i];
            let id = text::slice(seg, 2, seg.len());
            if id.len() > 0 {
                return Some(text::string_of(&id));
            } else {
                return None;
            }
        }
        i = i + 1;
    }
    proof {
        lemma_first_index_none(sv, f);
    }
    None
}

/// The account id and account folder of a path under `PrivateStore/P_<id>`.
pub fn private_store_account_chars(p: &Vec<char>) -> (r: Option<(Vec<char>, Vec<char>)>)
    ensures
        match private_store_account(p@) {
            Some((id, folder)) => r matches Some((a, b)) && a@ == id && b@ == folder,
            None => r is None,
        },
{
    let ghost path = p@;
    if text::contains_char(p, '\\') {
        return None;
    }
    let segs = text::split_on(p, '/');
    let ghost sv = text::views(segs@);
    let ghost f = |s: Seq<char>| s == "PrivateStore"@;
    let store = text::chars_of("PrivateStore");
    let prefix = text::chars_of("P_");
    let limit = segs.len() - 1;
    let mut i: usize = 0;
    while i < limit
        invariant
            i <= limit,
            limit == segs.len() - 1,
            sv == text::views(segs@),
            sv == text::split(p@, '/'),
            p@ == path,
            !text::has_char(p@, '\\'),
            store@ == "PrivateStore"@,
            prefix@ == "P_"@,
            f == (|s: Seq<char>| s == "PrivateStore"@),
            forall|j: int| 0 <= j < i ==> !f(#[trigger] sv.drop_last()[j]),
        decreases limit - i,
    {
        if text::eq_chars(&segs[i], &store) {
            proof {
                assert(sv.drop_last()[i as int] == sv[i as int]);
                lemma_first_index_found(sv.drop_last(), f, i as int);
                reveal_strlit("P_");
            }
            let next = &segs[i + 1];
            assert(sv[i + 1] == next@);
            assert(private_store_account(path) == (if text::starts_with(next@, "P_"@) && next@.len()
                > 2 {
                Some((next@.subrange(2, next@.len() as int), text::join(sv.take(i + 2), seq!['/'])))
            } else {
                None
            }));
            if !text::has_prefix(next, &prefix) || next.len() <= 2 {
                return None;
            }
            let id = text::slice(next, 2, next.len());
            let mut folder_parts: Vec<Vec<char>> = Vec::new();
            let mut k: usize = 0;
            while k < i + 2
                invariant
                    k <= i + 2 <= segs.len(),
                    sv == text::views(segs@),
                    text::views(folder_parts@) == sv.take(k as int),
                decreases i + 2 - k,
            {
                let piece = text::copy_chars(&segs[k]);
                let ghost before = text::views(folder_parts@);
                folder_parts.push(piece);
                assert(text::views(folder_parts@) =~= before.push(sv[k as int]));
                assert(sv.take(k + 1) =~= sv.take(k as int).push(sv[k as int]));
                k = k + 1;
            }
            let folder = text::join_on(&folder_parts, '/');
            return Some((id, folder));
        }
        assert(sv.drop_last()[i as int] == sv[i as int]);
        i = i + 1;
    }
    proof {
        lemma_first_index_none(sv.drop_last(), f);
    }
    None
}

/// The account id and account folder of a path under `PrivateStore/P_<id>`.
pub fn private_store_account_from_path(path: &str) -> (r: Option<(String, String)>)
    ensures
        match private_store_account(path@) {
            Some((id, folder)) => r matches Some((a, b)) && a@ == id && b@ == folder,
            None => r is None,
        },
{
    let p = text::chars_of(path);
    match private_store_account_chars(&p) {
        Some((id, folder)) => Some((text::string_of(&id), text::string_of(&folder))),
        None => None,
    }
}

/// The file name shown for an attachment: the last path segment, or a
/// placeholder when the path ends with a separator.
pub fn file_name(path: &str) -> (r: String)
    ensures
        text::split(slashed(path@), '/').last().len() > 0 ==> r@ == text::split(
            slashed(path@),
            '/',
        ).last(),
        text::split(slashed(path@), '/').last().len() == 0 ==> r@ == "未命名附件"@,
{
    let p = text::chars_of(path);
    let n = text::replace_all_char(&p, '\\', '/');
    let segs = text::split_on(&n, '/');
    let last = &segs[segs.len() - 1];
    assert(text::views(segs@).last() == last@);
    if last.len() == 0 {
        text::to_string("未命名附件")
    } else {
        text::string_of(last)
    }
}

/// The message id a file name starts with: its leading digits when there
/// are at least eight of them, else nothing.
pub fn leading_message_id(filename: &str) -> (r: String)
    ensures
        r@ == message_id_of(filename@),
{
    let f = text::chars_of(filename);
    let mut i: usize = 0;
    assert(f@.skip(0) =~= f@);
    while i < f.len() && text::char_is_digit(f[i])
        invariant
            i <= f.len(),
            leading_digits(f@) == f@.take(i as int) + leading_digits(f@.skip(i as int)),
        decreases f.len() - i,
    {
        proof {
            lemma_leading_digits_step(f@, i as int);
            assert(f@.take(i as int) + seq![f@[i as int]] =~= f@.take(i + 1));
        }
        i = i + 1;
    }
    proof {
        if i < f.len() {
            assert(f@.skip(i as int)[0] == f@[i as int]);
        } else {
            assert(f@.skip(i as int) =~= Seq::<char>::empty());
        }
        assert(leading_digits(f@) =~= f@.take(i as int));
    }
    if i >= 8 {
        let d = text::slice(&f, 0, i);
        text::string_of(&d)
    } else {
        String::new()
    }
}

/// The last `.`-separated part of a file name, as `Path::extension` reads it:
/// none when the name has no dot or is a dot file without another dot.
pub open spec fn extension_of(name: Seq<char>) -> Option<Seq<char>> {
    match text::last_index_of(name, '.') {
        Some(k) => if k == 0 { None } else { Some(name.subrange(k + 1, name.len() as int)) },
        None => None,
    }
}

/// Whether a path names an `.imazingapp` archive, in any letter case.
pub fn is_imazing_archive(path: &str) -> (r: bool)
    ensures
        r == (extension_of(last_segment(path@)) matches Some(ext) && text::eq_ignore_case(
            ext,
            "imazingapp"@,
        )),
{
    let p = text::chars_of(path);
    let segs = text::split_on(&p, '/');
    let name = &segs[segs.len() - 1];
    assert(text::views(segs@).last() == name@);
    match text::rfind_char(name, '.') {
        Some(k) => {
            if k == 0 {
                false
            } else {
                let ext = text::slice(name, k + 1, name.len());
                text::eq_ignore_ascii_case(&ext, &text::chars_of("imazingapp"))
            }
        },
        None => false,
    }
}

/// Whether a candidate output name ends with `.imazingapp` or
/// `.imazingapp.candidate`, in any letter case.
pub fn candidate_output_name_ok(name: &str) -> (r: bool)
    ensures
        r == (text::ends_with(text::lower_ascii(name@), ".imazingapp"@) || text::ends_with(
            text::lower_ascii(name@),
            ".imazingapp.candidate"@,
        )),
{
    let n = text::to_lower_ascii(&text::chars_of(name));
    text::has_suffix(&n, &text::chars_of(".imazingapp")) || text::has_suffix(
        &n,
        &text::chars_of(".imazingapp.candidate"),
    )
}

/// The name under which a candidate is written until it is complete.
pub fn partial_path(output: &str) -> (r: String)
    ensures
        r@ == output@ + ".partial"@,
{
    let mut v = text::chars_of(output);
    text::append_str(&mut v, ".partial");
    text::string_of(&v)
}

/// The name under which a staged database is written until it is complete.
pub fn staging_partial_path(destination: &str) -> (r: String)
    ensures
        r@ == destination@ + ".part"@,
{
    let mut v = text::chars_of(destination);
    text::append_str(&mut v, ".part");
    text::string_of(&v)
}

/// The SQLite sidecar beside a database file: its name with `suffix` added.
pub fn sibling_with_suffix(database: &str, suffix: &str) -> (r: String)
    ensures
        r@ == database@ + suffix@,
{
    let mut v = text::chars_of(database);
    text::append_str(&mut v, suffix);
    text::string_of(&v)
}

/// A SQLite identifier in double quotes, inner quotes doubled.
pub open spec fn quoted(value: Seq<char>) -> Seq<char> {
    seq!['"'] + text::flat_map_chars(value, |c: char| if c == '"' { seq!['"', '"'] } else { seq![c] })
        + seq!['"']
}

/// A SQLite identifier in double quotes, inner quotes doubled.
pub fn quoted_identifier(value: &str) -> (r: String)
    ensures
        r@ == quoted(value@),
{
    let v = text::chars_of(value);
    let ghost g = |c: char| if c == '"' { seq!['"', '"'] } else { seq![c] };
    let mut out: Vec<char> = Vec::new();
    let mut i: usize = 0;
    while i < v.len()
        invariant
            i <= v.len(),
            g == (|c: char| if c == '"' { seq!['"', '"'] } else { seq![c] }),
            out@ == text::flat_map_chars(v@.take(i as int), g),
        decreases v.len() - i,
    {
        assert(v@.take(i + 1).drop_last() =~= v@.take(i as int));
        if v[i] == '"' {
            out.push('"');
            out.push('"');
        } else {
            out.push(v[i]);
        }
        assert(out@ =~= text::flat_map_chars(v@.take(i + 1), g));
        i = i + 1;
    }
    assert(v@.take(v.len() as int) =~= v@);
    let mut r: Vec<char> = Vec::new();
    r.push('"');
    text::append(&mut r, &out);
    r.push('"');
    text::string_of(&r)
}
} // verus!
