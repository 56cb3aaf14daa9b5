//! Laws of the namespace paths: what normalization keeps, and how storage keys,
//! parents and ancestors fit together.
use vstd::prelude::*;

use crate::events::child_id;
use crate::variable::{data_key, listed_id, spec_plan_set};
use crate::namespace::ItemMeta;
use crate::utils::{
    last_slash, lemma_last_slash, path_segments, rooted, segments_wf, slash_free, spec_ancestors, spec_hierarchy_key,
    spec_normalize_path, spec_parent_and_name, split_state,
};

verus! {

proof fn lemma_split_wf(s: Seq<char>)
    ensures
        segments_wf(split_state(s).0),
        slash_free(split_state(s).1),
    decreases s.len(),
{
    if s.len() > 0 {
        lemma_split_wf(s.drop_last());
        let (done, cur) = split_state(s.drop_last());
        if s.last() == '/' {
            if cur.len() > 0 {
                assert forall|i: int| 0 <= i < done.push(cur).len() implies done.push(cur)[i].len()
                    > 0 && slash_free(#[trigger] done.push(cur)[i]) by {
                    if i < done.len() {
                        assert(done.push(cur)[i] == done[i]);
                    }
                }
            }
        } else {
            assert forall|j: int| 0 <= j < cur.push(s.last()).len() implies cur.push(s.last())[j]
                != '/' by {
                if j < cur.len() {
                    assert(cur.push(s.last())[j] == cur[j]);
                }
            }
        }
    }
}

/// Every segment of a path is non-empty and holds no '/'.
pub proof fn lemma_segments_wf(s: Seq<char>)
    ensures
        segments_wf(path_segments(s)),
{
    lemma_split_wf(s);
    let (done, cur) = split_state(s);
    if cur.len() > 0 {
        assert forall|i: int| 0 <= i < done.push(cur).len() implies done.push(cur)[i].len() > 0
            && slash_free(#[trigger] done.push(cur)[i]) by {
            if i < done.len() {
                assert(done.push(cur)[i] == done[i]);
            }
        }
    }
}

proof fn lemma_split_word(x: Seq<char>, w: Seq<char>)
    requires
        split_state(x).1.len() == 0,
        slash_free(w),
    ensures
        split_state(x + w) == (split_state(x).0, w),
    decreases w.len(),
{
    if w.len() == 0 {
        assert(x + w =~= x);
    } else {
        let w2 = w.drop_last();
        assert forall|j: int| 0 <= j < w2.len() implies w2[j] != '/' by {
            assert(w2[j] == w[j]);
        }
        lemma_split_word(x, w2);
        assert((x + w).drop_last() =~= x + w2);
        assert((x + w).last() == w.last());
        assert(w2.push(w.last()) =~= w);
    }
}

proof fn lemma_wf_drop_last(segs: Seq<Seq<char>>)
    requires
        segments_wf(segs),
        segs.len() > 0,
    ensures
        segments_wf(segs.drop_last()),
        segs.last().len() > 0,
        slash_free(segs.last()),
{
    assert(segs.last() == segs[segs.len() - 1]);
    assert forall|i: int| 0 <= i < segs.drop_last().len() implies segs.drop_last()[i].len() > 0
        && slash_free(#[trigger] segs.drop_last()[i]) by {
        assert(segs.drop_last()[i] == segs[i]);
    }
}

proof fn lemma_split_rooted(segs: Seq<Seq<char>>)
    requires
        segments_wf(segs),
        segs.len() > 0,
    ensures
        split_state(rooted(segs)) == (segs.drop_last(), segs.last()),
    decreases segs.len(),
{
    let d = segs.drop_last();
    let r = rooted(d);
    lemma_wf_drop_last(segs);
    assert(r.push('/').drop_last() =~= r);
    if d.len() == 0 {
        assert(r =~= Seq::<char>::empty());
        assert(r.push('/') =~= seq!['/']);
        lemma_root_segments();
        assert(d =~= Seq::<Seq<char>>::empty());
    } else {
        lemma_split_rooted(d);
        lemma_wf_drop_last(d);
        assert(d.drop_last().push(d.last()) =~= d);
        assert(split_state(r.push('/')) == (d, Seq::<char>::empty()));
    }
    lemma_split_word(r.push('/'), segs.last());
}

/// The segments of a path built from well-formed segments are those segments,
/// with or without a trailing '/'.
pub proof fn lemma_segments_of_rooted(segs: Seq<Seq<char>>)
    requires
        segments_wf(segs),
    ensures
        path_segments(rooted(segs)) == segs,
        path_segments(rooted(segs).push('/')) == segs,
        segs.len() > 0 ==> rooted(segs).len() > 0 && rooted(segs).last() != '/',
{
    if segs.len() == 0 {
        assert(rooted(segs) =~= Seq::<char>::empty());
        assert(seq!['/'].drop_last() =~= Seq::<char>::empty());
        assert(rooted(segs).push('/') =~= seq!['/']);
        assert(segs =~= Seq::<Seq<char>>::empty());
    } else {
        lemma_split_rooted(segs);
        lemma_wf_drop_last(segs);
        assert(segs.drop_last().push(segs.last()) =~= segs);
        let r = rooted(segs);
        assert(r.push('/').drop_last() =~= r);
        let d = segs.drop_last();
        let l = segs.last();
        assert(r =~= rooted(d).push('/') + l);
        assert(r.last() == l.last());
        assert(l.last() == l[l.len() - 1]);
    }
}

proof fn lemma_root_segments()
    ensures
        split_state(seq!['/']) == (Seq::<Seq<char>>::empty(), Seq::<char>::empty()),
        path_segments(seq!['/']) =~= Seq::<Seq<char>>::empty(),
{
    let s = seq!['/'];
    let e = Seq::<char>::empty();
    assert(s.drop_last() =~= e);
    assert(s.last() == '/');
    assert(split_state(e) == (Seq::<Seq<char>>::empty(), e));
}

/// Normalizing keeps the segments of a path, and normalizing twice changes nothing:
/// a normalized id is its own normal form.
pub proof fn law_normalize_keeps_segments(path: Seq<char>, folder: bool)
    ensures
        path_segments(spec_normalize_path(path, folder)) == path_segments(path),
        spec_normalize_path(spec_normalize_path(path, folder), folder) == spec_normalize_path(
            path,
            folder,
        ),
{
    let segs = path_segments(path);
    lemma_segments_wf(path);
    lemma_segments_of_rooted(segs);
    lemma_root_segments();
    if segs.len() == 0 {
        assert(seq!['/'].last() == '/');
        assert(spec_normalize_path(path, folder) =~= seq!['/']);
    }
}

/// A folder's normalized id is its variable id followed by '/', except for the root,
/// whose id is "/" either way.
pub proof fn law_folder_id_extends_variable_id(path: Seq<char>)
    ensures
        path_segments(path).len() > 0 ==> spec_normalize_path(path, true) == spec_normalize_path(
            path,
            false,
        ).push('/'),
        path_segments(path).len() == 0 ==> spec_normalize_path(path, true) == seq!['/']
            && spec_normalize_path(path, false) == seq!['/'],
{
    let segs = path_segments(path);
    lemma_segments_wf(path);
    lemma_segments_of_rooted(segs);
    if segs.len() == 0 {
        assert(seq!['/'].last() == '/');
    }
}

proof fn lemma_last_slash_word(x: Seq<char>, w: Seq<char>)
    requires
        slash_free(w),
    ensures
        last_slash(x.push('/') + w) == x.len(),
    decreases w.len(),
{
    if w.len() == 0 {
        assert(x.push('/') + w =~= x.push('/'));
    } else {
        let w2 = w.drop_last();
        assert forall|j: int| 0 <= j < w2.len() implies w2[j] != '/' by {
            assert(w2[j] == w[j]);
        }
        lemma_last_slash_word(x, w2);
        assert((x.push('/') + w).drop_last() =~= x.push('/') + w2);
        assert((x.push('/') + w).last() == w[w.len() - 1]);
    }
}

/// The storage key of an item is made of the normalized id of its parent folder,
/// a NUL character and its name; the root's key is "H:/\0".
pub proof fn law_hierarchy_key_from_parent(path: Seq<char>)
    ensures
        path_segments(path).len() > 0 ==> spec_hierarchy_key(path) == seq!['H', ':']
            + spec_normalize_path(spec_parent_and_name(path).0, true) + seq!['\0']
            + spec_parent_and_name(path).1,
        path_segments(path).len() == 0 ==> spec_hierarchy_key(path) == seq!['H', ':', '/', '\0'],
{
    let segs = path_segments(path);
    lemma_segments_wf(path);
    lemma_segments_of_rooted(segs);
    lemma_root_segments();
    if segs.len() == 0 {
        let n = seq!['/'];
        assert(spec_normalize_path(path, false) =~= n);
        assert(n.drop_last() =~= Seq::<char>::empty());
        assert(last_slash(n) == 0);
        assert(n.take(0) =~= Seq::<char>::empty());
        assert(n.skip(1) =~= Seq::<char>::empty());
        assert(spec_hierarchy_key(path) =~= seq!['H', ':', '/', '\0']);
    } else {
        let d = segs.drop_last();
        let l = segs.last();
        lemma_wf_drop_last(segs);
        let n = rooted(segs);
        assert(n == rooted(d).push('/') + l);
        assert(spec_normalize_path(path, false) == n);
        lemma_last_slash_word(rooted(d), l);
        let k = rooted(d).len() as int;
        assert(n.take(k) =~= rooted(d));
        assert(n.skip(k + 1) =~= l);
        if segs.len() == 1 {
            assert(d =~= Seq::<Seq<char>>::empty());
            assert(rooted(d) =~= Seq::<char>::empty());
            assert(segs[0] == l);
            assert(spec_normalize_path(seq!['/'], true) =~= seq!['/']) by {
                assert(seq!['/'].last() == '/');
            }
            assert(spec_hierarchy_key(path) =~= seq!['H', ':'] + seq!['/'] + seq!['\0'] + l);
        } else {
            lemma_segments_of_rooted(d);
            assert(spec_parent_and_name(path).0 == rooted(d));
            assert(spec_normalize_path(rooted(d), true) == rooted(d).push('/'));
            assert(spec_hierarchy_key(path) =~= seq!['H', ':'] + rooted(d).push('/') + seq!['\0']
                + l);
        }
    }
}

/// Each ancestor folder id is already normalized, each one followed by its name and
/// '/' gives the next, and the last one followed by its name and '/' gives the
/// normalized folder id of the path itself.
pub proof fn law_ancestors_chain(path: Seq<char>)
    ensures
        forall|i: int|
            0 <= i < spec_ancestors(path).len() ==> spec_normalize_path(
                (#[trigger] spec_ancestors(path)[i]).0,
                true,
            ) == spec_ancestors(path)[i].0,
        forall|i: int|
            0 <= i < spec_ancestors(path).len() - 1 ==> #[trigger] spec_ancestors(path)[i + 1].0
                == (spec_ancestors(path)[i].0 + spec_ancestors(path)[i].1).push('/'),
        spec_ancestors(path).len() > 0 ==> spec_normalize_path(path, true) == (spec_ancestors(
            path,
        ).last().0 + spec_ancestors(path).last().1).push('/'),
        spec_ancestors(path).len() == path_segments(path).len(),
{
    let segs = path_segments(path);
    let anc = spec_ancestors(path);
    lemma_segments_wf(path);
    lemma_root_segments();
    assert forall|i: int| 0 <= i < anc.len() implies spec_normalize_path(
        (#[trigger] anc[i]).0,
        true,
    ) == anc[i].0 by {
        let t = segs.take(i);
        assert forall|k: int| 0 <= k < t.len() implies t[k].len() > 0 && slash_free(
            #[trigger] t[k],
        ) by {
            assert(t[k] == segs[k]);
        }
        lemma_segments_of_rooted(t);
        if t.len() == 0 {
            assert(rooted(t) =~= Seq::<char>::empty());
            assert(rooted(t).push('/') =~= seq!['/']);
            assert(seq!['/'].last() == '/');
        }
    }
    assert forall|i: int| 0 <= i < anc.len() - 1 implies #[trigger] anc[i + 1].0 == (anc[i].0
        + anc[i].1).push('/') by {
        let t = segs.take(i + 1);
        assert(t.drop_last() =~= segs.take(i));
        assert(t.last() == segs[i]);
    }
    if anc.len() > 0 {
        lemma_segments_of_rooted(segs);
        let i = anc.len() - 1;
        assert(segs.take(i + 1) =~= segs);
        assert(segs.take(i + 1).drop_last() =~= segs.take(i));
        assert(anc.last() == anc[i]);
    }
}

proof fn lemma_split_after_slash(x: Seq<char>, n: Seq<char>)
    ensures
        split_state(x.push('/') + n) == (path_segments(x) + split_state(n).0, split_state(n).1),
    decreases n.len(),
{
    if n.len() == 0 {
        assert(x.push('/') + n =~= x.push('/'));
        assert(x.push('/').drop_last() =~= x);
        assert(split_state(n) == (Seq::<Seq<char>>::empty(), Seq::<char>::empty()));
        assert(path_segments(x) + Seq::<Seq<char>>::empty() =~= path_segments(x));
    } else {
        let m = n.drop_last();
        lemma_split_after_slash(x, m);
        assert((x.push('/') + n).drop_last() =~= x.push('/') + m);
        assert((x.push('/') + n).last() == n.last());
        let (d, c) = split_state(m);
        let p = path_segments(x);
        assert((p + d).push(c) =~= p + d.push(c));
    }
}

/// The segments of "{x}/{n}" are those of `x` followed by those of `n`.
proof fn lemma_segments_after_slash(x: Seq<char>, n: Seq<char>)
    ensures
        path_segments(x.push('/') + n) == path_segments(x) + path_segments(n),
{
    lemma_split_after_slash(x, n);
    let (d, c) = split_state(n);
    let p = path_segments(x);
    if c.len() > 0 {
        assert((p + d).push(c) =~= p + d.push(c));
    }
}

/// What the add event reports of a new item agrees with what listing its folder reports:
/// the same id for a variable; for a folder, the event's id is the listed id followed by
/// '/' (both are "/" when the two together name no segment).
pub proof fn law_event_and_listing_ids_agree(folder_id: Seq<char>, name: Seq<char>)
    ensures
        child_id(folder_id, name, false) == listed_id(spec_normalize_path(folder_id, true), name),
        path_segments(folder_id.push('/') + name).len() > 0 ==> child_id(folder_id, name, true)
            == listed_id(spec_normalize_path(folder_id, true), name).push('/'),
{
    let f = spec_normalize_path(folder_id, true);
    law_normalize_keeps_segments(folder_id, true);
    lemma_segments_after_slash(f, name);
    lemma_segments_after_slash(folder_id, name);
    assert(path_segments(f.push('/') + name) == path_segments(folder_id.push('/') + name));
    law_folder_id_extends_variable_id(folder_id.push('/') + name);
}


/// Joining two lists of segments joins their rooted forms.
proof fn lemma_rooted_concat(a: Seq<Seq<char>>, b: Seq<Seq<char>>)
    ensures
        rooted(a + b) == rooted(a) + rooted(b),
    decreases b.len(),
{
    if b.len() == 0 {
        assert(a + b =~= a);
        assert(rooted(a) + rooted(b) =~= rooted(a));
    } else {
        lemma_rooted_concat(a, b.drop_last());
        assert((a + b).drop_last() =~= a + b.drop_last());
        assert((a + b).last() == b.last());
        assert(rooted(a + b) =~= rooted(a) + (rooted(b.drop_last()).push('/') + b.last()));
    }
}

/// The rooted form of at least one segment starts with '/'.
proof fn lemma_rooted_starts_with_slash(b: Seq<Seq<char>>)
    requires
        b.len() > 0,
    ensures
        rooted(b).len() > 0,
        rooted(b)[0] == '/',
    decreases b.len(),
{
    if b.len() > 1 {
        lemma_rooted_starts_with_slash(b.drop_last());
    }
    assert(rooted(b) == rooted(b.drop_last()).push('/') + b.last());
}

/// Deleting an item reaches everything below it: the value key and the storage key of
/// any item "{id}/{rest}" start with the prefixes that deleting `id` clears, "D:{id}/"
/// and "H:{id}/", with `id` normalized.
pub proof fn law_delete_covers_descendants(id: Seq<char>, rest: Seq<char>)
    requires
        path_segments(id).len() > 0,
        path_segments(rest).len() > 0,
    ensures
        (seq!['D', ':'] + spec_normalize_path(id, false) + seq!['/']).is_prefix_of(
            data_key(spec_normalize_path(id.push('/') + rest, false)),
        ),
        (seq!['H', ':'] + spec_normalize_path(id, false) + seq!['/']).is_prefix_of(
            spec_hierarchy_key(id.push('/') + rest),
        ),
{
    let sa = path_segments(id);
    let sb = path_segments(rest);
    let d = id.push('/') + rest;
    lemma_segments_after_slash(id, rest);
    lemma_rooted_concat(sa, sb);
    lemma_rooted_starts_with_slash(sb);
    let p = rooted(sa);
    let n = p + rooted(sb);
    assert(spec_normalize_path(id, false) == p);
    assert(spec_normalize_path(d, false) == n);
    assert(n[p.len() as int] == '/');
    let dp = seq!['D', ':'] + p + seq!['/'];
    let dk = data_key(n);
    assert(dk =~= seq!['D', ':'] + n);
    assert(dk.subrange(0, dp.len() as int) =~= dp);
    lemma_last_slash(n);
    let k = last_slash(n);
    assert(k >= p.len());
    let hp = seq!['H', ':'] + p + seq!['/'];
    let hk = seq!['H', ':'] + n.take(k) + seq!['/', '\0'] + n.skip(k + 1);
    assert(spec_hierarchy_key(d) == hk);
    assert(hk.subrange(0, hp.len() as int) =~= hp);
}


/// Whether `s` holds no NUL character.
pub open spec fn nul_free(s: Seq<char>) -> bool {
    forall|j: int| 0 <= j < s.len() ==> s[j] != '\0'
}

/// The rooted form of NUL-free segments is NUL-free.
proof fn lemma_rooted_nul_free(segs: Seq<Seq<char>>)
    requires
        forall|i: int| 0 <= i < segs.len() ==> nul_free(#[trigger] segs[i]),
    ensures
        nul_free(rooted(segs)),
    decreases segs.len(),
{
    if segs.len() > 0 {
        let d = segs.drop_last();
        assert forall|i: int| 0 <= i < d.len() implies nul_free(#[trigger] d[i]) by {
            assert(d[i] == segs[i]);
        }
        lemma_rooted_nul_free(d);
        let r = rooted(d).push('/');
        let l = segs.last();
        assert(nul_free(l)) by {
            assert(l == segs[segs.len() - 1]);
        }
        assert forall|j: int| 0 <= j < (r + l).len() implies (r + l)[j] != '\0' by {
            if j < rooted(d).len() {
                assert((r + l)[j] == rooted(d)[j]);
            } else if j >= r.len() {
                assert((r + l)[j] == l[j - r.len()]);
            }
        }
    }
}

/// A normalized variable id starts with '/', and holds no NUL when no segment does.
proof fn lemma_normalized_shape(p: Seq<char>)
    ensures
        spec_normalize_path(p, false).len() > 0,
        spec_normalize_path(p, false)[0] == '/',
        (forall|i: int| 0 <= i < path_segments(p).len() ==> nul_free(#[trigger] path_segments(p)[i])) ==> nul_free(
            spec_normalize_path(p, false),
        ),
{
    let segs = path_segments(p);
    if segs.len() == 0 {
        assert(spec_normalize_path(p, false) =~= seq!['/']);
    } else {
        lemma_rooted_starts_with_slash(segs);
        if forall|i: int| 0 <= i < segs.len() ==> nul_free(#[trigger] segs[i]) {
            lemma_rooted_nul_free(segs);
        }
    }
}

/// The parts of a normalized id around its last '/' give the id back.
proof fn lemma_key_parts(n: Seq<char>)
    requires
        n.len() > 0,
        n[0] == '/',
    ensures
        last_slash(n) >= 0,
        n == n.take(last_slash(n)) + seq!['/'] + n.skip(last_slash(n) + 1),
{
    lemma_last_slash(n);
    if last_slash(n) < 0 {
        assert(n[0] != '/');
    }
    let k = last_slash(n);
    assert(n =~= n.take(k) + seq!['/'] + n.skip(k + 1));
}

/// Distinct items never share a storage key: when no segment of either path holds a NUL
/// character, two paths have the same storage key exactly when they have the same
/// normalized variable id.
pub proof fn law_hierarchy_key_identifies_item(p: Seq<char>, q: Seq<char>)
    requires
        forall|i: int| 0 <= i < path_segments(p).len() ==> nul_free(#[trigger] path_segments(p)[i]),
        forall|i: int| 0 <= i < path_segments(q).len() ==> nul_free(#[trigger] path_segments(q)[i]),
    ensures
        spec_hierarchy_key(p) == spec_hierarchy_key(q) <==> spec_normalize_path(p, false) == spec_normalize_path(
            q,
            false,
        ),
{
    let n1 = spec_normalize_path(p, false);
    let n2 = spec_normalize_path(q, false);
    lemma_normalized_shape(p);
    lemma_normalized_shape(q);
    lemma_key_parts(n1);
    lemma_key_parts(n2);
    let k1 = last_slash(n1);
    let k2 = last_slash(n2);
    let a1 = n1.take(k1);
    let a2 = n2.take(k2);
    let b1 = n1.skip(k1 + 1);
    let b2 = n2.skip(k2 + 1);
    let h = seq!['H', ':'];
    let t = seq!['/', '\0'];
    let key1 = h + a1 + t + b1;
    let key2 = h + a2 + t + b2;
    assert(spec_hierarchy_key(p) == key1);
    assert(spec_hierarchy_key(q) == key2);
    if key1 == key2 {
        assert(nul_free(a1)) by {
            assert forall|j: int| 0 <= j < a1.len() implies a1[j] != '\0' by {
                assert(a1[j] == n1[j]);
            }
        }
        assert(nul_free(a2)) by {
            assert forall|j: int| 0 <= j < a2.len() implies a2[j] != '\0' by {
                assert(a2[j] == n2[j]);
            }
        }
        if a1.len() < a2.len() {
            let j: int = 2 + a1.len() as int + 1;
            assert(key1[j] == '\0');
            if a1.len() + 1 < a2.len() {
                assert(key2[j] == a2[a1.len() as int + 1]);
            } else {
                assert(key2[j] == '/');
            }
        } else if a2.len() < a1.len() {
            let j: int = 2 + a2.len() as int + 1;
            assert(key2[j] == '\0');
            if a2.len() + 1 < a1.len() {
                assert(key1[j] == a1[a2.len() as int + 1]);
            } else {
                assert(key1[j] == '/');
            }
        }
        assert(a1.len() == a2.len());
        assert(a1 =~= key1.subrange(2, 2 + a1.len() as int));
        assert(a2 =~= key2.subrange(2, 2 + a2.len() as int));
        assert(b1 =~= key1.skip(2 + a1.len() as int + 2));
        assert(b2 =~= key2.skip(2 + a2.len() as int + 2));
    }
}

/// A value written by a set command is read back under the id the set reports: that id
/// is the normalized id of the command's variable, it is its own normal form, and the
/// value key a read of an id looks at is the key the set wrote exactly when the id read
/// is that one.
pub proof fn law_set_key_is_get_key(var_id: Seq<char>, stored: Option<ItemMeta>, value: Option<Option<crate::variable::ValueKind>>, g: Seq<char>)
    requires
        spec_plan_set(var_id, stored, value) is Ok,
    ensures
        ({
            let id = spec_plan_set(var_id, stored, value)->Ok_0.0;
            &&& id == spec_normalize_path(var_id, false)
            &&& spec_normalize_path(id, false) == id
            &&& (data_key(g) == data_key(id) <==> g == id)
        }),
{
    law_normalize_keeps_segments(var_id, false);
    let id = spec_normalize_path(var_id, false);
    if data_key(g) == data_key(id) {
        assert(g =~= data_key(g).skip(2));
        assert(id =~= data_key(id).skip(2));
    }
}

} // verus!
