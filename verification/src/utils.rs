//! Paths of the namespace: normalization, ancestors, parent/name split and storage keys.
use vstd::prelude::*;

use crate::namespace::{ItemType, VarDataType, item_type_code, var_data_type_code};
use crate::text::{chars_of, string_of};

verus! {

/// Reading `s` from the left, split at every '/': the segments finished so far
/// (empty pieces dropped) and the piece being read.
pub open spec fn split_state(s: Seq<char>) -> (Seq<Seq<char>>, Seq<char>)
    decreases s.len(),
{
    if s.len() == 0 {
        (Seq::empty(), Seq::empty())
    } else {
        let (done, cur) = split_state(s.drop_last());
        if s.last() == '/' {
            if cur.len() > 0 {
                (done.push(cur), Seq::empty())
            } else {
                (done, Seq::empty())
            }
        } else {
            (done, cur.push(s.last()))
        }
    }
}

/// The non-empty pieces of `s` between '/' characters, in order
/// (`s.split('/').filter(|p| !p.is_empty())`).
pub open spec fn path_segments(s: Seq<char>) -> Seq<Seq<char>> {
    let (done, cur) = split_state(s);
    if cur.len() > 0 {
        done.push(cur)
    } else {
        done
    }
}

/// Every segment preceded by '/': `["a", "b"]` gives `"/a/b"`, no segment gives `""`.
pub open spec fn rooted(segs: Seq<Seq<char>>) -> Seq<char>
    decreases segs.len(),
{
    if segs.len() == 0 {
        Seq::empty()
    } else {
        rooted(segs.drop_last()).push('/') + segs.last()
    }
}

/// The normalized form of `path`: "/" followed by its segments joined with '/',
/// with a trailing '/' for a folder.
pub open spec fn spec_normalize_path(path: Seq<char>, folder: bool) -> Seq<char> {
    let segs = path_segments(path);
    let base = if segs.len() == 0 {
        seq!['/']
    } else {
        rooted(segs)
    };
    if folder && base.last() != '/' {
        base.push('/')
    } else {
        base
    }
}

/// For each segment of `path`, the folder that holds it (ending in '/') and its name.
pub open spec fn spec_ancestors(path: Seq<char>) -> Seq<(Seq<char>, Seq<char>)> {
    let segs = path_segments(path);
    Seq::new(segs.len(), |i: int| (rooted(segs.take(i)).push('/'), segs[i]))
}

/// The parent folder (without trailing '/', "/" for top-level items) and the name
/// of the item at `path`; ("/", "") for the root.
pub open spec fn spec_parent_and_name(path: Seq<char>) -> (Seq<char>, Seq<char>) {
    let segs = path_segments(path);
    if segs.len() == 0 {
        (seq!['/'], Seq::empty())
    } else if segs.len() == 1 {
        (seq!['/'], segs[0])
    } else {
        (rooted(segs.drop_last()), segs.last())
    }
}

/// Index of the last '/' of `s`, or -1.
pub open spec fn last_slash(s: Seq<char>) -> int
    decreases s.len(),
{
    if s.len() == 0 {
        -1
    } else if s.last() == '/' {
        s.len() - 1
    } else {
        last_slash(s.drop_last())
    }
}

/// `last_slash` is -1 or the index of a '/' after which no '/' follows.
pub proof fn lemma_last_slash(s: Seq<char>)
    ensures
        -1 <= last_slash(s) < s.len(),
        last_slash(s) >= 0 ==> s[last_slash(s)] == '/',
        forall|j: int| last_slash(s) < j < s.len() ==> s[j] != '/',
    decreases s.len(),
{
    if s.len() > 0 && s.last() != '/' {
        lemma_last_slash(s.drop_last());
        assert forall|j: int| last_slash(s) < j < s.len() implies s[j] != '/' by {
            if j < s.len() - 1 {
                assert(s[j] == s.drop_last()[j]);
            }
        }
    }
}

/// The storage key of the item at `path`: "H:" + parent + "/\0" + name, where parent
/// and name are the parts of the normalized path before and after its last '/'.
pub open spec fn spec_hierarchy_key(path: Seq<char>) -> Seq<char> {
    let n = spec_normalize_path(path, false);
    let k = last_slash(n);
    let (parent, name) = if k < 0 {
        (Seq::<char>::empty(), n)
    } else {
        (n.take(k), n.skip(k + 1))
    };
    seq!['H', ':'] + parent + seq!['/', '\0'] + name
}

/// Whether `s` holds no '/'.
pub open spec fn slash_free(s: Seq<char>) -> bool {
    forall|j: int| 0 <= j < s.len() ==> s[j] != '/'
}

/// Whether every segment is non-empty and holds no '/'.
pub open spec fn segments_wf(segs: Seq<Seq<char>>) -> bool {
    forall|i: int| 0 <= i < segs.len() ==> segs[i].len() > 0 && slash_free(#[trigger] segs[i])
}

/// The item type a wire code names; codes that name none give `Invalid`.
pub open spec fn item_type_of_code(value: i32) -> ItemType {
    if value == 1 {
        ItemType::Folder
    } else if value == 2 {
        ItemType::Variable
    } else {
        ItemType::Invalid
    }
}

/// The data type a wire code names; codes that name none give `Invalid`.
pub open spec fn var_data_type_of_code(value: i32) -> VarDataType {
    if value == 1 {
        VarDataType::Integer
    } else if value == 2 {
        VarDataType::Float
    } else if value == 3 {
        VarDataType::Text
    } else if value == 4 {
        VarDataType::Boolean
    } else {
        VarDataType::Invalid
    }
}

/// Decodes an item-type wire code, falling back to `Invalid`.
pub fn cast_item_type(value: i32) -> (t: ItemType)
    ensures
        t == item_type_of_code(value),
        t != ItemType::Invalid ==> item_type_code(t) == value,
{
    if value == 1 {
        ItemType::Folder
    } else if value == 2 {
        ItemType::Variable
    } else {
        ItemType::Invalid
    }
}

/// Decodes an optional data-type wire code, falling back to `Invalid`.
pub fn cast_var_data_type(value: Option<i32>) -> (t: VarDataType)
    ensures
        t == (match value {
            Some(v) => var_data_type_of_code(v),
            None => VarDataType::Invalid,
        }),
        t != VarDataType::Invalid ==> value == Some(var_data_type_code(t)),
{
    match value {
        Some(v) => {
            if v == 1 {
                VarDataType::Integer
            } else if v == 2 {
                VarDataType::Float
            } else if v == 3 {
                VarDataType::Text
            } else if v == 4 {
                VarDataType::Boolean
            } else {
                VarDataType::Invalid
            }
        },
        None => VarDataType::Invalid,
    }
}

/// The segments of `v`, each as a vector of characters.
pub fn segments_of(v: &[char]) -> (segs: Vec<Vec<char>>)
    ensures
        segs@.map_values(|x: Vec<char>| x@) == path_segments(v@),
{
    let mut done: Vec<Vec<char>> = Vec::new();
    let mut cur: Vec<char> = Vec::new();
    let mut i: usize = 0;
    while i < v.len()
        invariant
            i <= v.len(),
            (done@.map_values(|x: Vec<char>| x@), cur@) == split_state(v@.take(i as int)),
        decreases v.len() - i,
    {
        let ghost before = v@.take(i as int);
        proof {
            assert(v@.take(i + 1).drop_last() =~= before);
            assert(v@.take(i + 1).last() == v@[i as int]);
        }
        if v[i] == '/' {
            if cur.len() > 0 {
                let piece = cur;
                cur = Vec::new();
                let ghost old_done = done@;
                done.push(piece);
                proof {
                    assert(done@.map_values(|x: Vec<char>| x@) =~= old_done.map_values(
                        |x: Vec<char>| x@,
                    ).push(piece@));
                }
            }
        } else {
            cur.push(v[i]);
        }
        i += 1;
    }
    proof {
        assert(v@.take(v@.len() as int) =~= v@);
    }
    if cur.len() > 0 {
        let ghost old_done = done@;
        done.push(cur);
        proof {
            assert(done@.map_values(|x: Vec<char>| x@) =~= old_done.map_values(|x: Vec<char>| x@).push(
                cur@,
            ));
        }
    }
    done
}

/// "/" followed by the segments joined with '/' ("/" alone for no segment).
fn join_rooted(segs: &Vec<Vec<char>>) -> (out: Vec<char>)
    ensures
        out@ == (if segs@.len() == 0 {
            seq!['/']
        } else {
            rooted(segs@.map_values(|x: Vec<char>| x@))
        }),
{
    let ghost sv = segs@.map_values(|x: Vec<char>| x@);
    let mut out: Vec<char> = Vec::new();
    out.push('/');
    let mut i: usize = 0;
    while i < segs.len()
        invariant
            i <= segs.len(),
            sv == segs@.map_values(|x: Vec<char>| x@),
            out@ == (if i == 0 {
                seq!['/']
            } else {
                rooted(sv.take(i as int))
            }),
        decreases segs.len() - i,
    {
        if i > 0 {
            out.push('/');
        }
        let ghost before = out@;
        let seg = &segs[i];
        let mut j: usize = 0;
        while j < seg.len()
            invariant
                j <= seg.len(),
                out@ == before + seg@.take(j as int),
            decreases seg.len() - j,
        {
            out.push(seg[j]);
            j += 1;
            proof {
                assert(seg@.take(j as int) =~= seg@.take(j - 1).push(seg@[j - 1]));
            }
        }
        proof {
            assert(seg@.take(seg@.len() as int) =~= seg@);
            let t = sv.take(i + 1);
            assert(t.drop_last() =~= sv.take(i as int));
            assert(t.last() == seg@);
            if i == 0 {
                assert(sv.take(0) =~= Seq::<Seq<char>>::empty());
                assert(rooted(Seq::<Seq<char>>::empty()) =~= Seq::<char>::empty());
                assert(out@ =~= rooted(t));
            }
        }
        i += 1;
    }
    proof {
        assert(sv.take(sv.len() as int) =~= sv);
    }
    out
}

/// Normalizes a path: "/" followed by its non-empty segments joined with '/', and a
/// trailing '/' for a folder.
pub fn normalize_path(path: &str, i_type: ItemType) -> (res: String)
    ensures
        res@ == spec_normalize_path(path@, i_type == ItemType::Folder),
{
    let chars = chars_of(path);
    let segs = segments_of(chars.as_slice());
    let mut base = join_rooted(&segs);
    let folder = match i_type {
        ItemType::Folder => true,
        _ => false,
    };
    if folder && base[base.len() - 1] != '/' {
        base.push('/');
    }
    string_of(base.as_slice())
}

/// For each segment of `path`, the folder that holds it and its name:
/// "/a/b" gives [("/", "a"), ("/a/", "b")].
pub fn get_ancestors(path: &str) -> (res: Vec<(String, String)>)
    ensures
        res@.len() == spec_ancestors(path@).len(),
        forall|i: int|
            0 <= i < res@.len() ==> (#[trigger] res@[i]).0@ == spec_ancestors(path@)[i].0
                && res@[i].1@ == spec_ancestors(path@)[i].1,
{
    let chars = chars_of(path);
    let segs = segments_of(chars.as_slice());
    let ghost sv = path_segments(path@);
    let mut ancestors: Vec<(String, String)> = Vec::new();
    let mut parent: Vec<char> = Vec::new();
    parent.push('/');
    let mut i: usize = 0;
    proof {
        assert(sv.take(0) =~= Seq::<Seq<char>>::empty());
        assert(parent@ =~= rooted(sv.take(0)).push('/'));
    }
    while i < segs.len()
        invariant
            i <= segs.len(),
            sv == segs@.map_values(|x: Vec<char>| x@),
            sv == path_segments(path@),
            parent@ == rooted(sv.take(i as int)).push('/'),
            ancestors@.len() == i,
            forall|k: int|
                0 <= k < i ==> (#[trigger] ancestors@[k]).0@ == rooted(sv.take(k)).push('/')
                    && ancestors@[k].1@ == sv[k],
        decreases segs.len() - i,
    {
        let seg = &segs[i];
        ancestors.push((string_of(parent.as_slice()), string_of(seg.as_slice())));
        let ghost before = parent@;
        let mut j: usize = 0;
        while j < seg.len()
            invariant
                j <= seg.len(),
                parent@ == before + seg@.take(j as int),
            decreases seg.len() - j,
        {
            parent.push(seg[j]);
            j += 1;
            proof {
                assert(seg@.take(j as int) =~= seg@.take(j - 1).push(seg@[j - 1]));
            }
        }
        parent.push('/');
        proof {
            assert(seg@.take(seg@.len() as int) =~= seg@);
            let t = sv.take(i + 1);
            assert(t.drop_last() =~= sv.take(i as int));
            assert(t.last() == seg@);
        }
        i += 1;
    }
    ancestors
}

/// The parent folder and the name of the item at `path`.
pub fn get_parent_and_name(path: &str) -> (res: (String, String))
    ensures
        res.0@ == spec_parent_and_name(path@).0,
        res.1@ == spec_parent_and_name(path@).1,
{
    let chars = chars_of(path);
    let segs = segments_of(chars.as_slice());
    let ghost sv = segs@.map_values(|x: Vec<char>| x@);
    if segs.len() == 0 {
        let mut p = String::new();
        crate::text::string_push(&mut p, '/');
        proof {
            assert(p@ =~= seq!['/']);
        }
        (p, String::new())
    } else if segs.len() == 1 {
        let mut p = String::new();
        crate::text::string_push(&mut p, '/');
        proof {
            assert(p@ =~= seq!['/']);
        }
        (p, string_of(segs[0].as_slice()))
    } else {
        let last = segs.len() - 1;
        let mut parent_segs: Vec<Vec<char>> = Vec::new();
        let mut i: usize = 0;
        while i < last
            invariant
                i <= last,
                last == segs.len() - 1,
                sv == segs@.map_values(|x: Vec<char>| x@),
                parent_segs@.len() == i,
                forall|k: int| 0 <= k < i ==> (#[trigger] parent_segs@[k])@ == sv[k],
            decreases last - i,
        {
            parent_segs.push(segs[i].clone());
            i += 1;
        }
        let joined = join_rooted(&parent_segs);
        proof {
            assert(parent_segs@.map_values(|x: Vec<char>| x@) =~= sv.drop_last());
        }
        (string_of(joined.as_slice()), string_of(segs[last].as_slice()))
    }
}

/// Index of the last '/' of `v`, as `last_slash` states.
fn find_last_slash(v: &[char]) -> (k: Option<usize>)
    ensures
        match k {
            Some(i) => i as int == last_slash(v@),
            None => last_slash(v@) == -1,
        },
{
    let mut n = v.len();
    proof {
        assert(v@.take(v@.len() as int) =~= v@);
    }
    while n > 0
        invariant
            n <= v.len(),
            last_slash(v@) == last_slash(v@.take(n as int)),
        decreases n,
    {
        proof {
            let t = v@.take(n as int);
            assert(t.last() == v@[n - 1]);
            assert(t.drop_last() =~= v@.take(n - 1));
        }
        if v[n - 1] == '/' {
            return Some(n - 1);
        }
        n -= 1;
    }
    proof {
        assert(v@.take(0) =~= Seq::<char>::empty());
    }
    None
}

/// The storage key of the item at `full_path`: "/a/b/c" gives "H:/a/b/\0c".
pub fn get_hierarchy_key(full_path: &str) -> (res: String)
    ensures
        res@ == spec_hierarchy_key(full_path@),
{
    let normalized = normalize_path(full_path, ItemType::Variable);
    let n = chars_of(normalized.as_str());
    let mut key: Vec<char> = Vec::new();
    key.push('H');
    key.push(':');
    let ghost head = key@;
    proof {
        lemma_last_slash(n@);
    }
    match find_last_slash(n.as_slice()) {
        Some(k) => {
            let mut i: usize = 0;
            while i < k
                invariant
                    i <= k,
                    k < n.len(),
                    key@ == head + n@.take(i as int),
                decreases k - i,
            {
                key.push(n[i]);
                i += 1;
                proof {
                    assert(n@.take(i as int) =~= n@.take(i - 1).push(n@[i - 1]));
                }
            }
            key.push('/');
            key.push('\0');
            let ghost mid = key@;
            let mut j: usize = k + 1;
            while j < n.len()
                invariant
                    k + 1 <= j <= n.len(),
                    key@ == mid + n@.subrange(k + 1, j as int),
                decreases n.len() - j,
            {
                key.push(n[j]);
                j += 1;
                proof {
                    assert(n@.subrange(k + 1, j as int) =~= n@.subrange(k + 1, j - 1).push(
                        n@[j - 1],
                    ));
                }
            }
            proof {
                assert(n@.subrange(k + 1, n@.len() as int) =~= n@.skip(k + 1));
                assert(key@ =~= seq!['H', ':'] + n@.take(k as int) + seq!['/', '\0'] + n@.skip(
                    k + 1,
                ));
            }
        },
        None => {
            key.push('/');
            key.push('\0');
            let ghost mid = key@;
            let mut j: usize = 0;
            while j < n.len()
                invariant
                    j <= n.len(),
                    key@ == mid + n@.take(j as int),
                decreases n.len() - j,
            {
                key.push(n[j]);
                j += 1;
                proof {
                    assert(n@.take(j as int) =~= n@.take(j - 1).push(n@[j - 1]));
                }
            }
            proof {
                assert(n@.take(n@.len() as int) =~= n@);
                assert(key@ =~= seq!['H', ':'] + Seq::<char>::empty() + seq!['/', '\0'] + n@);
            }
        },
    }
    string_of(key.as_slice())
}

} // verus!
