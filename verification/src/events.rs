//! Tree-change events announced after items are added or deleted.
use vstd::prelude::*;

use crate::namespace::{
    DelCommand, Ev, Event, FolderChanged, FolderInfo, ItemMeta, ItemType, TreeChanged, VarInfo,
    VarDataType, var_data_type_code,
};
use crate::text::{chars_eq, chars_of, push_chars, string_push};
use crate::utils::{
    cast_var_data_type, get_parent_and_name, normalize_path, spec_normalize_path,
    spec_parent_and_name, var_data_type_of_code,
};

verus! {

/// The id of the child `name` of folder `folder_id` (`"{folder}/{name}"` normalized).
pub open spec fn child_id(folder_id: Seq<char>, name: Seq<char>, folder: bool) -> Seq<char> {
    spec_normalize_path(folder_id.push('/') + name, folder)
}

/// The data-type code reported for an optional stored code.
pub open spec fn reported_type_code(v: Option<i32>) -> i32 {
    match v {
        Some(c) => var_data_type_code(var_data_type_of_code(c)),
        None => var_data_type_code(VarDataType::Invalid),
    }
}

/// `info` describes the new folder `meta` of `folder_id`.
pub open spec fn folder_info_for(info: FolderInfo, folder_id: Seq<char>, meta: ItemMeta) -> bool {
    &&& info.id@ == child_id(folder_id, meta.name@, true)
    &&& info.name@ == meta.name@
}

/// `info` describes the new variable `meta` of `folder_id`.
pub open spec fn var_info_for(info: VarInfo, folder_id: Seq<char>, meta: ItemMeta) -> bool {
    &&& info.id@ == child_id(folder_id, meta.name@, false)
    &&& info.name@ == meta.name@
    &&& info.var_d_type == reported_type_code(meta.var_d_type)
}

/// `fc` announces, for `folder_id`, exactly the given new folders and variables
/// (in order), nothing removed.
pub open spec fn folder_change_adds(
    fc: FolderChanged,
    folder_id: Seq<char>,
    reload: bool,
    folders: Seq<ItemMeta>,
    vars: Seq<ItemMeta>,
) -> bool {
    &&& fc.folder_id@ == folder_id
    &&& fc.reload == reload
    &&& fc.removed_items@.len() == 0
    &&& fc.new_folders@.len() == folders.len()
    &&& (forall|i: int|
        0 <= i < folders.len() ==> folder_info_for(
            #[trigger] fc.new_folders@[i],
            folder_id,
            folders[i],
        ))
    &&& fc.new_variables@.len() == vars.len()
    &&& (forall|i: int|
        0 <= i < vars.len() ==> var_info_for(#[trigger] fc.new_variables@[i], folder_id, vars[i]))
}

/// `e` is the tree change made of the single folder change that adds these items.
pub open spec fn is_add_event(
    e: Event,
    folder_id: Seq<char>,
    reload: bool,
    folders: Seq<ItemMeta>,
    vars: Seq<ItemMeta>,
) -> bool {
    match e.ev {
        Some(Ev::TreeChangedEv(tc)) => {
            &&& tc.folder_changed_event@.len() == 1
            &&& folder_change_adds(tc.folder_changed_event@[0], folder_id, reload, folders, vars)
        },
        None => false,
    }
}

/// `"{folder_id}/{name}"`.
fn join_child(folder_id: &str, name: &str) -> (s: String)
    ensures
        s@ == folder_id@.push('/') + name@,
{
    let mut s = String::new();
    let a = chars_of(folder_id);
    push_chars(&mut s, a.as_slice());
    string_push(&mut s, '/');
    let b = chars_of(name);
    push_chars(&mut s, b.as_slice());
    proof {
        assert(s@ =~= folder_id@.push('/') + name@);
    }
    s
}

/// The tree-change event for items just created under `folder_id`: one folder change
/// listing the new folders and variables with their normalized ids.
pub fn extract_add_event(
    folder_id: &str,
    reload: bool,
    new_folders_imeta: Vec<ItemMeta>,
    new_variables_imeta: Vec<ItemMeta>,
) -> (res: Result<Event, String>)
    ensures
        match res {
            Ok(e) => is_add_event(e, folder_id@, reload, new_folders_imeta@, new_variables_imeta@),
            Err(_) => false,
        },
{
    let mut new_folders: Vec<FolderInfo> = Vec::new();
    let mut i: usize = 0;
    while i < new_folders_imeta.len()
        invariant
            i <= new_folders_imeta.len(),
            new_folders@.len() == i,
            forall|k: int|
                0 <= k < i ==> folder_info_for(
                    #[trigger] new_folders@[k],
                    folder_id@,
                    new_folders_imeta@[k],
                ),
        decreases new_folders_imeta.len() - i,
    {
        let meta = &new_folders_imeta[i];
        let path = join_child(folder_id, meta.name.as_str());
        let id = normalize_path(path.as_str(), ItemType::Folder);
        new_folders.push(FolderInfo { id, name: meta.name.clone() });
        i += 1;
    }
    let mut new_variables: Vec<VarInfo> = Vec::new();
    let mut j: usize = 0;
    while j < new_variables_imeta.len()
        invariant
            j <= new_variables_imeta.len(),
            new_variables@.len() == j,
            forall|k: int|
                0 <= k < j ==> var_info_for(
                    #[trigger] new_variables@[k],
                    folder_id@,
                    new_variables_imeta@[k],
                ),
        decreases new_variables_imeta.len() - j,
    {
        let meta = &new_variables_imeta[j];
        let var_d_type = cast_var_data_type(meta.var_d_type);
        let path = join_child(folder_id, meta.name.as_str());
        let id = normalize_path(path.as_str(), ItemType::Variable);
        new_variables.push(VarInfo { id, name: meta.name.clone(), var_d_type: var_d_type.code() });
        j += 1;
    }
    let mut folders_changed: Vec<FolderChanged> = Vec::new();
    folders_changed.push(
        FolderChanged {
            folder_id: folder_id.to_owned(),
            reload,
            removed_items: Vec::new(),
            new_folders,
            new_variables,
        },
    );
    Ok(Event { ev: Some(Ev::TreeChangedEv(TreeChanged { folder_changed_event: folders_changed })) })
}

/// The parent folder of an item id, as `get_parent_and_name` gives it.
pub open spec fn parent_of(id: Seq<char>) -> Seq<char> {
    spec_parent_and_name(id).0
}

/// The distinct parents of `ids`, in the order of their first appearance.
pub open spec fn distinct_parents(ids: Seq<Seq<char>>) -> Seq<Seq<char>>
    decreases ids.len(),
{
    if ids.len() == 0 {
        Seq::empty()
    } else {
        let d = distinct_parents(ids.drop_last());
        if d.contains(parent_of(ids.last())) {
            d
        } else {
            d.push(parent_of(ids.last()))
        }
    }
}

/// The ids of `ids` whose parent is `p`, in order.
pub open spec fn removed_under(ids: Seq<Seq<char>>, p: Seq<char>) -> Seq<Seq<char>>
    decreases ids.len(),
{
    if ids.len() == 0 {
        Seq::empty()
    } else if parent_of(ids.last()) == p {
        removed_under(ids.drop_last(), p).push(ids.last())
    } else {
        removed_under(ids.drop_last(), p)
    }
}

/// The character sequences of a list of strings.
pub open spec fn string_views(v: Seq<String>) -> Seq<Seq<char>> {
    v.map_values(|s: String| s@)
}

/// `e` announces, for every distinct parent of `ids` (first appearance first), the
/// removal of the ids under it, in their order.
pub open spec fn is_del_event(e: Event, ids: Seq<Seq<char>>) -> bool {
    match e.ev {
        Some(Ev::TreeChangedEv(tc)) => {
            &&& tc.folder_changed_event@.len() == distinct_parents(ids).len()
            &&& forall|j: int|
                0 <= j < tc.folder_changed_event@.len() ==> {
                    let fc = #[trigger] tc.folder_changed_event@[j];
                    &&& fc.folder_id@ == distinct_parents(ids)[j]
                    &&& !fc.reload
                    &&& string_views(fc.removed_items@) == removed_under(
                        ids,
                        distinct_parents(ids)[j],
                    )
                    &&& fc.new_folders@.len() == 0
                    &&& fc.new_variables@.len() == 0
                }
        },
        None => false,
    }
}

proof fn lemma_distinct_parents_distinct(ids: Seq<Seq<char>>)
    ensures
        forall|a: int, b: int|
            0 <= a < b < distinct_parents(ids).len() ==> distinct_parents(ids)[a]
                != distinct_parents(ids)[b],
    decreases ids.len(),
{
    if ids.len() > 0 {
        lemma_distinct_parents_distinct(ids.drop_last());
        let d = distinct_parents(ids.drop_last());
        let x = parent_of(ids.last());
        if !d.contains(x) {
            assert forall|a: int, b: int|
                0 <= a < b < d.push(x).len() implies d.push(x)[a] != d.push(x)[b] by {
                if b == d.len() {
                    assert(d.push(x)[a] == d[a]);
                    if d[a] == x {
                        assert(d.contains(x));
                    }
                } else {
                    assert(d.push(x)[a] == d[a]);
                    assert(d.push(x)[b] == d[b]);
                }
            }
        }
    }
}

fn find_parent(parents: &Vec<Vec<char>>, p: &[char]) -> (r: Option<usize>)
    ensures
        match r {
            Some(g) => g < parents@.len() && parents@[g as int]@ == p@,
            None => forall|j: int| 0 <= j < parents@.len() ==> (#[trigger] parents@[j])@ != p@,
        },
{
    let mut g: usize = 0;
    while g < parents.len()
        invariant
            g <= parents.len(),
            forall|j: int| 0 <= j < g ==> (#[trigger] parents@[j])@ != p@,
        decreases parents.len() - g,
    {
        if chars_eq(parents[g].as_slice(), p) {
            return Some(g);
        }
        g += 1;
    }
    None
}

/// The tree-change event for deleted items: one folder change per parent folder,
/// listing the deleted ids under it.
pub fn extract_del_event(del_cmd: &DelCommand) -> (res: Result<Event, String>)
    ensures
        match res {
            Ok(e) => is_del_event(e, string_views(del_cmd.item_ids@)),
            Err(_) => false,
        },
{
    let ghost ids = string_views(del_cmd.item_ids@);
    let mut parents: Vec<Vec<char>> = Vec::new();
    let mut groups: Vec<Vec<String>> = Vec::new();
    let mut i: usize = 0;
    while i < del_cmd.item_ids.len()
        invariant
            i <= del_cmd.item_ids.len(),
            ids == string_views(del_cmd.item_ids@),
            parents@.len() == groups@.len(),
            parents@.len() == distinct_parents(ids.take(i as int)).len(),
            forall|j: int|
                0 <= j < parents@.len() ==> (#[trigger] parents@[j])@ == distinct_parents(
                    ids.take(i as int),
                )[j],
            forall|j: int|
                0 <= j < groups@.len() ==> string_views((#[trigger] groups@[j])@) == removed_under(
                    ids.take(i as int),
                    distinct_parents(ids.take(i as int))[j],
                ),
        decreases del_cmd.item_ids.len() - i,
    {
        let item_id = &del_cmd.item_ids[i];
        let (parent, _) = get_parent_and_name(item_id.as_str());
        let pchars = chars_of(parent.as_str());
        let ghost pre = ids.take(i as int);
        let ghost post = ids.take(i + 1);
        proof {
            assert(post.drop_last() =~= pre);
            assert(post.last() == item_id@);
            assert(pchars@ == parent_of(item_id@));
        }
        let found = find_parent(&parents, pchars.as_slice());
        match found {
            Some(g) => {
                proof {
                    assert(parents@[g as int]@ == pchars@);
                    assert(distinct_parents(pre).contains(parent_of(item_id@))) by {
                        assert(distinct_parents(pre)[g as int] == parent_of(item_id@));
                    }
                    lemma_distinct_parents_distinct(pre);
                }
                let ghost old_groups = groups@;
                let mut group = groups.remove(g);
                group.push(item_id.clone());
                groups.insert(g, group);
                proof {
                    assert forall|j: int| 0 <= j < groups@.len() implies string_views(
                        (#[trigger] groups@[j])@,
                    ) == removed_under(post, distinct_parents(post)[j]) by {
                        let pj = distinct_parents(pre)[j];
                        if j == g {
                            assert(string_views(groups@[j]@) =~= string_views(old_groups[j]@).push(
                                item_id@,
                            ));
                        } else {
                            assert(groups@[j] == old_groups[j]);
                            assert(pj != parent_of(item_id@));
                        }
                    }
                }
            },
            None => {
                proof {
                    assert(!distinct_parents(pre).contains(parent_of(item_id@))) by {
                        if distinct_parents(pre).contains(parent_of(item_id@)) {
                            let j = choose|j: int|
                                0 <= j < distinct_parents(pre).len() && distinct_parents(pre)[j]
                                    == parent_of(item_id@);
                            assert(parents@[j]@ == pchars@);
                        }
                    }
                }
                let ghost old_groups = groups@;
                let ghost old_parents = parents@;
                parents.push(pchars);
                let mut group: Vec<String> = Vec::new();
                group.push(item_id.clone());
                groups.push(group);
                proof {
                    assert forall|j: int| 0 <= j < groups@.len() implies string_views(
                        (#[trigger] groups@[j])@,
                    ) == removed_under(post, distinct_parents(post)[j]) by {
                        if j < old_groups.len() {
                            assert(groups@[j] == old_groups[j]);
                            assert(distinct_parents(post)[j] == distinct_parents(pre)[j]);
                            assert(distinct_parents(pre)[j] != parent_of(item_id@)) by {
                                if distinct_parents(pre)[j] == parent_of(item_id@) {
                                    assert(distinct_parents(pre).contains(parent_of(item_id@)));
                                }
                            }
                        } else {
                            assert(removed_under(pre, parent_of(item_id@)) =~= Seq::<Seq<char>>::empty())
                                by {
                                lemma_removed_under_absent(pre, parent_of(item_id@));
                            }
                            assert(string_views(groups@[j]@) =~= seq![item_id@]);
                        }
                    }
                    assert forall|j: int| 0 <= j < parents@.len() implies (
                    #[trigger] parents@[j])@ == distinct_parents(post)[j] by {
                        if j < old_parents.len() {
                            assert(parents@[j] == old_parents[j]);
                        }
                    }
                }
            },
        }
        i += 1;
    }
    proof {
        assert(ids.take(ids.len() as int) =~= ids);
    }
    let mut folder_changed_event: Vec<FolderChanged> = Vec::new();
    let mut k: usize = 0;
    while k < parents.len()
        invariant
            k <= parents.len(),
            parents@.len() == groups@.len(),
            parents@.len() == distinct_parents(ids).len(),
            forall|j: int| 0 <= j < parents@.len() ==> (#[trigger] parents@[j])@ == distinct_parents(ids)[j],
            forall|j: int|
                0 <= j < groups@.len() ==> string_views((#[trigger] groups@[j])@) == removed_under(
                    ids,
                    distinct_parents(ids)[j],
                ),
            folder_changed_event@.len() == k,
            forall|j: int|
                0 <= j < k ==> {
                    let fc = #[trigger] folder_changed_event@[j];
                    &&& fc.folder_id@ == distinct_parents(ids)[j]
                    &&& !fc.reload
                    &&& string_views(fc.removed_items@) == removed_under(ids, distinct_parents(ids)[j])
                    &&& fc.new_folders@.len() == 0
                    &&& fc.new_variables@.len() == 0
                },
        decreases parents.len() - k,
    {
        let folder_id = crate::text::string_of(parents[k].as_slice());
        folder_changed_event.push(
            FolderChanged {
                folder_id,
                reload: false,
                removed_items: groups[k].clone(),
                new_folders: Vec::new(),
                new_variables: Vec::new(),
            },
        );
        k += 1;
    }
    Ok(Event { ev: Some(Ev::TreeChangedEv(TreeChanged { folder_changed_event })) })
}

proof fn lemma_removed_under_absent(ids: Seq<Seq<char>>, p: Seq<char>)
    requires
        !distinct_parents(ids).contains(p),
    ensures
        removed_under(ids, p) == Seq::<Seq<char>>::empty(),
    decreases ids.len(),
{
    if ids.len() > 0 {
        let d = distinct_parents(ids.drop_last());
        if d.contains(p) {
            let j = choose|j: int| 0 <= j < d.len() && d[j] == p;
            if d.contains(parent_of(ids.last())) {
                assert(distinct_parents(ids)[j] == p);
            } else {
                assert(distinct_parents(ids)[j] == p);
            }
        }
        if parent_of(ids.last()) == p {
            if d.contains(p) {
            } else {
                assert(distinct_parents(ids).last() == p);
                assert(distinct_parents(ids).contains(p));
            }
        }
        lemma_removed_under_absent(ids.drop_last(), p);
    }
}

} // verus!
