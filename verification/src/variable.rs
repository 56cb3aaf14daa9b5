//! The decisions of the variable store: which keys a command reads and writes, which
//! commands are refused and why, and how subscriptions change.
use vstd::prelude::*;

use crate::namespace::{
    FolderInfo, ItemMeta, ItemType, VarDataType, VarInfo, item_type_code,
};
use crate::text::{chars_eq, chars_of, push_chars, string_of, string_push};
use crate::utils::{
    cast_item_type, get_ancestors, normalize_path, spec_ancestors, spec_normalize_path,
};

verus! {

/// The key under which item `name` of folder `parent_path` is stored: "H:{parent}\0{name}".
pub open spec fn child_key(parent_path: Seq<char>, name: Seq<char>) -> Seq<char> {
    seq!['H', ':'] + parent_path + seq!['\0'] + name
}

/// The prefix shared by the keys of all children of folder `parent_path`.
pub open spec fn children_prefix(parent_path: Seq<char>) -> Seq<char> {
    seq!['H', ':'] + parent_path + seq!['\0']
}

/// The key under which the value of variable `var_id` is stored: "D:{id}".
pub open spec fn data_key(var_id: Seq<char>) -> Seq<char> {
    seq!['D', ':'] + var_id
}

fn key_with(h0: char, h1: char, a: &str, sep: Option<char>, b: &str) -> (s: String)
    ensures
        s@ == (match sep {
            Some(c) => seq![h0, h1] + a@ + seq![c] + b@,
            None => seq![h0, h1] + a@ + b@,
        }),
{
    let mut s = String::new();
    string_push(&mut s, h0);
    string_push(&mut s, h1);
    let av = chars_of(a);
    push_chars(&mut s, av.as_slice());
    match sep {
        Some(c) => string_push(&mut s, c),
        None => {},
    }
    let bv = chars_of(b);
    push_chars(&mut s, bv.as_slice());
    proof {
        match sep {
            Some(c) => {
                assert(s@ =~= seq![h0, h1] + a@ + seq![c] + b@);
            },
            None => {
                assert(s@ =~= seq![h0, h1] + a@ + b@);
            },
        }
    }
    s
}

/// The storage key of the value of `var_id`, as given.
pub fn data_key_of(var_id: &str) -> (k: String)
    ensures
        k@ == data_key(var_id@),
{
    let k = key_with('D', ':', var_id, None, "");
    proof {
        reveal_strlit("");
        assert(k@ =~= data_key(var_id@));
    }
    k
}

/// What adding items under a folder has to read first: the normalized folder path,
/// the keys of the folders on the way to it, and the prefix of its children's keys.
pub struct AddLookup {
    pub parent_path: String,
    pub ancestor_keys: Vec<String>,
    pub ancestor_names: Vec<String>,
    pub children_prefix: String,
}

/// The ancestors (holding folder, name) of folder `parent_id`, normalized.
pub open spec fn add_ancestors(parent_id: Seq<char>) -> Seq<(Seq<char>, Seq<char>)> {
    spec_ancestors(spec_normalize_path(parent_id, true))
}

/// The keys to read before adding items under `parent_id`.
pub fn add_lookup(parent_id: &str) -> (r: AddLookup)
    ensures
        r.parent_path@ == spec_normalize_path(parent_id@, true),
        r.children_prefix@ == children_prefix(r.parent_path@),
        r.ancestor_keys@.len() == add_ancestors(parent_id@).len(),
        r.ancestor_names@.len() == add_ancestors(parent_id@).len(),
        forall|j: int|
            0 <= j < r.ancestor_keys@.len() ==> (#[trigger] r.ancestor_keys@[j])@ == child_key(
                add_ancestors(parent_id@)[j].0,
                add_ancestors(parent_id@)[j].1,
            ),
        forall|j: int|
            0 <= j < r.ancestor_names@.len() ==> (#[trigger] r.ancestor_names@[j])@
                == add_ancestors(parent_id@)[j].1,
{
    let parent_path = normalize_path(parent_id, ItemType::Folder);
    let ancestors = get_ancestors(parent_path.as_str());
    let mut keys: Vec<String> = Vec::new();
    let mut names: Vec<String> = Vec::new();
    let mut j: usize = 0;
    while j < ancestors.len()
        invariant
            j <= ancestors.len(),
            ancestors@.len() == add_ancestors(parent_id@).len(),
            parent_path@ == spec_normalize_path(parent_id@, true),
            forall|i: int|
                0 <= i < ancestors@.len() ==> (#[trigger] ancestors@[i]).0@ == add_ancestors(
                    parent_id@,
                )[i].0 && ancestors@[i].1@ == add_ancestors(parent_id@)[i].1,
            keys@.len() == j,
            names@.len() == j,
            forall|i: int|
                0 <= i < j ==> (#[trigger] keys@[i])@ == child_key(
                    add_ancestors(parent_id@)[i].0,
                    add_ancestors(parent_id@)[i].1,
                ),
            forall|i: int| 0 <= i < j ==> (#[trigger] names@[i])@ == add_ancestors(parent_id@)[i].1,
        decreases ancestors.len() - j,
    {
        let (holder, name) = &ancestors[j];
        let k = key_with('H', ':', holder.as_str(), Some('\0'), name.as_str());
        keys.push(k);
        names.push(name.clone());
        j += 1;
    }
    let prefix = key_with('H', ':', parent_path.as_str(), Some('\0'), "");
    proof {
        reveal_strlit("");
        assert(prefix@ =~= children_prefix(parent_path@));
    }
    AddLookup {
        parent_path,
        ancestor_keys: keys,
        ancestor_names: names,
        children_prefix: prefix,
    }
}

/// What adding items writes: (key, meta) pairs, and the new folders and variables.
pub struct AddPlan {
    pub inserts: Vec<(String, ItemMeta)>,
    pub new_folders: Vec<ItemMeta>,
    pub new_variables: Vec<ItemMeta>,
}

/// The ancestor folders that do not exist yet, as (key, name), in order.
pub open spec fn missing_ancestors(anc: Seq<(Seq<char>, Seq<char>)>, present: Seq<bool>) -> Seq<
    (Seq<char>, Seq<char>),
>
    decreases anc.len(),
{
    if anc.len() == 0 {
        Seq::empty()
    } else {
        let r = missing_ancestors(anc.drop_last(), present.take(anc.len() - 1));
        if present[anc.len() - 1] {
            r
        } else {
            r.push((child_key(anc.last().0, anc.last().1), anc.last().1))
        }
    }
}

/// The items of `items` whose kind code is `code`, in order.
pub open spec fn items_of_kind(items: Seq<ItemMeta>, code: i32) -> Seq<ItemMeta>
    decreases items.len(),
{
    if items.len() == 0 {
        Seq::empty()
    } else if items.last().i_type == code {
        items_of_kind(items.drop_last(), code).push(items.last())
    } else {
        items_of_kind(items.drop_last(), code)
    }
}

/// Whether item `i` would overwrite a child that already exists.
pub open spec fn item_conflicts(
    items: Seq<ItemMeta>,
    parent_path: Seq<char>,
    existing: Seq<Seq<char>>,
    i: int,
) -> bool {
    existing.contains(child_key(parent_path, items[i].name@))
}

/// The strings' character sequences.
pub open spec fn views_of(v: Seq<String>) -> Seq<Seq<char>> {
    v.map_values(|s: String| s@)
}

/// `plan` creates the missing ancestor folders, then every item under `parent_path`,
/// and reports the new folders and variables.
pub open spec fn is_add_plan(
    plan: AddPlan,
    parent_path: Seq<char>,
    items: Seq<ItemMeta>,
    missing: Seq<(Seq<char>, Seq<char>)>,
) -> bool {
    &&& plan.inserts@.len() == missing.len() + items.len()
    &&& forall|j: int|
        0 <= j < missing.len() ==> {
            let e = #[trigger] plan.inserts@[j];
            &&& e.0@ == missing[j].0
            &&& e.1.name@ == missing[j].1
            &&& e.1.i_type == item_type_code(ItemType::Folder)
            &&& e.1.var_d_type.is_none()
        }
    &&& forall|i: int|
        0 <= i < items.len() ==> {
            let e = #[trigger] plan.inserts@[missing.len() + i];
            &&& e.0@ == child_key(parent_path, items[i].name@)
            &&& e.1 == items[i]
        }
    &&& plan.new_folders@ == items_of_kind(items, item_type_code(ItemType::Folder))
    &&& plan.new_variables@ == items_of_kind(items, item_type_code(ItemType::Variable))
}

fn contains_string(v: &Vec<String>, s: &[char]) -> (r: bool)
    ensures
        r == views_of(v@).contains(s@),
{
    let mut i: usize = 0;
    while i < v.len()
        invariant
            i <= v.len(),
            forall|j: int| 0 <= j < i ==> v@[j]@ != s@,
        decreases v.len() - i,
    {
        let c = chars_of(v[i].as_str());
        if chars_eq(c.as_slice(), s) {
            proof {
                assert(views_of(v@)[i as int] == s@);
            }
            return true;
        }
        i += 1;
    }
    proof {
        if views_of(v@).contains(s@) {
            let j = choose|j: int| 0 <= j < views_of(v@).len() && views_of(v@)[j] == s@;
            assert(v@[j]@ == s@);
        }
    }
    false
}

/// Plans adding `items_meta` under folder `parent_id`, given which of its ancestor
/// folders exist (`ancestor_present`, in the order of `add_lookup`) and the keys of its
/// existing children. Refused with "Can't create existing item {key}" for the first item
/// whose key is taken.
pub fn plan_add_items(
    parent_id: &str,
    items_meta: Vec<ItemMeta>,
    ancestor_present: &Vec<bool>,
    existing_children: &Vec<String>,
) -> (res: Result<AddPlan, String>)
    requires
        ancestor_present@.len() == add_ancestors(parent_id@).len(),
    ensures
        ({
            let pp = spec_normalize_path(parent_id@, true);
            let existing = views_of(existing_children@);
            match res {
                Ok(plan) => {
                    &&& forall|i: int|
                        0 <= i < items_meta@.len() ==> !item_conflicts(items_meta@, pp, existing, i)
                    &&& is_add_plan(
                        plan,
                        pp,
                        items_meta@,
                        missing_ancestors(add_ancestors(parent_id@), ancestor_present@),
                    )
                },
                Err(msg) => exists|i: int|
                    {
                        &&& 0 <= i < items_meta@.len()
                        &&& item_conflicts(items_meta@, pp, existing, i)
                        &&& forall|j: int|
                            0 <= j < i ==> !item_conflicts(items_meta@, pp, existing, j)
                        &&& msg@ == "Can't create existing item "@ + child_key(
                            pp,
                            items_meta@[i].name@,
                        )
                    },
            }
        }),
{
    let lookup = add_lookup(parent_id);
    let ghost anc = add_ancestors(parent_id@);
    let ghost pp = lookup.parent_path@;
    let mut inserts: Vec<(String, ItemMeta)> = Vec::new();
    let mut j: usize = 0;
    while j < lookup.ancestor_keys.len()
        invariant
            j <= lookup.ancestor_keys.len(),
            lookup.ancestor_keys@.len() == anc.len(),
            lookup.ancestor_names@.len() == anc.len(),
            ancestor_present@.len() == anc.len(),
            forall|i: int|
                0 <= i < lookup.ancestor_keys@.len() ==> (#[trigger] lookup.ancestor_keys@[i])@
                    == child_key(anc[i].0, anc[i].1),
            forall|i: int|
                0 <= i < lookup.ancestor_names@.len() ==> (#[trigger] lookup.ancestor_names@[i])@
                    == anc[i].1,
            inserts@.len() == missing_ancestors(anc.take(j as int), ancestor_present@.take(j as int)).len(),
            forall|k: int|
                0 <= k < inserts@.len() ==> {
                    let e = #[trigger] inserts@[k];
                    let m = missing_ancestors(anc.take(j as int), ancestor_present@.take(j as int));
                    &&& e.0@ == m[k].0
                    &&& e.1.name@ == m[k].1
                    &&& e.1.i_type == item_type_code(ItemType::Folder)
                    &&& e.1.var_d_type.is_none()
                },
        decreases lookup.ancestor_keys.len() - j,
    {
        let ghost pre_a = anc.take(j as int);
        let ghost pre_p = ancestor_present@.take(j as int);
        proof {
            assert(anc.take(j + 1).drop_last() =~= pre_a);
            assert(ancestor_present@.take(j + 1).take(j as int) =~= pre_p);
            assert(anc.take(j + 1).last() == anc[j as int]);
        }
        if !ancestor_present[j] {
            inserts.push(
                (
                    lookup.ancestor_keys[j].clone(),
                    ItemMeta {
                        name: lookup.ancestor_names[j].clone(),
                        i_type: ItemType::Folder.code(),
                        var_d_type: None,
                    },
                ),
            );
        }
        j += 1;
    }
    proof {
        assert(anc.take(anc.len() as int) =~= anc);
        assert(ancestor_present@.take(anc.len() as int) =~= ancestor_present@);
    }
    let ghost missing = missing_ancestors(anc, ancestor_present@);
    let ghost existing = views_of(existing_children@);
    let ghost items = items_meta@;
    let mut new_folders: Vec<ItemMeta> = Vec::new();
    let mut new_variables: Vec<ItemMeta> = Vec::new();
    let mut i: usize = 0;
    while i < items_meta.len()
        invariant
            i <= items_meta.len(),
            items == items_meta@,
            pp == lookup.parent_path@,
            pp == spec_normalize_path(parent_id@, true),
            lookup.children_prefix@ == children_prefix(pp),
            existing == views_of(existing_children@),
            inserts@.len() == missing.len() + i,
            forall|k: int|
                0 <= k < missing.len() ==> {
                    let e = #[trigger] inserts@[k];
                    &&& e.0@ == missing[k].0
                    &&& e.1.name@ == missing[k].1
                    &&& e.1.i_type == item_type_code(ItemType::Folder)
                    &&& e.1.var_d_type.is_none()
                },
            forall|k: int|
                0 <= k < i ==> {
                    let e = #[trigger] inserts@[missing.len() + k];
                    &&& e.0@ == child_key(pp, items[k].name@)
                    &&& e.1 == items[k]
                },
            forall|k: int| 0 <= k < i ==> !item_conflicts(items, pp, existing, k),
            new_folders@ == items_of_kind(items.take(i as int), item_type_code(ItemType::Folder)),
            new_variables@ == items_of_kind(items.take(i as int), item_type_code(ItemType::Variable)),
        decreases items_meta.len() - i,
    {
        let meta = &items_meta[i];
        let key = key_with('H', ':', lookup.parent_path.as_str(), Some('\0'), meta.name.as_str());
        let key_chars = chars_of(key.as_str());
        proof {
            assert(key@ =~= child_key(pp, items[i as int].name@));
        }
        if contains_string(existing_children, key_chars.as_slice()) {
            let mut msg = "Can't create existing item ".to_owned();
            push_chars(&mut msg, key_chars.as_slice());
            proof {
                assert(item_conflicts(items, pp, existing, i as int));
                assert(pp == spec_normalize_path(parent_id@, true));
            }
            return Err(msg);
        }
        proof {
            assert(items.take(i + 1).drop_last() =~= items.take(i as int));
            assert(items.take(i + 1).last() == items[i as int]);
        }
        let ghost before = inserts@;
        inserts.push((key, meta.copy()));
        proof {
            assert forall|k: int| 0 <= k < missing.len() implies {
                let e = #[trigger] inserts@[k];
                &&& e.0@ == missing[k].0
                &&& e.1.name@ == missing[k].1
                &&& e.1.i_type == item_type_code(ItemType::Folder)
                &&& e.1.var_d_type.is_none()
            } by {
                assert(inserts@[k] == before[k]);
            }
            assert forall|k: int| 0 <= k < i + 1 implies {
                let e = #[trigger] inserts@[missing.len() + k];
                &&& e.0@ == child_key(pp, items[k].name@)
                &&& e.1 == items[k]
            } by {
                if k < i {
                    assert(inserts@[missing.len() + k] == before[missing.len() + k]);
                }
            }
        }
        match cast_item_type(meta.i_type) {
            ItemType::Folder => {
                new_folders.push(meta.copy());
            },
            ItemType::Variable => {
                new_variables.push(meta.copy());
            },
            ItemType::Invalid => {},
        }
        i += 1;
    }
    proof {
        assert(items.take(items.len() as int) =~= items);
    }
    Ok(AddPlan { inserts, new_folders, new_variables })
}


/// Whether a stored child entry can be listed: a folder, or a variable with a data type.
pub open spec fn listable(meta: ItemMeta) -> bool {
    ||| meta.i_type == item_type_code(ItemType::Folder)
    ||| (meta.i_type == item_type_code(ItemType::Variable) && meta.var_d_type.is_some())
}

/// The message for an entry that cannot be listed.
pub open spec fn unlistable_message(meta: ItemMeta) -> Seq<char> {
    if meta.i_type == item_type_code(ItemType::Variable) {
        "Invalid variable data type"@
    } else {
        "Invalid item type"@
    }
}

/// The id under which a listed child of folder `path` is reported.
pub open spec fn listed_id(path: Seq<char>, name: Seq<char>) -> Seq<char> {
    spec_normalize_path(path.push('/') + name, false)
}

/// The folders among `entries`, reported under folder `path`, in order.
pub open spec fn listed_folders(path: Seq<char>, entries: Seq<ItemMeta>) -> Seq<(Seq<char>, Seq<char>)>
    decreases entries.len(),
{
    if entries.len() == 0 {
        Seq::empty()
    } else {
        let r = listed_folders(path, entries.drop_last());
        let m = entries.last();
        if m.i_type == item_type_code(ItemType::Folder) {
            r.push((listed_id(path, m.name@), m.name@))
        } else {
            r
        }
    }
}

/// The variables among `entries`, reported under folder `path`, in order.
pub open spec fn listed_variables(path: Seq<char>, entries: Seq<ItemMeta>) -> Seq<(Seq<char>, Seq<char>, i32)>
    decreases entries.len(),
{
    if entries.len() == 0 {
        Seq::empty()
    } else {
        let r = listed_variables(path, entries.drop_last());
        let m = entries.last();
        if m.i_type == item_type_code(ItemType::Variable) && m.var_d_type.is_some() {
            r.push((listed_id(path, m.name@), m.name@, m.var_d_type.unwrap()))
        } else {
            r
        }
    }
}

/// The prefix of the keys of the children of folder `parent_id`.
pub fn children_prefix_of(parent_id: &str) -> (k: String)
    ensures
        k@ == children_prefix(spec_normalize_path(parent_id@, true)),
{
    let path = normalize_path(parent_id, ItemType::Folder);
    let k = key_with('H', ':', path.as_str(), Some('\0'), "");
    proof {
        reveal_strlit("");
        assert(k@ =~= children_prefix(path@));
    }
    k
}

/// The children of folder `parent_id`, from the entries stored under its children
/// prefix (in key order): folders and variables with their ids. The first entry that is
/// neither a folder nor a typed variable makes the listing fail.
pub fn collect_children(parent_id: &str, entries: Vec<ItemMeta>) -> (res: Result<(Vec<FolderInfo>, Vec<VarInfo>), String>)
    ensures
        ({
            let path = spec_normalize_path(parent_id@, true);
            match res {
                Ok((folders, vars)) => {
                    &&& forall|i: int| 0 <= i < entries@.len() ==> listable(#[trigger] entries@[i])
                    &&& folders@.len() == listed_folders(path, entries@).len()
                    &&& forall|i: int|
                        0 <= i < folders@.len() ==> (#[trigger] folders@[i]).id@ == listed_folders(
                            path,
                            entries@,
                        )[i].0 && folders@[i].name@ == listed_folders(path, entries@)[i].1
                    &&& vars@.len() == listed_variables(path, entries@).len()
                    &&& forall|i: int|
                        0 <= i < vars@.len() ==> (#[trigger] vars@[i]).id@ == listed_variables(
                            path,
                            entries@,
                        )[i].0 && vars@[i].name@ == listed_variables(path, entries@)[i].1
                            && vars@[i].var_d_type == listed_variables(path, entries@)[i].2
                },
                Err(msg) => exists|i: int|
                    {
                        &&& 0 <= i < entries@.len()
                        &&& !listable(entries@[i])
                        &&& forall|j: int| 0 <= j < i ==> listable(#[trigger] entries@[j])
                        &&& msg@ == unlistable_message(entries@[i])
                    },
            }
        }),
{
    let path = normalize_path(parent_id, ItemType::Folder);
    let ghost p = path@;
    let mut folders: Vec<FolderInfo> = Vec::new();
    let mut vars: Vec<VarInfo> = Vec::new();
    let mut i: usize = 0;
    while i < entries.len()
        invariant
            i <= entries.len(),
            p == path@,
            p == spec_normalize_path(parent_id@, true),
            forall|j: int| 0 <= j < i ==> listable(#[trigger] entries@[j]),
            folders@.len() == listed_folders(p, entries@.take(i as int)).len(),
            forall|k: int|
                0 <= k < folders@.len() ==> (#[trigger] folders@[k]).id@ == listed_folders(
                    p,
                    entries@.take(i as int),
                )[k].0 && folders@[k].name@ == listed_folders(p, entries@.take(i as int))[k].1,
            vars@.len() == listed_variables(p, entries@.take(i as int)).len(),
            forall|k: int|
                0 <= k < vars@.len() ==> (#[trigger] vars@[k]).id@ == listed_variables(
                    p,
                    entries@.take(i as int),
                )[k].0 && vars@[k].name@ == listed_variables(p, entries@.take(i as int))[k].1
                    && vars@[k].var_d_type == listed_variables(p, entries@.take(i as int))[k].2,
        decreases entries.len() - i,
    {
        let meta = &entries[i];
        proof {
            assert(entries@.take(i + 1).drop_last() =~= entries@.take(i as int));
            assert(entries@.take(i + 1).last() == entries@[i as int]);
        }
        let mut joined = String::new();
        let pv = chars_of(path.as_str());
        push_chars(&mut joined, pv.as_slice());
        string_push(&mut joined, '/');
        let nv = chars_of(meta.name.as_str());
        push_chars(&mut joined, nv.as_slice());
        proof {
            assert(joined@ =~= p.push('/') + meta.name@);
        }
        let ch_id = normalize_path(joined.as_str(), ItemType::Variable);
        match cast_item_type(meta.i_type) {
            ItemType::Folder => {
                folders.push(FolderInfo { id: ch_id, name: meta.name.clone() });
            },
            ItemType::Variable => {
                match meta.var_d_type {
                    Some(v) => {
                        vars.push(VarInfo { id: ch_id, name: meta.name.clone(), var_d_type: v });
                    },
                    None => {
                        proof {
                            assert(!listable(entries@[i as int]));
                        }
                        return Err("Invalid variable data type".to_owned());
                    },
                }
            },
            ItemType::Invalid => {
                proof {
                    assert(!listable(entries@[i as int]));
                }
                return Err("Invalid item type".to_owned());
            },
        }
        i += 1;
    }
    proof {
        assert(entries@.take(entries@.len() as int) =~= entries@);
    }
    Ok((folders, vars))
}


/// The kind of a value sent to or stored for a variable.
#[derive(Clone, Copy, Debug, PartialEq, Eq, Structural)]
pub enum ValueKind {
    Integer,
    Float,
    Text,
    Boolean,
}

/// The kind a value of kind `kind` is stored as in an item of type `i_type` holding data
/// of type `v_dtype`, or the reason it is refused. Integers and floats convert into each
/// other; every other mismatch is refused.
pub open spec fn spec_coerce_kind(i_type: ItemType, v_dtype: VarDataType, kind: ValueKind) -> Result<ValueKind, Seq<char>> {
    match i_type {
        ItemType::Variable => match (v_dtype, kind) {
            (VarDataType::Integer, ValueKind::Integer) => Ok(ValueKind::Integer),
            (VarDataType::Integer, ValueKind::Float) => Ok(ValueKind::Integer),
            (VarDataType::Float, ValueKind::Float) => Ok(ValueKind::Float),
            (VarDataType::Float, ValueKind::Integer) => Ok(ValueKind::Float),
            (VarDataType::Text, ValueKind::Text) => Ok(ValueKind::Text),
            (VarDataType::Boolean, ValueKind::Boolean) => Ok(ValueKind::Boolean),
            (VarDataType::Invalid, _) => Err("Invalid var data type."@),
            _ => Err("Mismatch data type."@),
        },
        ItemType::Folder => Err("Can't write value to a folder."@),
        ItemType::Invalid => Err("Invalid item type."@),
    }
}

/// Decides how a value of kind `kind` is written to an item of type `i_type` with data
/// type `v_dtype`.
pub fn coerce_kind(i_type: ItemType, v_dtype: VarDataType, kind: ValueKind) -> (res: Result<ValueKind, String>)
    ensures
        match (res, spec_coerce_kind(i_type, v_dtype, kind)) {
            (Ok(a), Ok(b)) => a == b,
            (Err(m), Err(b)) => m@ == b,
            _ => false,
        },
{
    match i_type {
        ItemType::Variable => match (v_dtype, kind) {
            (VarDataType::Integer, ValueKind::Integer) => Ok(ValueKind::Integer),
            (VarDataType::Integer, ValueKind::Float) => Ok(ValueKind::Integer),
            (VarDataType::Float, ValueKind::Float) => Ok(ValueKind::Float),
            (VarDataType::Float, ValueKind::Integer) => Ok(ValueKind::Float),
            (VarDataType::Text, ValueKind::Text) => Ok(ValueKind::Text),
            (VarDataType::Boolean, ValueKind::Boolean) => Ok(ValueKind::Boolean),
            (VarDataType::Invalid, _) => Err("Invalid var data type.".to_owned()),
            _ => Err("Mismatch data type.".to_owned()),
        },
        ItemType::Folder => Err("Can't write value to a folder.".to_owned()),
        ItemType::Invalid => Err("Invalid item type.".to_owned()),
    }
}

/// Where and as what a value is written.
pub struct SetStep {
    pub var_id: String,
    pub data_key: String,
    pub kind: ValueKind,
}

/// The outcome of writing to `var_id`: `stored` is the item stored under its hierarchy
/// key, `value` the value sent (outer `None`: no value; inner `None`: a value without
/// content). Checks go in this order: missing item, missing value, empty value, kinds.
pub open spec fn spec_plan_set(
    var_id: Seq<char>,
    stored: Option<ItemMeta>,
    value: Option<Option<ValueKind>>,
) -> Result<(Seq<char>, ValueKind), Seq<char>> {
    match stored {
        None => Err("Missing variable."@),
        Some(meta) => match value {
            None => Err("Error setting variable values. Can't set a null value"@),
            Some(None) => Err("None value"@),
            Some(Some(kind)) => match spec_coerce_kind(
                crate::utils::item_type_of_code(meta.i_type),
                match meta.var_d_type {
                    Some(c) => crate::utils::var_data_type_of_code(c),
                    None => VarDataType::Invalid,
                },
                kind,
            ) {
                Ok(k) => Ok((spec_normalize_path(var_id, false), k)),
                Err(m) => Err(m),
            },
        },
    }
}

/// Plans writing a value to `var_id` (see `spec_plan_set`): the normalized variable id,
/// the key its value goes under and the kind it is stored as.
pub fn plan_set(var_id: &str, stored: Option<ItemMeta>, value: Option<Option<ValueKind>>) -> (res: Result<SetStep, String>)
    ensures
        match (res, spec_plan_set(var_id@, stored, value)) {
            (Ok(step), Ok((id, k))) => step.var_id@ == id && step.data_key@ == data_key(id)
                && step.kind == k,
            (Err(m), Err(b)) => m@ == b,
            _ => false,
        },
{
    match stored {
        None => Err("Missing variable.".to_owned()),
        Some(meta) => match value {
            None => Err("Error setting variable values. Can't set a null value".to_owned()),
            Some(None) => Err("None value".to_owned()),
            Some(Some(kind)) => {
                let i_type = cast_item_type(meta.i_type);
                let v_dtype = crate::utils::cast_var_data_type(meta.var_d_type);
                match coerce_kind(i_type, v_dtype, kind) {
                    Ok(k) => {
                        let id = normalize_path(var_id, ItemType::Variable);
                        let dk = data_key_of(id.as_str());
                        Ok(SetStep { var_id: id, data_key: dk, kind: k })
                    },
                    Err(m) => Err(m),
                }
            },
        },
    }
}

/// One variable of a set command as the store sees it: its id as sent, what reading its
/// stored item gave (the item, none, or the read's error message), and the value sent
/// (see `spec_plan_set`).
pub type SetRequest = (String, Result<Option<ItemMeta>, String>, Option<Option<ValueKind>>);

/// The outcome of one variable of a set command: a read error as it is, or the plan of
/// `spec_plan_set`.
pub open spec fn set_request_result(q: SetRequest) -> Result<(Seq<char>, ValueKind), Seq<char>> {
    match q.1 {
        Err(m) => Err(m@),
        Ok(stored) => spec_plan_set(q.0@, stored, q.2),
    }
}

/// The outcome of a whole set command: the plans of all its variables, in order, or the
/// first variable's error.
pub open spec fn set_all_result(qs: Seq<SetRequest>) -> Result<Seq<(Seq<char>, ValueKind)>, Seq<char>>
    decreases qs.len(),
{
    if qs.len() == 0 {
        Ok(Seq::empty())
    } else {
        match set_all_result(qs.drop_last()) {
            Err(m) => Err(m),
            Ok(done) => match set_request_result(qs.last()) {
                Err(m) => Err(m),
                Ok(x) => Ok(done.push(x)),
            },
        }
    }
}

/// Once a prefix of a set command is refused, the whole command is refused the same way.
proof fn lemma_set_all_prefix_err(qs: Seq<SetRequest>, k: int)
    requires
        0 <= k <= qs.len(),
        set_all_result(qs.take(k)) is Err,
    ensures
        set_all_result(qs) == set_all_result(qs.take(k)),
    decreases qs.len(),
{
    if k == qs.len() {
        assert(qs.take(k) =~= qs);
    } else {
        assert(qs.drop_last().take(k) =~= qs.take(k));
        lemma_set_all_prefix_err(qs.drop_last(), k);
    }
}

/// Plans a whole set command (see `set_all_result`): every variable is checked before
/// anything is written, so the plan is all of the writes or, at the first variable that
/// is refused, none of them.
pub fn plan_set_all(requests: &Vec<SetRequest>) -> (res: Result<Vec<SetStep>, String>)
    ensures
        match set_all_result(requests@) {
            Ok(xs) => res matches Ok(steps) && steps@.len() == xs.len() && forall|i: int|
                0 <= i < xs.len() ==> (#[trigger] steps@[i]).var_id@ == xs[i].0 && steps@[i].kind == xs[i].1
                    && steps@[i].data_key@ == data_key(xs[i].0),
            Err(m) => res matches Err(e) && e@ == m,
        },
{
    let mut steps: Vec<SetStep> = Vec::new();
    let ghost mut xs: Seq<(Seq<char>, ValueKind)> = Seq::empty();
    let mut i: usize = 0;
    while i < requests.len()
        invariant
            i <= requests@.len(),
            set_all_result(requests@.take(i as int)) == Ok::<Seq<(Seq<char>, ValueKind)>, Seq<char>>(xs),
            steps@.len() == xs.len(),
            forall|j: int|
                0 <= j < xs.len() ==> (#[trigger] steps@[j]).var_id@ == xs[j].0 && steps@[j].kind == xs[j].1
                    && steps@[j].data_key@ == data_key(xs[j].0),
        decreases requests.len() - i,
    {
        let q = &requests[i];
        assert(requests@.take(i as int + 1).drop_last() =~= requests@.take(i as int));
        assert(requests@.take(i as int + 1).last() == requests@[i as int]);
        let stored = match &q.1 {
            Err(m) => {
                proof {
                    lemma_set_all_prefix_err(requests@, i as int + 1);
                }
                return Err(m.clone());
            },
            Ok(None) => None,
            Ok(Some(meta)) => Some(meta.copy()),
        };
        let step = match plan_set(q.0.as_str(), stored, q.2) {
            Err(m) => {
                proof {
                    lemma_set_all_prefix_err(requests@, i as int + 1);
                }
                return Err(m);
            },
            Ok(st) => st,
        };
        proof {
            xs = xs.push((step.var_id@, step.kind));
        }
        steps.push(step);
        i += 1;
    }
    assert(requests@.take(requests@.len() as int) =~= requests@);
    Ok(steps)
}

/// A set command is all or nothing: its plan holds every write exactly when no variable
/// is refused, and otherwise it reports the first refused variable's error.
pub proof fn law_set_all_or_nothing(qs: Seq<SetRequest>)
    ensures
        (set_all_result(qs) is Ok) <==> forall|i: int| 0 <= i < qs.len() ==> #[trigger] set_request_result(qs[i]) is Ok,
        set_all_result(qs) matches Ok(xs) ==> xs.len() == qs.len() && forall|i: int|
            0 <= i < qs.len() ==> set_request_result(qs[i]) == Ok::<(Seq<char>, ValueKind), Seq<char>>(#[trigger] xs[i]),
        set_all_result(qs) matches Err(m) ==> exists|k: int|
            0 <= k < qs.len() && #[trigger] set_request_result(qs[k]) == Err::<(Seq<char>, ValueKind), Seq<char>>(m)
                && forall|j: int| 0 <= j < k ==> #[trigger] set_request_result(qs[j]) is Ok,
    decreases qs.len(),
{
    if qs.len() > 0 {
        let d = qs.drop_last();
        law_set_all_or_nothing(d);
        assert forall|i: int| 0 <= i < d.len() implies #[trigger] qs[i] == d[i] by {}
        let last = qs.len() - 1;
        assert(qs.last() == qs[last]);
        if set_all_result(d) is Ok && set_request_result(qs.last()) is Ok {
            assert forall|i: int| 0 <= i < qs.len() implies #[trigger] set_request_result(qs[i]) is Ok by {
                if i < last {
                    assert(qs[i] == d[i]);
                }
            }
        }
        if set_all_result(d) is Err {
            let k = choose|k: int|
                0 <= k < d.len() && #[trigger] set_request_result(d[k]) == Err::<(Seq<char>, ValueKind), Seq<char>>(
                    set_all_result(d)->Err_0,
                ) && forall|j: int| 0 <= j < k ==> #[trigger] set_request_result(d[j]) is Ok;
            assert(qs[k] == d[k]);
            assert forall|j: int| 0 <= j < k implies #[trigger] set_request_result(qs[j]) is Ok by {
                assert(qs[j] == d[j]);
            }
        }
        if set_all_result(d) is Ok && set_request_result(qs.last()) is Err {
            assert forall|j: int| 0 <= j < last implies #[trigger] set_request_result(qs[j]) is Ok by {
                assert(qs[j] == d[j]);
            }
        }
    }
}

/// The keys that deleting an item removes: its value, its own entry, and the prefixes
/// of the entries and values of everything below it.
pub struct DeleteTargets {
    pub data_key: String,
    pub hierarchy_key: String,
    pub hierarchy_prefix: String,
    pub data_prefix: String,
}

/// The keys to remove when deleting the item `id`.
pub fn delete_targets(id: &str) -> (t: DeleteTargets)
    ensures
        t.data_key@ == data_key(spec_normalize_path(id@, false)),
        t.hierarchy_key@ == crate::utils::spec_hierarchy_key(id@),
        t.hierarchy_prefix@ == seq!['H', ':'] + spec_normalize_path(id@, false) + seq!['/'],
        t.data_prefix@ == seq!['D', ':'] + spec_normalize_path(id@, false) + seq!['/'],
{
    let as_var_id = normalize_path(id, ItemType::Variable);
    let dk = data_key_of(as_var_id.as_str());
    let hk = crate::utils::get_hierarchy_key(id);
    let hp = key_with('H', ':', as_var_id.as_str(), Some('/'), "");
    let dp = key_with('D', ':', as_var_id.as_str(), Some('/'), "");
    proof {
        reveal_strlit("");
        assert(hp@ =~= seq!['H', ':'] + as_var_id@ + seq!['/']);
        assert(dp@ =~= seq!['D', ':'] + as_var_id@ + seq!['/']);
    }
    DeleteTargets { data_key: dk, hierarchy_key: hk, hierarchy_prefix: hp, data_prefix: dp }
}

} // verus!
