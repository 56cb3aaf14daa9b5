//! Laws of the variable store's plans: which values a variable takes, which ancestor
//! folders an add creates, and what a listing reports.
use vstd::prelude::*;

use crate::namespace::{item_type_code, ItemMeta, ItemType, VarDataType};
use crate::utils::spec_normalize_path;
use crate::variable::{
    child_key, is_add_plan, items_of_kind, listed_folders, listed_id, listed_variables,
    missing_ancestors, spec_coerce_kind, spec_plan_set, AddPlan, ValueKind,
};

verus! {

/// A value of a variable's own data type is always taken as it is, integers and floats
/// are taken into each other's variables, and whatever is taken is stored as the
/// variable's own data type.
pub proof fn law_values_are_stored_as_the_variables_type(i: ItemType, d: VarDataType, k: ValueKind)
    ensures
        spec_coerce_kind(ItemType::Variable, VarDataType::Integer, ValueKind::Integer) == Ok::<ValueKind, Seq<char>>(ValueKind::Integer),
        spec_coerce_kind(ItemType::Variable, VarDataType::Float, ValueKind::Float) == Ok::<ValueKind, Seq<char>>(ValueKind::Float),
        spec_coerce_kind(ItemType::Variable, VarDataType::Text, ValueKind::Text) == Ok::<ValueKind, Seq<char>>(ValueKind::Text),
        spec_coerce_kind(ItemType::Variable, VarDataType::Boolean, ValueKind::Boolean) == Ok::<ValueKind, Seq<char>>(ValueKind::Boolean),
        spec_coerce_kind(ItemType::Variable, VarDataType::Integer, ValueKind::Float) == Ok::<ValueKind, Seq<char>>(ValueKind::Integer),
        spec_coerce_kind(ItemType::Variable, VarDataType::Float, ValueKind::Integer) == Ok::<ValueKind, Seq<char>>(ValueKind::Float),
        spec_coerce_kind(i, d, k) matches Ok(s) ==> {
            &&& i == ItemType::Variable
            &&& (s == ValueKind::Integer <==> d == VarDataType::Integer)
            &&& (s == ValueKind::Float <==> d == VarDataType::Float)
            &&& (s == ValueKind::Text <==> d == VarDataType::Text)
            &&& (s == ValueKind::Boolean <==> d == VarDataType::Boolean)
        },
        (k == ValueKind::Text || k == ValueKind::Boolean) ==> (spec_coerce_kind(i, d, k) matches Ok(s) ==> s == k),
{
}

/// Setting a value of the variable's own data type succeeds, under the variable's
/// normalized id, stored as that type.
pub proof fn law_set_accepts_the_variables_own_type(var_id: Seq<char>, meta: ItemMeta, k: ValueKind)
    requires
        meta.i_type == item_type_code(ItemType::Variable),
        meta.var_d_type == Some(
            match k {
                ValueKind::Integer => 1i32,
                ValueKind::Float => 2i32,
                ValueKind::Text => 3i32,
                ValueKind::Boolean => 4i32,
            },
        ),
    ensures
        spec_plan_set(var_id, Some(meta), Some(Some(k))) == Ok::<(Seq<char>, ValueKind), Seq<char>>(
            (spec_normalize_path(var_id, false), k),
        ),
{
}

/// The folders an add creates are exactly the ancestors reported absent: the entry of
/// every absent ancestor is planned, and every planned entry is that of an absent one.
pub proof fn law_missing_ancestors_are_the_absent_ones(anc: Seq<(Seq<char>, Seq<char>)>, present: Seq<bool>)
    requires
        present.len() == anc.len(),
    ensures
        forall|j: int|
            0 <= j < anc.len() && !present[j] ==> missing_ancestors(anc, present).contains(
                (child_key(#[trigger] anc[j].0, anc[j].1), anc[j].1),
            ),
        forall|x: (Seq<char>, Seq<char>)|
            #[trigger] missing_ancestors(anc, present).contains(x) ==> exists|j: int|
                0 <= j < anc.len() && !present[j] && x == (child_key(#[trigger] anc[j].0, anc[j].1), anc[j].1),
        missing_ancestors(anc, present).len() <= anc.len(),
    decreases anc.len(),
{
    let r = missing_ancestors(anc, present);
    if anc.len() > 0 {
        let n = anc.len() - 1;
        let da = anc.drop_last();
        let dp = present.take(n);
        law_missing_ancestors_are_the_absent_ones(da, dp);
        let r0 = missing_ancestors(da, dp);
        assert forall|j: int| 0 <= j < anc.len() && !present[j] implies r.contains(
            (child_key(#[trigger] anc[j].0, anc[j].1), anc[j].1),
        ) by {
            if j < n {
                assert(da[j] == anc[j]);
                assert(dp[j] == present[j]);
                let e = (child_key(da[j].0, da[j].1), da[j].1);
                assert(r0.contains(e));
                let k = choose|k: int| 0 <= k < r0.len() && r0[k] == e;
                if !present[n] {
                    assert(r[k] == r0[k]);
                }
            } else {
                assert(anc.last() == anc[j]);
                assert(r[r.len() - 1] == (child_key(anc[j].0, anc[j].1), anc[j].1));
            }
        }
        assert forall|x: (Seq<char>, Seq<char>)| #[trigger] r.contains(x) implies exists|j: int|
            0 <= j < anc.len() && !present[j] && x == (child_key(#[trigger] anc[j].0, anc[j].1), anc[j].1) by {
            let k = choose|k: int| 0 <= k < r.len() && r[k] == x;
            if k < r0.len() {
                assert(r[k] == r0[k]);
                assert(r0.contains(x));
                let j = choose|j: int|
                    0 <= j < da.len() && !dp[j] && x == (child_key(#[trigger] da[j].0, da[j].1), da[j].1);
                assert(da[j] == anc[j] && dp[j] == present[j]);
            } else {
                assert(anc.last() == anc[n]);
                assert(x == (child_key(anc[n].0, anc[n].1), anc[n].1));
            }
        }
    }
}

/// An add plan creates a folder entry for every ancestor reported absent, under the
/// ancestor's own key.
pub proof fn law_add_creates_absent_ancestors(
    plan: AddPlan,
    parent_path: Seq<char>,
    items: Seq<ItemMeta>,
    anc: Seq<(Seq<char>, Seq<char>)>,
    present: Seq<bool>,
)
    requires
        present.len() == anc.len(),
        is_add_plan(plan, parent_path, items, missing_ancestors(anc, present)),
    ensures
        forall|j: int|
            0 <= j < anc.len() && !present[j] ==> exists|k: int|
                0 <= k < plan.inserts@.len() && (#[trigger] plan.inserts@[k]).0@ == child_key(anc[j].0, anc[j].1)
                    && plan.inserts@[k].1.name@ == anc[j].1 && plan.inserts@[k].1.i_type == item_type_code(
                    ItemType::Folder,
                ),
{
    let m = missing_ancestors(anc, present);
    law_missing_ancestors_are_the_absent_ones(anc, present);
    assert forall|j: int| 0 <= j < anc.len() && !present[j] implies exists|k: int|
        0 <= k < plan.inserts@.len() && (#[trigger] plan.inserts@[k]).0@ == child_key(anc[j].0, anc[j].1)
            && plan.inserts@[k].1.name@ == anc[j].1 && plan.inserts@[k].1.i_type == item_type_code(
            ItemType::Folder,
        ) by {
        let e = (child_key(anc[j].0, anc[j].1), anc[j].1);
        assert(m.contains(e));
        let k = choose|k: int| 0 <= k < m.len() && m[k] == e;
        assert(plan.inserts@[k].0@ == m[k].0);
    }
}

/// A listing reports as folders exactly the folder entries and as variables exactly the
/// typed variable entries: each reported folder or variable comes from an entry of that
/// kind, every such entry is reported, and there are as many folders as folder entries.
pub proof fn law_listing_reports_each_kind(path: Seq<char>, entries: Seq<ItemMeta>)
    ensures
        listed_folders(path, entries).len() == items_of_kind(entries, item_type_code(ItemType::Folder)).len(),
        forall|x: (Seq<char>, Seq<char>)|
            #[trigger] listed_folders(path, entries).contains(x) ==> exists|j: int|
                0 <= j < entries.len() && (#[trigger] entries[j]).i_type == item_type_code(ItemType::Folder) && x == (
                    listed_id(path, entries[j].name@),
                    entries[j].name@,
                ),
        forall|j: int|
            0 <= j < entries.len() && (#[trigger] entries[j]).i_type == item_type_code(ItemType::Folder) ==> listed_folders(
                path,
                entries,
            ).contains((listed_id(path, entries[j].name@), entries[j].name@)),
        forall|x: (Seq<char>, Seq<char>, i32)|
            #[trigger] listed_variables(path, entries).contains(x) ==> exists|j: int|
                0 <= j < entries.len() && (#[trigger] entries[j]).i_type == item_type_code(ItemType::Variable)
                    && entries[j].var_d_type == Some(x.2) && x.0 == listed_id(path, entries[j].name@) && x.1
                    == entries[j].name@,
    decreases entries.len(),
{
    if entries.len() > 0 {
        let d = entries.drop_last();
        let n = entries.len() - 1;
        law_listing_reports_each_kind(path, d);
        let f0 = listed_folders(path, d);
        let f = listed_folders(path, entries);
        let v0 = listed_variables(path, d);
        let v = listed_variables(path, entries);
        assert(entries.last() == entries[n]);
        assert forall|x: (Seq<char>, Seq<char>)| #[trigger] f.contains(x) implies exists|j: int|
            0 <= j < entries.len() && (#[trigger] entries[j]).i_type == item_type_code(ItemType::Folder) && x == (
                listed_id(path, entries[j].name@),
                entries[j].name@,
            ) by {
            let k = choose|k: int| 0 <= k < f.len() && f[k] == x;
            if k < f0.len() {
                assert(f[k] == f0[k]);
                assert(f0.contains(x));
                let j = choose|j: int|
                    0 <= j < d.len() && (#[trigger] d[j]).i_type == item_type_code(ItemType::Folder) && x == (
                        listed_id(path, d[j].name@),
                        d[j].name@,
                    );
                assert(d[j] == entries[j]);
            }
        }
        assert forall|j: int|
            0 <= j < entries.len() && (#[trigger] entries[j]).i_type == item_type_code(ItemType::Folder) implies f.contains(
            (listed_id(path, entries[j].name@), entries[j].name@),
        ) by {
            if j < n {
                assert(d[j] == entries[j]);
                let e = (listed_id(path, entries[j].name@), entries[j].name@);
                assert(f0.contains(e));
                let k = choose|k: int| 0 <= k < f0.len() && f0[k] == e;
                if entries[n].i_type == item_type_code(ItemType::Folder) {
                    assert(f[k] == f0[k]);
                }
            } else {
                assert(f[f.len() - 1] == (listed_id(path, entries[j].name@), entries[j].name@));
            }
        }
        assert forall|x: (Seq<char>, Seq<char>, i32)| #[trigger] v.contains(x) implies exists|j: int|
            0 <= j < entries.len() && (#[trigger] entries[j]).i_type == item_type_code(ItemType::Variable)
                && entries[j].var_d_type == Some(x.2) && x.0 == listed_id(path, entries[j].name@) && x.1
                == entries[j].name@ by {
            let k = choose|k: int| 0 <= k < v.len() && v[k] == x;
            if k < v0.len() {
                assert(v[k] == v0[k]);
                assert(v0.contains(x));
                let j = choose|j: int|
                    0 <= j < d.len() && (#[trigger] d[j]).i_type == item_type_code(ItemType::Variable)
                        && d[j].var_d_type == Some(x.2) && x.0 == listed_id(path, d[j].name@) && x.1 == d[j].name@;
                assert(d[j] == entries[j]);
            }
        }
    }
}

} // verus!
