//! What reading the views table gives back after each change.
use vstd::prelude::*;
use vstd::view::View as _;

use crate::text::trimmed;
use crate::views::{
    create_outcome, delete_outcome, is_latest_entry, row_of, set_entry_outcome, table_wf,
    update_outcome, View, ViewManagerError,
};

verus! {

/// Rows of `a` and `b` carry the same ids at the same places.
spec fn same_ids(a: Seq<View>, b: Seq<View>) -> bool {
    &&& a.len() == b.len()
    &&& forall|j: int| 0 <= j < a.len() ==> (#[trigger] a[j]).id@ == b[j].id@
}

proof fn lemma_row_of_bounds(t: Seq<View>, id: Seq<char>)
    ensures
        -1 <= row_of(t, id) < t.len(),
        row_of(t, id) >= 0 ==> t[row_of(t, id)].id@ == id,
        forall|j: int| row_of(t, id) < j < t.len() ==> t[j].id@ != id,
    decreases t.len(),
{
    if t.len() > 0 && t.last().id@ != id {
        lemma_row_of_bounds(t.drop_last(), id);
        assert forall|j: int| row_of(t, id) < j < t.len() implies t[j].id@ != id by {
            if j < t.len() - 1 {
                assert(t[j] == t.drop_last()[j]);
            }
        }
    }
}

/// Where a row is found depends on the ids alone.
proof fn lemma_row_of_same_ids(a: Seq<View>, b: Seq<View>, id: Seq<char>)
    requires
        same_ids(a, b),
    ensures
        row_of(a, id) == row_of(b, id),
    decreases a.len(),
{
    if a.len() > 0 {
        assert(a.last().id@ == b.last().id@);
        assert(same_ids(a.drop_last(), b.drop_last()));
        lemma_row_of_same_ids(a.drop_last(), b.drop_last(), id);
    }
}

/// A row whose id no row carries is not found.
proof fn lemma_row_of_absent(t: Seq<View>, id: Seq<char>)
    requires
        forall|j: int| 0 <= j < t.len() ==> (#[trigger] t[j]).id@ != id,
    ensures
        row_of(t, id) == -1,
{
    lemma_row_of_bounds(t, id);
}

/// A view that was just created is found under its id, as it was returned.
pub proof fn law_created_view_is_read_back(
    t: Seq<View>,
    input: crate::views::ViewInput,
    id: Seq<char>,
    now: i64,
    v: View,
    t2: Seq<View>,
)
    requires
        create_outcome(t, input, id, now, Ok::<View, ViewManagerError>(v), t2),
    ensures
        row_of(t2, id) >= 0,
        t2[row_of(t2, id)] == v,
        v.id@ == id,
{
    assert(t2.last() == v);
}

/// A view created as the entry point is the one entry point afterwards, and it is the
/// view that reading the entry point gives back.
pub proof fn law_created_entry_point_is_read_back(
    t: Seq<View>,
    input: crate::views::ViewInput,
    id: Seq<char>,
    now: i64,
    v: View,
    t2: Seq<View>,
)
    requires
        create_outcome(t, input, id, now, Ok::<View, ViewManagerError>(v), t2),
        input.is_entry_point == Some(true),
    ensures
        forall|j: int| 0 <= j < t2.len() ==> ((#[trigger] t2[j]).is_entry_point <==> j == t2.len() - 1),
        forall|k: int| #[trigger] is_latest_entry(t2, k) ==> t2[k] == v,
        v.is_entry_point,
{
    assert(t2.last() == v);
    assert forall|k: int| #[trigger] is_latest_entry(t2, k) implies t2[k] == v by {
        assert(t2[k].is_entry_point);
    }
}

/// A view that was just updated is found under its id, as it was returned.
pub proof fn law_updated_view_is_read_back(
    t: Seq<View>,
    id: Seq<char>,
    input: crate::views::ViewInput,
    now: i64,
    v: View,
    t2: Seq<View>,
)
    requires
        update_outcome(t, id, input, now, Ok::<View, ViewManagerError>(v), t2),
    ensures
        row_of(t2, id) == row_of(t, id),
        row_of(t2, id) >= 0,
        t2[row_of(t2, id)] == v,
{
    let r = row_of(t, id);
    lemma_row_of_bounds(t, id);
    assert(same_ids(t, t2));
    lemma_row_of_same_ids(t, t2, id);
}

/// A view that was deleted is no longer found, and one view fewer is left.
pub proof fn law_deleted_view_is_gone(t: Seq<View>, id: Seq<char>, now: i64, t2: Seq<View>)
    requires
        table_wf(t),
        delete_outcome(t, id, now, Ok::<(), ViewManagerError>(()), t2),
    ensures
        row_of(t2, id) == -1,
        t2.len() == t.len() - 1,
{
    let r = row_of(t, id);
    lemma_row_of_bounds(t, id);
    let rest = t.remove(r);
    assert forall|j: int| 0 <= j < rest.len() implies (#[trigger] rest[j]).id@ != id by {
        if j < r {
            assert(rest[j] == t[j]);
        } else {
            assert(rest[j] == t[j + 1]);
        }
    }
    if t[r].is_entry_point {
        let k = choose|k: int| crate::views::is_earliest(rest, k) && t2 == crate::views::promoted(rest, k, now);
        assert(same_ids(rest, t2));
        lemma_row_of_same_ids(rest, t2, id);
    }
    lemma_row_of_absent(rest, id);
}

/// After a view is made the entry point, it is the one entry point, and it is the view
/// that reading the entry point gives back.
pub proof fn law_set_entry_point_is_read_back(t: Seq<View>, id: Seq<char>, now: i64, v: View, t2: Seq<View>)
    requires
        table_wf(t),
        set_entry_outcome(t, id, now, Ok::<View, ViewManagerError>(v), t2),
    ensures
        v.id@ == id,
        v.is_entry_point,
        forall|j: int| 0 <= j < t2.len() ==> ((#[trigger] t2[j]).is_entry_point <==> t2[j].id@ == id),
        forall|k: int| #[trigger] is_latest_entry(t2, k) ==> t2[k] == v,
{
    let r = row_of(t, id);
    lemma_row_of_bounds(t, id);
    assert(t2[r].id@ == id);
    assert forall|k: int| #[trigger] is_latest_entry(t2, k) implies t2[k] == v by {
        assert(t2[k].is_entry_point);
        assert(t2[k].id@ == t[k].id@);
        if k != r {
            assert(t[k].id@ != t[r].id@);
        }
    }
}


/// An update writes what it was given: the updated view has the trimmed name and
/// description and the drawing (`canvas_json`) of the input, keeps its id and creation
/// time, is stamped with the update's time, takes the entry-point mark the input asks
/// for, and is the row stored under its id.
pub proof fn law_update_writes_the_input(
    t: Seq<View>,
    id: Seq<char>,
    input: crate::views::ViewInput,
    now: i64,
    v: View,
    t2: Seq<View>,
)
    requires
        update_outcome(t, id, input, now, Ok::<View, ViewManagerError>(v), t2),
    ensures
        v.name@ == trimmed(input.name@),
        v.description@ == trimmed(input.description@),
        v.canvas_json@ == input.canvas_json@,
        v.id@ == id,
        row_of(t, id) >= 0 && v.created_at == t[row_of(t, id)].created_at,
        v.updated_at == now,
        input.is_entry_point matches Some(b) ==> v.is_entry_point == b,
        row_of(t2, id) >= 0 && t2[row_of(t2, id)] == v,
{
    law_updated_view_is_read_back(t, id, input, now, v, t2);
    lemma_row_of_bounds(t, id);
}

/// A creation writes what it was given: the new view has the trimmed name and
/// description and the drawing of the input, the entry-point mark it asks for, and the
/// creation's time as both its creation and update time.
pub proof fn law_create_writes_the_input(
    t: Seq<View>,
    input: crate::views::ViewInput,
    id: Seq<char>,
    now: i64,
    v: View,
    t2: Seq<View>,
)
    requires
        create_outcome(t, input, id, now, Ok::<View, ViewManagerError>(v), t2),
    ensures
        v.name@ == trimmed(input.name@),
        v.description@ == trimmed(input.description@),
        v.canvas_json@ == input.canvas_json@,
        v.id@ == id,
        v.is_entry_point == (input.is_entry_point == Some(true)),
        v.created_at == now && v.updated_at == now,
{
}

} // verus!
