//! The views service over its table of rows: each operation takes the current time, and
//! a new view a random identifier, then applies the table rules of `views`.
use vstd::prelude::*;
use vstd::view::View as _;

use crate::fresh::{current_ts, is_v4_text, random_uuid};
use crate::view_list::{is_listing, list_views_page_in};
use crate::views::{
    create_outcome, create_view_at, delete_outcome, delete_view_at, ensure_initialized_at,
    get_entry_point_in, get_view_in, is_latest_entry, root_view, row_of, set_entry_outcome,
    set_entry_point_at, table_wf, update_outcome, update_view_at, View, ViewInput,
    ViewListQuery, ViewManagerError, ViewPage,
};

verus! {

/// The views of the service, as rows loaded from and written back to storage.
pub struct ViewManager {
    rows: Vec<View>,
}

impl vstd::view::View for ViewManager {
    type V = Seq<View>;

    closed spec fn view(&self) -> Seq<View> {
        self.rows@
    }
}

impl ViewManager {
    /// A manager over `rows`.
    pub fn new(rows: Vec<View>) -> (m: ViewManager)
        ensures
            m@ == rows@,
    {
        ViewManager { rows }
    }

    /// The rows as they stand.
    pub fn rows(&self) -> (r: &Vec<View>)
        ensures
            r@ == self@,
    {
        &self.rows
    }

    /// Gives an empty table its root view, created now with a random id; leaves any
    /// other table as it is.
    pub fn ensure_initialized(&mut self)
        ensures
            old(self)@.len() == 0 ==> final(self)@.len() == 1 && root_view(
                final(self)@[0].id@,
                final(self)@[0].created_at,
                final(self)@[0],
            ),
            old(self)@.len() > 0 ==> final(self)@ == old(self)@,
            old(self)@.len() == 0 || table_wf(old(self)@) ==> table_wf(final(self)@),
    {
        if self.rows.len() == 0 {
            let now = current_ts();
            let id = random_uuid();
            ensure_initialized_at(&mut self.rows, id, now);
        }
    }

    /// The page of views that `query` asks for (see `is_listing`).
    pub fn list_views_page(&self, query: ViewListQuery) -> (page: ViewPage)
        ensures
            is_listing(self@, query, page),
    {
        list_views_page_in(&self.rows, &query)
    }

    /// The view with id `id`, if any.
    pub fn get_view(&self, id: &str) -> (r: Option<View>)
        ensures
            row_of(self@, id@) < 0 ==> r is None,
            row_of(self@, id@) >= 0 ==> r == Some(self@[row_of(self@, id@)]),
    {
        get_view_in(&self.rows, id)
    }

    /// The entry-point view updated last, if any; in a well-formed table, the one entry
    /// point.
    pub fn get_entry_point(&self) -> (r: Option<View>)
        ensures
            match r {
                Some(v) => exists|k: int| is_latest_entry(self@, k) && v == self@[k],
                None => forall|j: int| 0 <= j < self@.len() ==> !(#[trigger] self@[j]).is_entry_point,
            },
            table_wf(self@) ==> (r matches Some(v) && v.is_entry_point),
    {
        get_entry_point_in(&self.rows)
    }

    /// Creates a view from `input` with a random id, stamped now (see `create_outcome`).
    pub fn create_view(&mut self, input: ViewInput) -> (res: Result<View, ViewManagerError>)
        ensures
            exists|id: Seq<char>, now: i64|
                #![trigger create_outcome(old(self)@, input, id, now, res, final(self)@)]
                is_v4_text(id) && now >= 0 && create_outcome(old(self)@, input, id, now, res, final(self)@),
            table_wf(old(self)@) && (res matches Ok(v) ==> row_of(old(self)@, v.id@) == -1) ==> table_wf(
                final(self)@,
            ),
    {
        let now = current_ts();
        let id = random_uuid();
        let ghost idv = id@;
        let res = create_view_at(&mut self.rows, input, id, now);
        proof {
            assert(create_outcome(old(self)@, input, idv, now, res, self@));
        }
        res
    }

    /// Updates view `id` from `input`, stamped now (see `update_outcome`).
    pub fn update_view(&mut self, id: &str, input: ViewInput) -> (res: Result<View, ViewManagerError>)
        ensures
            exists|now: i64|
                #![trigger update_outcome(old(self)@, id@, input, now, res, final(self)@)]
                now >= 0 && update_outcome(old(self)@, id@, input, now, res, final(self)@),
            table_wf(old(self)@) ==> table_wf(final(self)@),
    {
        let now = current_ts();
        let res = update_view_at(&mut self.rows, id, input, now);
        proof {
            assert(update_outcome(old(self)@, id@, input, now, res, self@));
        }
        res
    }

    /// Deletes view `id`, handing the entry-point mark on when it held it (see
    /// `delete_outcome`).
    pub fn delete_view(&mut self, id: &str) -> (res: Result<(), ViewManagerError>)
        ensures
            exists|now: i64|
                #![trigger delete_outcome(old(self)@, id@, now, res, final(self)@)]
                now >= 0 && delete_outcome(old(self)@, id@, now, res, final(self)@),
            table_wf(old(self)@) ==> table_wf(final(self)@),
    {
        let now = current_ts();
        let res = delete_view_at(&mut self.rows, id, now);
        proof {
            assert(delete_outcome(old(self)@, id@, now, res, self@));
        }
        res
    }

    /// Makes view `id` the one entry point (see `set_entry_outcome`).
    pub fn set_entry_point(&mut self, id: &str) -> (res: Result<View, ViewManagerError>)
        ensures
            exists|now: i64|
                #![trigger set_entry_outcome(old(self)@, id@, now, res, final(self)@)]
                now >= 0 && set_entry_outcome(old(self)@, id@, now, res, final(self)@),
            table_wf(old(self)@) ==> table_wf(final(self)@),
    {
        let now = current_ts();
        let res = set_entry_point_at(&mut self.rows, id, now);
        proof {
            assert(set_entry_outcome(old(self)@, id@, now, res, self@));
        }
        res
    }
}

} // verus!
