//! Canvas views: input validation, paging parameters, and the rules that keep exactly
//! one view marked as the entry point.
use vstd::prelude::*;
use vstd::view::View as _;

use crate::text::{ascii_lower_seq, chars_eq, chars_of, lower_chars, string_of, trim_chars, trimmed};

verus! {

/// The canvas of a new view when none is given.
pub const EMPTY_GRAPH_JSON: &'static str = "{\"version\":1,\"nodes\":[],\"edges\":[],\"viewport\":{\"x\":0,\"y\":0,\"zoom\":1}}";

/// A stored view.
#[derive(Clone, Debug)]
pub struct View {
    pub id: String,
    pub name: String,
    pub description: String,
    pub is_entry_point: bool,
    pub canvas_json: String,
    pub created_at: i64,
    pub updated_at: i64,
}

impl View {
    /// An identical copy.
    pub fn copy(&self) -> (r: View)
        ensures
            r == *self,
    {
        View {
            id: self.id.clone(),
            name: self.name.clone(),
            description: self.description.clone(),
            is_entry_point: self.is_entry_point,
            canvas_json: self.canvas_json.clone(),
            created_at: self.created_at,
            updated_at: self.updated_at,
        }
    }
}

/// What a client sends to create or update a view.
#[derive(Clone, Debug)]
pub struct ViewInput {
    pub name: String,
    pub description: String,
    pub is_entry_point: Option<bool>,
    pub canvas_json: String,
}

/// The field views are sorted by.
#[derive(Clone, Copy, Debug, PartialEq, Eq, Structural)]
pub enum ViewSortBy {
    Name,
    UpdatedAt,
    IsEntryPoint,
}

/// Ascending or descending order.
#[derive(Clone, Copy, Debug, PartialEq, Eq, Structural)]
pub enum SortDirection {
    Asc,
    Desc,
}

/// One page of views.
#[derive(Clone, Debug)]
pub struct ViewPage {
    pub items: Vec<View>,
    pub total: u64,
    pub page: u64,
    pub page_size: u64,
    pub sort_by: ViewSortBy,
    pub sort_direction: SortDirection,
}

/// The query of a page of views.
#[derive(Clone, Debug)]
pub struct ViewListQuery {
    pub page: u64,
    pub page_size: u64,
    pub sort_by: ViewSortBy,
    pub sort_direction: SortDirection,
    pub search: Option<String>,
}

/// Why a view operation was refused.
#[derive(Clone, Debug)]
pub enum ViewManagerError {
    NotFound,
    DuplicateName(String),
    Validation(String),
    Database(String),
}

/// The canvas of a view created without one.
pub fn default_canvas_json() -> (s: String)
    ensures
        s@ == EMPTY_GRAPH_JSON@,
{
    EMPTY_GRAPH_JSON.to_owned()
}

/// The page shown when none is asked for.
pub fn default_page() -> (p: u64)
    ensures
        p == 1,
{
    1
}

/// The page size used when none is asked for.
pub fn default_page_size() -> (p: u64)
    ensures
        p == 10,
{
    10
}

/// The sort field used when none is asked for.
pub fn default_sort_by() -> (s: ViewSortBy)
    ensures
        s == ViewSortBy::UpdatedAt,
{
    ViewSortBy::UpdatedAt
}

/// The sort direction used when none is asked for.
pub fn default_sort_direction() -> (s: SortDirection)
    ensures
        s == SortDirection::Desc,
{
    SortDirection::Desc
}

/// A view name is kept without surrounding white space and must not be blank.
pub fn validate_name(name: &str) -> (res: Result<String, ViewManagerError>)
    ensures
        trimmed(name@).len() == 0 ==> (res matches Err(ViewManagerError::Validation(m)) && m@
            == "View name cannot be blank"@),
        trimmed(name@).len() > 0 ==> (res matches Ok(n) && n@ == trimmed(name@)),
{
    let v = chars_of(name);
    let t = trim_chars(v.as_slice());
    if t.len() == 0 {
        return Err(ViewManagerError::Validation("View name cannot be blank".to_owned()));
    }
    Ok(string_of(t.as_slice()))
}

/// A description is kept without surrounding white space.
pub fn validate_description(description: &str) -> (s: String)
    ensures
        s@ == trimmed(description@),
{
    let v = chars_of(description);
    let t = trim_chars(v.as_slice());
    string_of(t.as_slice())
}

/// Whether `s` is a JSON document, as `serde_json` reads one into a `serde_json::Value`.
pub uninterp spec fn is_json_document(s: Seq<char>) -> bool;

/// Calls `serde_json::from_str::<serde_json::Value>` and reports whether it succeeded.
/// The contract only names that outcome: it depends on the text alone.
#[verifier::external_body]
fn parses_as_json(s: &str) -> (ok: bool)
    ensures
        ok == is_json_document(s@),
{
    serde_json::from_str::<serde_json::Value>(s).is_ok()
}

/// A canvas must be a JSON document.
pub fn validate_canvas_json(canvas_json: &str) -> (res: Result<(), ViewManagerError>)
    ensures
        is_json_document(canvas_json@) ==> res is Ok,
        !is_json_document(canvas_json@) ==> (res matches Err(ViewManagerError::Validation(m))
            && m@ == "canvas_json must be valid JSON"@),
{
    if parses_as_json(canvas_json) {
        Ok(())
    } else {
        Err(ViewManagerError::Validation("canvas_json must be valid JSON".to_owned()))
    }
}

/// The paging of a query: the page size kept between 1 and 100, the page number at
/// least 1, and the zero-based index of that page.
pub struct PageParams {
    pub page_size: u64,
    pub page_number: u64,
    pub page_index: u64,
}

/// The paging of `query`.
pub fn page_params(query: &ViewListQuery) -> (p: PageParams)
    ensures
        p.page_size == (if query.page_size < 1 {
            1
        } else if query.page_size > 100 {
            100
        } else {
            query.page_size
        }),
        p.page_number == (if query.page < 1 {
            1
        } else {
            query.page
        }),
        p.page_index == p.page_number - 1,
{
    let page_size = if query.page_size < 1 {
        1
    } else if query.page_size > 100 {
        100
    } else {
        query.page_size
    };
    let page_number = if query.page < 1 {
        1
    } else {
        query.page
    };
    PageParams { page_size, page_number, page_index: page_number - 1 }
}

/// The search term of `query`: its text without surrounding white space, when that is
/// not empty.
pub fn search_term(query: &ViewListQuery) -> (s: Option<String>)
    ensures
        match query.search {
            Some(q) => match s {
                Some(t) => t@ == trimmed(q@) && t@.len() > 0,
                None => trimmed(q@).len() == 0,
            },
            None => s is None,
        },
{
    match &query.search {
        Some(q) => {
            let v = chars_of(q.as_str());
            let t = trim_chars(v.as_slice());
            if t.len() == 0 {
                None
            } else {
                Some(string_of(t.as_slice()))
            }
        },
        None => None,
    }
}

/// The page returned for `query`, holding `items` out of `total`.
pub fn make_page(items: Vec<View>, total: u64, query: &ViewListQuery) -> (page: ViewPage)
    ensures
        page.items@ == items@,
        page.total == total,
        page.page == (if query.page < 1 {
            1
        } else {
            query.page
        }),
        page.page_size == (if query.page_size < 1 {
            1
        } else if query.page_size > 100 {
            100
        } else {
            query.page_size
        }),
        page.sort_by == query.sort_by,
        page.sort_direction == query.sort_direction,
{
    let p = page_params(query);
    ViewPage {
        items,
        total,
        page: p.page_number,
        page_size: p.page_size,
        sort_by: query.sort_by,
        sort_direction: query.sort_direction,
    }
}

// ---------------------------------------------------------------------------------------
// The table of views and its rules.
// ---------------------------------------------------------------------------------------

/// Names compare without regard to ASCII case, as the table's NOCASE column does.
pub open spec fn same_name(a: Seq<char>, b: Seq<char>) -> bool {
    ascii_lower_seq(a) == ascii_lower_seq(b)
}

/// Whether exactly one row of `t` is the entry point.
pub open spec fn one_entry_point(t: Seq<View>) -> bool {
    exists|i: int|
        0 <= i < t.len() && #[trigger] t[i].is_entry_point && forall|j: int|
            0 <= j < t.len() && j != i ==> !(#[trigger] t[j].is_entry_point)
}

/// Well-formed table: at least one view, exactly one entry point, distinct ids, and
/// names distinct without regard to ASCII case.
pub open spec fn table_wf(t: Seq<View>) -> bool {
    &&& t.len() > 0
    &&& one_entry_point(t)
    &&& distinct_ids(t)
    &&& distinct_names(t)
}

/// No two rows share an id.
pub open spec fn distinct_ids(t: Seq<View>) -> bool {
    forall|i: int, j: int| 0 <= i < t.len() && 0 <= j < t.len() && i != j ==> #[trigger] t[i].id@ != #[trigger] t[j].id@
}

/// No two rows have names equal without regard to ASCII case.
pub open spec fn distinct_names(t: Seq<View>) -> bool {
    forall|i: int, j: int|
        0 <= i < t.len() && 0 <= j < t.len() && i != j ==> !same_name(#[trigger] t[i].name@, #[trigger] t[j].name@)
}

/// Rows of `b` carry the ids and names of the rows of `a` at the same place.
spec fn same_keys(a: Seq<View>, b: Seq<View>) -> bool {
    &&& a.len() == b.len()
    &&& forall|j: int| 0 <= j < a.len() ==> (#[trigger] b[j]).id@ == a[j].id@ && b[j].name@ == a[j].name@
}

/// Rows of `b` carry the entry marks of the rows of `a` at the same place.
spec fn same_marks(a: Seq<View>, b: Seq<View>) -> bool {
    &&& a.len() == b.len()
    &&& forall|j: int| 0 <= j < a.len() ==> (#[trigger] b[j]).is_entry_point == a[j].is_entry_point
}

proof fn lemma_same_keys(a: Seq<View>, b: Seq<View>)
    requires
        same_keys(a, b),
        distinct_ids(a),
        distinct_names(a),
    ensures
        distinct_ids(b),
        distinct_names(b),
{
    assert forall|i: int, j: int| 0 <= i < b.len() && 0 <= j < b.len() && i != j implies #[trigger] b[i].id@ != #[trigger] b[j].id@ by {
        assert(a[i].id@ != a[j].id@);
    }
    assert forall|i: int, j: int| 0 <= i < b.len() && 0 <= j < b.len() && i != j implies !same_name(#[trigger] b[i].name@, #[trigger] b[j].name@) by {
        assert(!same_name(a[i].name@, a[j].name@));
    }
}

proof fn lemma_same_marks(a: Seq<View>, b: Seq<View>)
    requires
        same_marks(a, b),
        one_entry_point(a),
    ensures
        one_entry_point(b),
{
    let w = choose|w: int|
        0 <= w < a.len() && #[trigger] a[w].is_entry_point && forall|j: int|
            0 <= j < a.len() && j != w ==> !(#[trigger] a[j].is_entry_point);
    assert(b[w].is_entry_point);
    assert forall|j: int| 0 <= j < b.len() && j != w implies !(#[trigger] b[j].is_entry_point) by {
        assert(!a[j].is_entry_point);
    }
}

proof fn lemma_sole_entry(b: Seq<View>, w: int)
    requires
        0 <= w < b.len(),
        b[w].is_entry_point,
        forall|j: int| 0 <= j < b.len() && j != w ==> !(#[trigger] b[j].is_entry_point),
    ensures
        one_entry_point(b),
{
    assert(b[w].is_entry_point);
}

proof fn lemma_entry_unique(t: Seq<View>, i: int)
    requires
        one_entry_point(t),
        0 <= i < t.len(),
        t[i].is_entry_point,
    ensures
        forall|j: int| 0 <= j < t.len() && j != i ==> !(#[trigger] t[j].is_entry_point),
{
    let w = choose|w: int|
        0 <= w < t.len() && #[trigger] t[w].is_entry_point && forall|j: int|
            0 <= j < t.len() && j != w ==> !(#[trigger] t[j].is_entry_point);
    assert(w == i);
}

proof fn lemma_push_keys(a: Seq<View>, v: View)
    requires
        distinct_ids(a),
        distinct_names(a),
        forall|j: int| 0 <= j < a.len() ==> (#[trigger] a[j]).id@ != v.id@,
        forall|j: int| 0 <= j < a.len() ==> !same_name((#[trigger] a[j]).name@, v.name@),
    ensures
        distinct_ids(a.push(v)),
        distinct_names(a.push(v)),
{
    let b = a.push(v);
    assert forall|i: int, j: int| 0 <= i < b.len() && 0 <= j < b.len() && i != j implies #[trigger] b[i].id@ != #[trigger] b[j].id@ by {
        if i < a.len() && j < a.len() {
            assert(a[i].id@ != a[j].id@);
        } else if i < a.len() {
            assert(a[i].id@ != v.id@);
        } else {
            assert(a[j].id@ != v.id@);
        }
    }
    assert forall|i: int, j: int| 0 <= i < b.len() && 0 <= j < b.len() && i != j implies !same_name(#[trigger] b[i].name@, #[trigger] b[j].name@) by {
        if i < a.len() && j < a.len() {
            assert(!same_name(a[i].name@, a[j].name@));
        } else if i < a.len() {
            assert(!same_name(a[i].name@, v.name@));
        } else {
            assert(!same_name(a[j].name@, v.name@));
        }
    }
}

/// Index of the row with id `id`, or -1.
pub open spec fn row_of(t: Seq<View>, id: Seq<char>) -> int
    decreases t.len(),
{
    if t.len() == 0 {
        -1
    } else if t.last().id@ == id {
        t.len() - 1
    } else {
        row_of(t.drop_last(), id)
    }
}

proof fn lemma_row_of(t: Seq<View>, id: Seq<char>)
    ensures
        -1 <= row_of(t, id) < t.len(),
        row_of(t, id) >= 0 ==> t[row_of(t, id)].id@ == id,
        row_of(t, id) == -1 ==> forall|j: int| 0 <= j < t.len() ==> t[j].id@ != id,
        forall|j: int| row_of(t, id) < j < t.len() ==> t[j].id@ != id,
    decreases t.len(),
{
    if t.len() > 0 && t.last().id@ != id {
        lemma_row_of(t.drop_last(), id);
        assert forall|j: int| row_of(t, id) < j < t.len() implies t[j].id@ != id by {
            if j < t.len() - 1 {
                assert(t[j] == t.drop_last()[j]);
            }
        }
        if row_of(t, id) == -1 {
            assert forall|j: int| 0 <= j < t.len() implies t[j].id@ != id by {
                if j < t.len() - 1 {
                    assert(t[j] == t.drop_last()[j]);
                }
            }
        }
    }
}

fn find_row(table: &Vec<View>, id: &[char]) -> (r: Option<usize>)
    ensures
        match r {
            Some(i) => i < table@.len() && i as int == row_of(table@, id@),
            None => row_of(table@, id@) == -1,
        },
{
    proof {
        lemma_row_of(table@, id@);
    }
    let mut n = table.len();
    proof {
        assert(table@.take(table@.len() as int) =~= table@);
    }
    while n > 0
        invariant
            n <= table.len(),
            row_of(table@, id@) == row_of(table@.take(n as int), id@),
        decreases n,
    {
        proof {
            let t = table@.take(n as int);
            assert(t.last() == table@[n - 1]);
            assert(t.drop_last() =~= table@.take(n - 1));
        }
        let c = chars_of(table[n - 1].id.as_str());
        if chars_eq(c.as_slice(), id) {
            return Some(n - 1);
        }
        n -= 1;
    }
    proof {
        assert(table@.take(0) =~= Seq::<View>::empty());
    }
    None
}

/// Whether some row other than `skip` has a name equal to `name` without regard to case.
pub open spec fn name_taken(t: Seq<View>, name: Seq<char>, skip: int) -> bool {
    exists|j: int| 0 <= j < t.len() && j != skip && same_name(#[trigger] t[j].name@, name)
}

fn name_taken_exec(table: &Vec<View>, name: &[char], skip: Option<usize>) -> (r: bool)
    ensures
        r == name_taken(
            table@,
            name@,
            match skip {
                Some(s) => s as int,
                None => -1,
            },
        ),
{
    let ghost sk: int = match skip {
        Some(s) => s as int,
        None => -1,
    };
    let lowered = lower_chars(name);
    let mut j: usize = 0;
    while j < table.len()
        invariant
            j <= table.len(),
            lowered@ == ascii_lower_seq(name@),
            sk == (match skip {
                Some(s) => s as int,
                None => -1,
            }),
            forall|k: int| 0 <= k < j && k != sk ==> !same_name(#[trigger] table@[k].name@, name@),
        decreases table.len() - j,
    {
        let is_skipped = match skip {
            Some(s) => s == j,
            None => false,
        };
        if !is_skipped {
            let other = chars_of(table[j].name.as_str());
            let other_lower = lower_chars(other.as_slice());
            if chars_eq(other_lower.as_slice(), lowered.as_slice()) {
                proof {
                    assert(same_name(table@[j as int].name@, name@));
                }
                return true;
            }
        }
        j += 1;
    }
    false
}

/// The table after every entry point other than row `keep` is unmarked (stamped `now`).
pub open spec fn demote_others(t: Seq<View>, keep: int, now: i64) -> Seq<View> {
    Seq::new(
        t.len(),
        |j: int|
            if j != keep && t[j].is_entry_point {
                View { is_entry_point: false, updated_at: now, ..t[j] }
            } else {
                t[j]
            },
    )
}

fn demote_entry_points(table: &mut Vec<View>, keep: Option<usize>, now: i64)
    ensures
        final(table)@ == demote_others(
            old(table)@,
            match keep {
                Some(k) => k as int,
                None => -1,
            },
            now,
        ),
{
    let ghost start = table@;
    let ghost kp: int = match keep {
        Some(k) => k as int,
        None => -1,
    };
    let mut j: usize = 0;
    while j < table.len()
        invariant
            j <= table.len(),
            table@.len() == start.len(),
            kp == (match keep {
                Some(k) => k as int,
                None => -1,
            }),
            forall|k: int| 0 <= k < j ==> table@[k] == demote_others(start, kp, now)[k],
            forall|k: int| j <= k < table@.len() ==> table@[k] == start[k],
        decreases table.len() - j,
    {
        let is_kept = match keep {
            Some(k) => k == j,
            None => false,
        };
        if !is_kept && table[j].is_entry_point {
            let mut v = table[j].copy();
            v.is_entry_point = false;
            v.updated_at = now;
            table.set(j, v);
        }
        j += 1;
    }
    proof {
        assert(table@ =~= demote_others(start, kp, now));
    }
}

/// The row of a view created with `id` at time `now` from validated fields.
pub open spec fn new_view(
    id: Seq<char>,
    name: Seq<char>,
    description: Seq<char>,
    entry: bool,
    canvas: Seq<char>,
    now: i64,
    v: View,
) -> bool {
    &&& v.id@ == id
    &&& v.name@ == name
    &&& v.description@ == description
    &&& v.is_entry_point == entry
    &&& v.canvas_json@ == canvas
    &&& v.created_at == now
    &&& v.updated_at == now
}

/// Why input is refused before any row is looked at, in the order of the checks.
pub open spec fn input_error(input: ViewInput) -> Option<Seq<char>> {
    if trimmed(input.name@).len() == 0 {
        Some("View name cannot be blank"@)
    } else if !is_json_document(input.canvas_json@) {
        Some("canvas_json must be valid JSON"@)
    } else {
        None
    }
}

fn check_input(input: &ViewInput) -> (res: Result<(String, String), ViewManagerError>)
    ensures
        match input_error(*input) {
            Some(m) => res matches Err(ViewManagerError::Validation(e)) && e@ == m,
            None => res matches Ok((n, d)) && n@ == trimmed(input.name@) && d@ == trimmed(
                input.description@,
            ),
        },
{
    let name = validate_name(input.name.as_str())?;
    let description = validate_description(input.description.as_str());
    validate_canvas_json(input.canvas_json.as_str())?;
    Ok((name, description))
}

/// Whether `res` is the validation error with message `m`.
pub open spec fn is_validation_error(res: Result<View, ViewManagerError>, m: Seq<char>) -> bool {
    match res {
        Err(ViewManagerError::Validation(e)) => e@ == m,
        _ => false,
    }
}

/// What creating a view does to table `t` (giving `t2` and `res`).
pub open spec fn create_outcome(
    t: Seq<View>,
    input: ViewInput,
    id: Seq<char>,
    now: i64,
    res: Result<View, ViewManagerError>,
    t2: Seq<View>,
) -> bool {
    match input_error(input) {
        Some(m) => is_validation_error(res, m) && t2 == t,
        None => {
            let name = trimmed(input.name@);
            let entry = input.is_entry_point == Some(true);
            if name_taken(t, name, -1) {
                &&& t2 == t
                &&& match res {
                    Err(ViewManagerError::DuplicateName(n)) => n@ == name,
                    _ => false,
                }
            } else {
                match res {
                    Ok(v) => {
                        &&& new_view(id, name, trimmed(input.description@), entry, input.canvas_json@, now, v)
                        &&& t2 == (if entry {
                            demote_others(t, -1, now)
                        } else {
                            t
                        }).push(v)
                    },
                    Err(_) => false,
                }
            }
        },
    }
}

/// Creates a view with id `id` at time `now` (see `create_outcome`). A view asked to be
/// the entry point takes that mark from the others. Refused, leaving the table as it
/// is, for invalid input or a name already taken.
pub fn create_view_at(table: &mut Vec<View>, input: ViewInput, id: String, now: i64) -> (res: Result<View, ViewManagerError>)
    ensures
        create_outcome(old(table)@, input, id@, now, res, final(table)@),
        table_wf(old(table)@) && row_of(old(table)@, id@) == -1 ==> table_wf(final(table)@),
{
    let (name, description) = match check_input(&input) {
        Ok(p) => p,
        Err(e) => {
            return Err(e);
        },
    };
    let name_chars = chars_of(name.as_str());
    if name_taken_exec(table, name_chars.as_slice(), None) {
        return Err(ViewManagerError::DuplicateName(name));
    }
    let entry = match input.is_entry_point {
        Some(b) => b,
        None => false,
    };
    if entry {
        demote_entry_points(table, None, now);
    }
    let v = View {
        id,
        name,
        description,
        is_entry_point: entry,
        canvas_json: input.canvas_json,
        created_at: now,
        updated_at: now,
    };
    let ghost t1 = table@;
    table.push(v.copy());
    proof {
        let t0 = old(table)@;
        if table_wf(t0) && row_of(t0, v.id@) == -1 {
            lemma_row_of(t0, v.id@);
            assert(same_keys(t0, t1));
            lemma_same_keys(t0, t1);
            lemma_push_keys(t1, v);
            if entry {
                lemma_sole_entry(table@, t1.len() as int);
            } else {
                assert(same_marks(t0, t1));
                lemma_same_marks(t0, t1);
                let w = choose|w: int|
                    0 <= w < t1.len() && #[trigger] t1[w].is_entry_point && forall|j: int|
                        0 <= j < t1.len() && j != w ==> !(#[trigger] t1[j].is_entry_point);
                lemma_sole_entry(table@, w);
            }
        }
    }
    Ok(v)
}


/// The message that refuses to take the entry-point mark off a view.
pub open spec fn unset_entry_message() -> Seq<char> {
    "Cannot unset entry-point directly. Set another view as entry-point first."@
}

/// Whether `v` is row `old` after an update with validated fields, stamped `now`.
pub open spec fn updated_row(
    old: View,
    name: Seq<char>,
    description: Seq<char>,
    canvas: Seq<char>,
    entry: Option<bool>,
    now: i64,
    v: View,
) -> bool {
    &&& v.id == old.id
    &&& v.name@ == name
    &&& v.description@ == description
    &&& v.canvas_json@ == canvas
    &&& v.is_entry_point == match entry {
        Some(b) => b,
        None => old.is_entry_point,
    }
    &&& v.created_at == old.created_at
    &&& v.updated_at == now
}

/// What updating view `id` does to table `t` (giving `t2` and `res`).
pub open spec fn update_outcome(
    t: Seq<View>,
    id: Seq<char>,
    input: ViewInput,
    now: i64,
    res: Result<View, ViewManagerError>,
    t2: Seq<View>,
) -> bool {
    match input_error(input) {
        Some(m) => is_validation_error(res, m) && t2 == t,
        None => {
            let name = trimmed(input.name@);
            let r = row_of(t, id);
            if r < 0 {
                res matches Err(ViewManagerError::NotFound) && t2 == t
            } else if input.is_entry_point == Some(false) && t[r].is_entry_point {
                is_validation_error(res, unset_entry_message()) && t2 == t
            } else if name_taken(t, name, r) {
                &&& t2 == t
                &&& match res {
                    Err(ViewManagerError::DuplicateName(n)) => n@ == name,
                    _ => false,
                }
            } else {
                let base = if input.is_entry_point == Some(true) && !t[r].is_entry_point {
                    demote_others(t, r, now)
                } else {
                    t
                };
                match res {
                    Ok(v) => {
                        &&& updated_row(
                            t[r],
                            name,
                            trimmed(input.description@),
                            input.canvas_json@,
                            input.is_entry_point,
                            now,
                            v,
                        )
                        &&& t2 == base.update(r, v)
                    },
                    Err(_) => false,
                }
            }
        },
    }
}

/// Updates view `id` at time `now` (see `update_outcome`). Asking for the entry-point
/// mark takes it from the others; the mark cannot be taken off directly. Refused,
/// leaving the table as it is, for invalid input, an unknown id, or a name that
/// another view has.
pub fn update_view_at(table: &mut Vec<View>, id: &str, input: ViewInput, now: i64) -> (res: Result<View, ViewManagerError>)
    ensures
        update_outcome(old(table)@, id@, input, now, res, final(table)@),
        table_wf(old(table)@) ==> table_wf(final(table)@),
{
    let (name, description) = match check_input(&input) {
        Ok(p) => p,
        Err(e) => {
            return Err(e);
        },
    };
    let idc = chars_of(id);
    let r = match find_row(table, idc.as_slice()) {
        Some(r) => r,
        None => {
            return Err(ViewManagerError::NotFound);
        },
    };
    let existing_entry = table[r].is_entry_point;
    let wants = input.is_entry_point;
    let unsets = match wants {
        Some(b) => !b && existing_entry,
        None => false,
    };
    if unsets {
        return Err(
            ViewManagerError::Validation(
                "Cannot unset entry-point directly. Set another view as entry-point first.".to_owned(),
            ),
        );
    }
    let name_chars = chars_of(name.as_str());
    if name_taken_exec(table, name_chars.as_slice(), Some(r)) {
        return Err(ViewManagerError::DuplicateName(name));
    }
    let promotes = match wants {
        Some(b) => b && !existing_entry,
        None => false,
    };
    if promotes {
        demote_entry_points(table, Some(r), now);
    }
    let ghost t1 = table@;
    let new_entry = match wants {
        Some(b) => b,
        None => existing_entry,
    };
    let v = View {
        id: table[r].id.clone(),
        name,
        description,
        is_entry_point: new_entry,
        canvas_json: input.canvas_json,
        created_at: table[r].created_at,
        updated_at: now,
    };
    table.set(r, v.copy());
    proof {
        let t0 = old(table)@;
        assert(t1[r as int] == t0[r as int]);
        if table_wf(t0) {
            let t2 = table@;
            assert forall|j: int| 0 <= j < t0.len() && j != r implies !same_name(
                (#[trigger] t0[j]).name@,
                v.name@,
            ) by {
                if same_name(t0[j].name@, v.name@) {
                    assert(name_taken(t0, v.name@, r as int));
                }
            }
            assert forall|i: int, j: int| 0 <= i < t2.len() && 0 <= j < t2.len() && i != j implies #[trigger] t2[i].id@ != #[trigger] t2[j].id@ by {
                assert(t0[i].id@ != t0[j].id@);
            }
            assert forall|i: int, j: int| 0 <= i < t2.len() && 0 <= j < t2.len() && i != j implies !same_name(#[trigger] t2[i].name@, #[trigger] t2[j].name@) by {
                if i != r && j != r {
                    assert(!same_name(t0[i].name@, t0[j].name@));
                } else if i == r {
                    assert(!same_name(t0[j].name@, v.name@));
                } else {
                    assert(!same_name(t0[i].name@, v.name@));
                }
            }
            if promotes {
                lemma_sole_entry(t2, r as int);
            } else {
                assert(same_marks(t0, t2));
                lemma_same_marks(t0, t2);
            }
        }
    }
    Ok(v)
}

/// The first row of `s` with the smallest creation time.
pub open spec fn is_earliest(s: Seq<View>, k: int) -> bool {
    &&& 0 <= k < s.len()
    &&& forall|j: int| 0 <= j < s.len() ==> s[k].created_at <= (#[trigger] s[j]).created_at
    &&& forall|j: int| 0 <= j < k ==> s[k].created_at < (#[trigger] s[j]).created_at
}

/// Table `s` with row `k` marked as the entry point, stamped `now`.
pub open spec fn promoted(s: Seq<View>, k: int, now: i64) -> Seq<View> {
    s.update(k, View { is_entry_point: true, updated_at: now, ..s[k] })
}

/// What deleting view `id` does to table `t` (giving `t2` and `res`).
pub open spec fn delete_outcome(
    t: Seq<View>,
    id: Seq<char>,
    now: i64,
    res: Result<(), ViewManagerError>,
    t2: Seq<View>,
) -> bool {
    let r = row_of(t, id);
    if r < 0 {
        res matches Err(ViewManagerError::NotFound) && t2 == t
    } else if t.len() <= 1 {
        &&& t2 == t
        &&& match res {
            Err(ViewManagerError::Validation(m)) => m@ == "Cannot delete the last remaining view"@,
            _ => false,
        }
    } else {
        let rest = t.remove(r);
        &&& res is Ok
        &&& if t[r].is_entry_point {
            exists|k: int| is_earliest(rest, k) && t2 == promoted(rest, k, now)
        } else {
            t2 == rest
        }
    }
}

fn earliest_row(table: &Vec<View>) -> (k: usize)
    requires
        table.len() > 0,
    ensures
        is_earliest(table@, k as int),
{
    let mut best: usize = 0;
    let mut j: usize = 1;
    while j < table.len()
        invariant
            1 <= j <= table.len(),
            best < j,
            forall|i: int| 0 <= i < j ==> table@[best as int].created_at <= (#[trigger] table@[i]).created_at,
            forall|i: int| 0 <= i < best ==> table@[best as int].created_at < (#[trigger] table@[i]).created_at,
        decreases table.len() - j,
    {
        if table[j].created_at < table[best].created_at {
            best = j;
        }
        j += 1;
    }
    best
}

/// Deletes view `id`; when it was the entry point, the earliest created of the views
/// left takes the mark, stamped `now` (see `delete_outcome`). Refused, leaving the table
/// as it is, for an unknown id or the last view.
pub fn delete_view_at(table: &mut Vec<View>, id: &str, now: i64) -> (res: Result<(), ViewManagerError>)
    ensures
        delete_outcome(old(table)@, id@, now, res, final(table)@),
        table_wf(old(table)@) ==> table_wf(final(table)@),
{
    let idc = chars_of(id);
    let r = match find_row(table, idc.as_slice()) {
        Some(r) => r,
        None => {
            return Err(ViewManagerError::NotFound);
        },
    };
    if table.len() <= 1 {
        return Err(ViewManagerError::Validation("Cannot delete the last remaining view".to_owned()));
    }
    let target = table.remove(r);
    let ghost rest = table@;
    proof {
        let t0 = old(table)@;
        if table_wf(t0) {
            assert forall|i: int, j: int| 0 <= i < rest.len() && 0 <= j < rest.len() && i != j implies #[trigger] rest[i].id@ != #[trigger] rest[j].id@ by {
                let a = if i < r { i } else { i + 1 };
                let b = if j < r { j } else { j + 1 };
                assert(t0[a].id@ != t0[b].id@);
            }
            assert forall|i: int, j: int| 0 <= i < rest.len() && 0 <= j < rest.len() && i != j implies !same_name(#[trigger] rest[i].name@, #[trigger] rest[j].name@) by {
                let a = if i < r { i } else { i + 1 };
                let b = if j < r { j } else { j + 1 };
                assert(!same_name(t0[a].name@, t0[b].name@));
            }
        }
    }
    if target.is_entry_point {
        let k = earliest_row(table);
        let mut v = table[k].copy();
        v.is_entry_point = true;
        v.updated_at = now;
        table.set(k, v);
        proof {
            let t0 = old(table)@;
            assert(table@ == promoted(rest, k as int, now));
            if table_wf(t0) {
                lemma_entry_unique(t0, r as int);
                assert forall|j: int| 0 <= j < table@.len() && j != k implies !(#[trigger] table@[j].is_entry_point) by {
                    let a = if j < r { j } else { j + 1 };
                    assert(!t0[a].is_entry_point);
                }
                lemma_sole_entry(table@, k as int);
                assert(same_keys(rest, table@));
                lemma_same_keys(rest, table@);
            }
        }
    } else {
        proof {
            let t0 = old(table)@;
            if table_wf(t0) {
                let w = choose|w: int|
                    0 <= w < t0.len() && #[trigger] t0[w].is_entry_point && forall|j: int|
                        0 <= j < t0.len() && j != w ==> !(#[trigger] t0[j].is_entry_point);
                let w2 = if w < r { w } else { w - 1 };
                assert(rest[w2].is_entry_point);
                assert forall|j: int| 0 <= j < rest.len() && j != w2 implies !(#[trigger] rest[j].is_entry_point) by {
                    let a = if j < r { j } else { j + 1 };
                    assert(!t0[a].is_entry_point);
                }
                lemma_sole_entry(rest, w2);
            }
        }
    }
    Ok(())
}

/// Table `t` with the entry-point mark on exactly the rows whose id is `id`; rows whose
/// mark changes are stamped `now`.
pub open spec fn marked_only(t: Seq<View>, id: Seq<char>, now: i64) -> Seq<View> {
    Seq::new(
        t.len(),
        |j: int|
            if t[j].is_entry_point != (t[j].id@ == id) {
                View { is_entry_point: t[j].id@ == id, updated_at: now, ..t[j] }
            } else {
                t[j]
            },
    )
}

/// What making view `id` the entry point does to table `t` (giving `t2` and `res`).
pub open spec fn set_entry_outcome(
    t: Seq<View>,
    id: Seq<char>,
    now: i64,
    res: Result<View, ViewManagerError>,
    t2: Seq<View>,
) -> bool {
    if t.len() == 0 {
        is_validation_error(res, "At least one view must exist"@) && t2 == t
    } else if row_of(t, id) < 0 {
        res matches Err(ViewManagerError::NotFound) && t2 == t
    } else {
        t2 == marked_only(t, id, now) && res == Ok::<View, ViewManagerError>(t2[row_of(t, id)])
    }
}

/// Makes view `id` the one entry point, stamping `now` on each view whose mark changes
/// (see `set_entry_outcome`), and returns it. Refused, leaving the table as it is, for an
/// empty table or an unknown id.
pub fn set_entry_point_at(table: &mut Vec<View>, id: &str, now: i64) -> (res: Result<View, ViewManagerError>)
    ensures
        set_entry_outcome(old(table)@, id@, now, res, final(table)@),
        table_wf(old(table)@) ==> table_wf(final(table)@),
{
    if table.len() == 0 {
        return Err(ViewManagerError::Validation("At least one view must exist".to_owned()));
    }
    let idc = chars_of(id);
    let r = match find_row(table, idc.as_slice()) {
        Some(r) => r,
        None => {
            return Err(ViewManagerError::NotFound);
        },
    };
    let ghost start = table@;
    let mut j: usize = 0;
    while j < table.len()
        invariant
            j <= table.len(),
            table@.len() == start.len(),
            idc@ == id@,
            forall|k: int| 0 <= k < j ==> table@[k] == marked_only(start, id@, now)[k],
            forall|k: int| j <= k < table@.len() ==> table@[k] == start[k],
        decreases table.len() - j,
    {
        let c = chars_of(table[j].id.as_str());
        let should = chars_eq(c.as_slice(), idc.as_slice());
        if table[j].is_entry_point != should {
            let mut v = table[j].copy();
            v.is_entry_point = should;
            v.updated_at = now;
            table.set(j, v);
        }
        j += 1;
    }
    proof {
        assert(table@ =~= marked_only(start, id@, now));
        if table_wf(start) {
            lemma_row_of(start, id@);
            assert(same_keys(start, table@));
            lemma_same_keys(start, table@);
            assert forall|k: int| 0 <= k < table@.len() && k != r implies !(#[trigger] table@[k].is_entry_point) by {
                assert(start[k].id@ != start[r as int].id@);
            }
            lemma_sole_entry(table@, r as int);
        }
    }
    Ok(table[r].copy())
}

/// The view a fresh table starts with: named "Root View", empty description, the empty
/// canvas, and the entry-point mark.
pub open spec fn root_view(id: Seq<char>, now: i64, v: View) -> bool {
    new_view(id, "Root View"@, Seq::empty(), true, EMPTY_GRAPH_JSON@, now, v)
}

/// Gives an empty table its root view (id `id`, created `now`); any other table stays as
/// it is.
pub fn ensure_initialized_at(table: &mut Vec<View>, id: String, now: i64)
    ensures
        old(table)@.len() == 0 ==> final(table)@.len() == 1 && root_view(id@, now, final(table)@[0]),
        old(table)@.len() > 0 ==> final(table)@ == old(table)@,
        old(table)@.len() == 0 || table_wf(old(table)@) ==> table_wf(final(table)@),
{
    if table.len() == 0 {
        let v = View {
            id,
            name: "Root View".to_owned(),
            description: String::new(),
            is_entry_point: true,
            canvas_json: default_canvas_json(),
            created_at: now,
            updated_at: now,
        };
        table.push(v);
        proof {
            lemma_sole_entry(table@, 0);
        }
    }
}

/// The view with id `id`, if any.
pub fn get_view_in(table: &Vec<View>, id: &str) -> (r: Option<View>)
    ensures
        row_of(table@, id@) < 0 ==> r is None,
        row_of(table@, id@) >= 0 ==> r == Some(table@[row_of(table@, id@)]),
{
    let idc = chars_of(id);
    match find_row(table, idc.as_slice()) {
        Some(k) => Some(table[k].copy()),
        None => None,
    }
}

/// The first entry-point row of `t` among those updated last.
pub open spec fn is_latest_entry(t: Seq<View>, k: int) -> bool {
    &&& 0 <= k < t.len()
    &&& t[k].is_entry_point
    &&& forall|j: int| 0 <= j < t.len() && (#[trigger] t[j]).is_entry_point ==> t[j].updated_at <= t[k].updated_at
    &&& forall|j: int| 0 <= j < k && (#[trigger] t[j]).is_entry_point ==> t[j].updated_at < t[k].updated_at
}

/// The entry-point view updated last, if any view is marked; in a well-formed table,
/// the one entry point.
pub fn get_entry_point_in(table: &Vec<View>) -> (r: Option<View>)
    ensures
        match r {
            Some(v) => exists|k: int| is_latest_entry(table@, k) && v == table@[k],
            None => forall|j: int| 0 <= j < table@.len() ==> !(#[trigger] table@[j]).is_entry_point,
        },
        table_wf(table@) ==> (r matches Some(v) && v.is_entry_point),
{
    let mut best: Option<usize> = None;
    let mut j: usize = 0;
    while j < table.len()
        invariant
            j <= table.len(),
            match best {
                Some(b) => {
                    &&& b < j
                    &&& table@[b as int].is_entry_point
                    &&& forall|i: int| 0 <= i < j && (#[trigger] table@[i]).is_entry_point ==> table@[i].updated_at <= table@[b as int].updated_at
                    &&& forall|i: int| 0 <= i < b && (#[trigger] table@[i]).is_entry_point ==> table@[i].updated_at < table@[b as int].updated_at
                },
                None => forall|i: int| 0 <= i < j ==> !(#[trigger] table@[i]).is_entry_point,
            },
        decreases table.len() - j,
    {
        if table[j].is_entry_point {
            match best {
                Some(b) => {
                    if table[b].updated_at < table[j].updated_at {
                        best = Some(j);
                    }
                },
                None => {
                    best = Some(j);
                },
            }
        }
        j += 1;
    }
    match best {
        Some(b) => {
            proof {
                assert(is_latest_entry(table@, b as int));
            }
            Some(table[b].copy())
        },
        None => {
            proof {
                if table_wf(table@) {
                    let w = choose|w: int|
                        0 <= w < table@.len() && #[trigger] table@[w].is_entry_point && forall|i: int|
                            0 <= i < table@.len() && i != w ==> !(#[trigger] table@[i].is_entry_point);
                    assert(table@[w].is_entry_point);
                }
            }
            None
        },
    }
}

} // verus!
