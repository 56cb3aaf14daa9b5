//! Listing views: the search over names and descriptions, the sort orders of a listing,
//! and the page taken out of the sorted hits.
use vstd::prelude::*;
use vstd::seq_lib::{to_multiset_build, to_multiset_insert};
use vstd::view::View as _;

use crate::text::{ascii_lower_seq, chars_eq, chars_of, contains_chars, contains_seq, lower_chars, trimmed};
use crate::views::{distinct_ids, search_term, page_params, SortDirection, View, ViewListQuery, ViewPage, ViewSortBy};

verus! {

/// Lexicographic order of character sequences by code point, which is the byte order of
/// their UTF-8 text.
pub open spec fn text_lt(a: Seq<char>, b: Seq<char>) -> bool
    decreases a.len(),
{
    if a.len() == 0 {
        b.len() > 0
    } else if b.len() == 0 {
        false
    } else if a[0] == b[0] {
        text_lt(a.drop_first(), b.drop_first())
    } else {
        a[0] < b[0]
    }
}

/// No sequence comes before itself, and of two sequences at most one comes first.
pub proof fn lemma_text_lt_asym(a: Seq<char>, b: Seq<char>)
    ensures
        !text_lt(a, a),
        text_lt(a, b) ==> !text_lt(b, a),
    decreases a.len(),
{
    if a.len() > 0 {
        lemma_text_lt_asym(a.drop_first(), a.drop_first());
        if b.len() > 0 {
            lemma_text_lt_asym(a.drop_first(), b.drop_first());
        }
    }
}

/// The order is transitive.
pub proof fn lemma_text_lt_trans(a: Seq<char>, b: Seq<char>, c: Seq<char>)
    requires
        text_lt(a, b),
        text_lt(b, c),
    ensures
        text_lt(a, c),
    decreases a.len(),
{
    if a.len() > 0 && a[0] == b[0] && b[0] == c[0] {
        lemma_text_lt_trans(a.drop_first(), b.drop_first(), c.drop_first());
    }
}

/// Two different sequences are ordered one way or the other.
pub proof fn lemma_text_lt_total(a: Seq<char>, b: Seq<char>)
    requires
        a != b,
    ensures
        text_lt(a, b) || text_lt(b, a),
    decreases a.len(),
{
    if a.len() > 0 && b.len() > 0 && a[0] == b[0] {
        if a.drop_first() == b.drop_first() {
            assert(a =~= seq![a[0]] + a.drop_first());
            assert(b =~= seq![b[0]] + b.drop_first());
        }
        lemma_text_lt_total(a.drop_first(), b.drop_first());
    } else if a.len() == 0 && b.len() == 0 {
        assert(a =~= b);
    }
}

/// `text_lt` on slices.
pub fn text_lt_exec(a: &[char], b: &[char]) -> (r: bool)
    ensures
        r == text_lt(a@, b@),
{
    let mut i: usize = 0;
    proof {
        assert(a@.skip(0) =~= a@);
        assert(b@.skip(0) =~= b@);
    }
    while i < a.len() && i < b.len()
        invariant
            i <= a.len(),
            i <= b.len(),
            text_lt(a@, b@) == text_lt(a@.skip(i as int), b@.skip(i as int)),
        decreases a.len() - i,
    {
        if a[i] != b[i] {
            return a[i] < b[i];
        }
        proof {
            assert(a@.skip(i as int).drop_first() =~= a@.skip(i + 1));
            assert(b@.skip(i as int).drop_first() =~= b@.skip(i + 1));
        }
        i += 1;
    }
    i == a.len() && i < b.len()
}

/// Whether view `a` is listed before view `b` under sort field `by` and direction `dir`.
/// Names compare without regard to ASCII case; views that tie on the sort field are
/// listed by id; entry-point order breaks ties by latest update first.
pub open spec fn precedes(a: View, b: View, by: ViewSortBy, dir: SortDirection) -> bool {
    let by_id = text_lt(a.id@, b.id@);
    match by {
        ViewSortBy::Name => {
            let x = ascii_lower_seq(a.name@);
            let y = ascii_lower_seq(b.name@);
            if x == y {
                by_id
            } else if dir == SortDirection::Asc {
                text_lt(x, y)
            } else {
                text_lt(y, x)
            }
        },
        ViewSortBy::UpdatedAt => {
            if a.updated_at == b.updated_at {
                by_id
            } else if dir == SortDirection::Asc {
                a.updated_at < b.updated_at
            } else {
                a.updated_at > b.updated_at
            }
        },
        ViewSortBy::IsEntryPoint => {
            if a.is_entry_point != b.is_entry_point {
                if dir == SortDirection::Asc {
                    !a.is_entry_point
                } else {
                    a.is_entry_point
                }
            } else if a.updated_at != b.updated_at {
                a.updated_at > b.updated_at
            } else {
                by_id
            }
        },
    }
}

/// The listing order is transitive.
pub proof fn lemma_precedes_trans(a: View, b: View, c: View, by: ViewSortBy, dir: SortDirection)
    requires
        precedes(a, b, by, dir),
        precedes(b, c, by, dir),
    ensures
        precedes(a, c, by, dir),
{
    lemma_text_lt_asym(a.id@, c.id@);
    if text_lt(a.id@, b.id@) && text_lt(b.id@, c.id@) {
        lemma_text_lt_trans(a.id@, b.id@, c.id@);
    }
    let x = ascii_lower_seq(a.name@);
    let y = ascii_lower_seq(b.name@);
    let z = ascii_lower_seq(c.name@);
    lemma_text_lt_asym(x, z);
    lemma_text_lt_asym(z, x);
    if text_lt(x, y) && text_lt(y, z) {
        lemma_text_lt_trans(x, y, z);
    }
    if text_lt(z, y) && text_lt(y, x) {
        lemma_text_lt_trans(z, y, x);
    }
}

/// No view is listed before itself.
pub proof fn lemma_precedes_irrefl(a: View, by: ViewSortBy, dir: SortDirection)
    ensures
        !precedes(a, a, by, dir),
{
    lemma_text_lt_asym(a.id@, a.id@);
}

/// Two views with different ids are always listed one before the other, whatever the
/// sort field and direction: the listing order is total on a table's views.
pub proof fn law_listing_order_total(a: View, b: View, by: ViewSortBy, dir: SortDirection)
    requires
        a.id@ != b.id@,
    ensures
        precedes(a, b, by, dir) || precedes(b, a, by, dir),
{
    lemma_text_lt_total(a.id@, b.id@);
    let x = ascii_lower_seq(a.name@);
    let y = ascii_lower_seq(b.name@);
    if x != y {
        lemma_text_lt_total(x, y);
    }
}

/// `s` is in listing order: no view comes after one it should precede.
pub open spec fn in_order(s: Seq<View>, by: ViewSortBy, dir: SortDirection) -> bool {
    forall|i: int, j: int| 0 <= i < j < s.len() ==> !precedes(#[trigger] s[j], #[trigger] s[i], by, dir)
}

/// Whether `v` is a hit of search term `term`: the term occurs in its name or its
/// description, without regard to ASCII case. This is the case-insensitive substring
/// match that the listing API documents; every character of the term, `%` and `_`
/// included, matches only itself, where a database LIKE pattern would read `%` and `_`
/// as wildcards.
pub open spec fn matches_search(v: View, term: Seq<char>) -> bool {
    ||| contains_seq(ascii_lower_seq(v.name@), ascii_lower_seq(term))
    ||| contains_seq(ascii_lower_seq(v.description@), ascii_lower_seq(term))
}

/// The views of `t` that a listing with search term `term` shows, in table order.
pub open spec fn search_hits(t: Seq<View>, term: Option<Seq<char>>) -> Seq<View> {
    match term {
        Some(s) => t.filter(|v: View| matches_search(v, s)),
        None => t,
    }
}

/// The search term of a query: its text without surrounding white space, unless that
/// is empty.
pub open spec fn query_term(search: Option<String>) -> Option<Seq<char>> {
    match search {
        Some(q) => if trimmed(q@).len() > 0 {
            Some(trimmed(q@))
        } else {
            None
        },
        None => None,
    }
}

/// The clamped page size of a query.
pub open spec fn clamped_size(query: ViewListQuery) -> int {
    if query.page_size < 1 {
        1
    } else if query.page_size > 100 {
        100
    } else {
        query.page_size as int
    }
}

/// The page number of a query, at least 1.
pub open spec fn page_number(query: ViewListQuery) -> int {
    if query.page < 1 {
        1
    } else {
        query.page as int
    }
}

fn precedes_exec(a: &View, b: &View, by: ViewSortBy, dir: SortDirection) -> (r: bool)
    ensures
        r == precedes(*a, *b, by, dir),
{
    let ai = chars_of(a.id.as_str());
    let bi = chars_of(b.id.as_str());
    match by {
        ViewSortBy::Name => {
            let an = chars_of(a.name.as_str());
            let bn = chars_of(b.name.as_str());
            let x = lower_chars(an.as_slice());
            let y = lower_chars(bn.as_slice());
            if chars_eq(x.as_slice(), y.as_slice()) {
                text_lt_exec(ai.as_slice(), bi.as_slice())
            } else {
                match dir {
                    SortDirection::Asc => text_lt_exec(x.as_slice(), y.as_slice()),
                    SortDirection::Desc => text_lt_exec(y.as_slice(), x.as_slice()),
                }
            }
        },
        ViewSortBy::UpdatedAt => {
            if a.updated_at == b.updated_at {
                text_lt_exec(ai.as_slice(), bi.as_slice())
            } else {
                match dir {
                    SortDirection::Asc => a.updated_at < b.updated_at,
                    SortDirection::Desc => a.updated_at > b.updated_at,
                }
            }
        },
        ViewSortBy::IsEntryPoint => {
            if a.is_entry_point != b.is_entry_point {
                match dir {
                    SortDirection::Asc => !a.is_entry_point,
                    SortDirection::Desc => a.is_entry_point,
                }
            } else if a.updated_at != b.updated_at {
                a.updated_at > b.updated_at
            } else {
                text_lt_exec(ai.as_slice(), bi.as_slice())
            }
        },
    }
}

proof fn lemma_insert_in_order(s: Seq<View>, p: int, x: View, by: ViewSortBy, dir: SortDirection)
    requires
        in_order(s, by, dir),
        0 <= p <= s.len(),
        forall|k: int| 0 <= k < p ==> !precedes(x, #[trigger] s[k], by, dir),
        p < s.len() ==> precedes(x, s[p], by, dir),
    ensures
        in_order(s.insert(p, x), by, dir),
{
    let t = s.insert(p, x);
    assert forall|i: int, j: int| 0 <= i < j < t.len() implies !precedes(#[trigger] t[j], #[trigger] t[i], by, dir) by {
        if j < p {
            assert(t[i] == s[i] && t[j] == s[j]);
        } else if j == p {
            assert(t[i] == s[i]);
        } else if i > p {
            assert(t[i] == s[i - 1] && t[j] == s[j - 1]);
        } else if i == p {
            assert(t[j] == s[j - 1]);
            if precedes(s[j - 1], x, by, dir) {
                lemma_precedes_trans(s[j - 1], x, s[p], by, dir);
                if j - 1 == p {
                    lemma_precedes_irrefl(s[p], by, dir);
                }
            }
        } else {
            assert(t[i] == s[i] && t[j] == s[j - 1]);
        }
    }
}

/// The views of `v` in listing order.
pub fn sort_views(v: &Vec<View>, by: ViewSortBy, dir: SortDirection) -> (s: Vec<View>)
    ensures
        s@.to_multiset() == v@.to_multiset(),
        in_order(s@, by, dir),
{
    let mut out: Vec<View> = Vec::new();
    let mut i: usize = 0;
    proof {
        assert(v@.take(0) =~= Seq::<View>::empty());
    }
    while i < v.len()
        invariant
            i <= v.len(),
            out@.to_multiset() == v@.take(i as int).to_multiset(),
            in_order(out@, by, dir),
        decreases v.len() - i,
    {
        let x = v[i].copy();
        let mut p: usize = 0;
        loop
            invariant
                p <= out.len(),
                forall|k: int| 0 <= k < p ==> !precedes(x, #[trigger] out@[k], by, dir),
            ensures
                p <= out.len(),
                forall|k: int| 0 <= k < p ==> !precedes(x, #[trigger] out@[k], by, dir),
                p < out.len() ==> precedes(x, out@[p as int], by, dir),
            decreases out.len() - p,
        {
            if p == out.len() {
                break;
            }
            if precedes_exec(&x, &out[p], by, dir) {
                break;
            }
            p += 1;
        }
        proof {
            lemma_insert_in_order(out@, p as int, x, by, dir);
            to_multiset_insert(out@, p as int, x);
            assert(v@.take(i + 1) =~= v@.take(i as int).push(v@[i as int]));
            to_multiset_build(v@.take(i as int), v@[i as int]);
        }
        out.insert(p, x);
        i += 1;
    }
    proof {
        assert(v@.take(v.len() as int) =~= v@);
    }
    out
}

fn hits_of(table: &Vec<View>, term: &Option<String>) -> (h: Vec<View>)
    ensures
        h@ == search_hits(
            table@,
            match term {
                Some(s) => Some(s@),
                None => None,
            },
        ),
{
    match term {
        None => {
            let mut h: Vec<View> = Vec::new();
            let mut i: usize = 0;
            while i < table.len()
                invariant
                    i <= table.len(),
                    h@ == table@.take(i as int),
                decreases table.len() - i,
            {
                h.push(table[i].copy());
                proof {
                    assert(table@.take(i + 1) =~= table@.take(i as int).push(table@[i as int]));
                }
                i += 1;
            }
            proof {
                assert(table@.take(table.len() as int) =~= table@);
            }
            h
        },
        Some(s) => {
            let ghost pred = |v: View| matches_search(v, s@);
            let sc = chars_of(s.as_str());
            let low = lower_chars(sc.as_slice());
            let mut h: Vec<View> = Vec::new();
            let mut i: usize = 0;
            proof {
                assert(table@.take(0) =~= Seq::<View>::empty());
                assert(Seq::<View>::empty().filter(pred) =~= Seq::<View>::empty()) by {
                    reveal(Seq::filter);
                }
            }
            while i < table.len()
                invariant
                    i <= table.len(),
                    low@ == ascii_lower_seq(s@),
                    pred == (|v: View| matches_search(v, s@)),
                    h@ == table@.take(i as int).filter(pred),
                decreases table.len() - i,
            {
                let n = chars_of(table[i].name.as_str());
                let nl = lower_chars(n.as_slice());
                let d = chars_of(table[i].description.as_str());
                let dl = lower_chars(d.as_slice());
                let hit = contains_chars(nl.as_slice(), low.as_slice()) || contains_chars(
                    dl.as_slice(),
                    low.as_slice(),
                );
                proof {
                    assert(table@.take(i + 1) =~= table@.take(i as int).push(table@[i as int]));
                    table@.take(i as int).lemma_filter_push(table@[i as int], pred);
                    assert(hit == pred(table@[i as int]));
                }
                if hit {
                    h.push(table[i].copy());
                }
                i += 1;
            }
            proof {
                assert(table@.take(table.len() as int) =~= table@);
            }
            h
        },
    }
}

/// Whether `page` is the page of table `t` that `query` asks for: the search hits,
/// sorted in the query's order, from position (page - 1) * page size on, at most page
/// size many; `total` counts all hits.
pub open spec fn is_listing(t: Seq<View>, query: ViewListQuery, page: ViewPage) -> bool {
    let hits = search_hits(t, query_term(query.search));
    let size = clamped_size(query);
    let lo = (page_number(query) - 1) * size;
    &&& page.total == hits.len()
    &&& exists|s: Seq<View>|
        #![trigger in_order(s, query.sort_by, query.sort_direction)]
        s.to_multiset() == hits.to_multiset() && in_order(s, query.sort_by, query.sort_direction)
            && page.items@ == (if lo >= hits.len() {
            Seq::<View>::empty()
        } else if lo + size >= hits.len() {
            s.subrange(lo, hits.len() as int)
        } else {
            s.subrange(lo, lo + size)
        })
    &&& page.page == page_number(query)
    &&& page.page_size == size
    &&& page.sort_by == query.sort_by
    &&& page.sort_direction == query.sort_direction
}

/// The page of the views of `table` that `query` asks for (see `is_listing`).
pub fn list_views_page_in(table: &Vec<View>, query: &ViewListQuery) -> (page: ViewPage)
    ensures
        is_listing(table@, *query, page),
{
    let p = page_params(query);
    let term = search_term(query);
    let hits = hits_of(table, &term);
    let sorted = sort_views(&hits, query.sort_by, query.sort_direction);
    let n = sorted.len();
    let mut items: Vec<View> = Vec::new();
    let ghost lo_spec: int = (page_number(*query) - 1) * clamped_size(*query);
    let ghost size: int = clamped_size(*query);
    let start = p.page_index.checked_mul(p.page_size);
    proof {
        assert(p.page_index as int * p.page_size as int == lo_spec);
    }
    match start {
        Some(lo) => {
            if lo < n as u64 {
                let lo = lo as usize;
                let end: usize = if p.page_size as u64 >= (n - lo) as u64 {
                    n
                } else {
                    lo + p.page_size as usize
                };
                let mut k: usize = lo;
                while k < end
                    invariant
                        lo <= k <= end <= n,
                        n == sorted@.len(),
                        items@ == sorted@.subrange(lo as int, k as int),
                    decreases end - k,
                {
                    items.push(sorted[k].copy());
                    proof {
                        assert(sorted@.subrange(lo as int, k + 1) =~= sorted@.subrange(lo as int, k as int).push(sorted@[k as int]));
                    }
                    k += 1;
                }
            }
        },
        None => {},
    }
    proof {
        assert(hits@.to_multiset().len() == hits@.len()) by {
            vstd::seq_lib::to_multiset_len(hits@);
        }
        vstd::seq_lib::to_multiset_len(sorted@);
        assert(sorted@.len() == hits@.len());
    }
    ViewPage {
        items,
        total: n as u64,
        page: p.page_number,
        page_size: p.page_size,
        sort_by: query.sort_by,
        sort_direction: query.sort_direction,
    }
}

proof fn lemma_filter_distinct_ids(t: Seq<View>, pred: spec_fn(View) -> bool)
    requires
        distinct_ids(t),
    ensures
        distinct_ids(t.filter(pred)),
    decreases t.len(),
{
    if t.len() > 0 {
        let d = t.drop_last();
        assert forall|i: int, j: int| 0 <= i < d.len() && 0 <= j < d.len() && i != j implies #[trigger] d[i].id@
            != #[trigger] d[j].id@ by {
            assert(d[i] == t[i] && d[j] == t[j]);
        }
        lemma_filter_distinct_ids(d, pred);
        let f = d.filter(pred);
        if pred(t.last()) {
            let g = f.push(t.last());
            assert forall|i: int| 0 <= i < f.len() implies (#[trigger] f[i]).id@ != t.last().id@ by {
                assert(f.contains(f[i]));
                d.lemma_filter_contains_rev(pred, f[i]);
                let k = choose|k: int| 0 <= k < d.len() && d[k] == f[i];
                assert(t[k] == d[k]);
            }
            assert forall|i: int, j: int| 0 <= i < g.len() && 0 <= j < g.len() && i != j implies #[trigger] g[i].id@
                != #[trigger] g[j].id@ by {
                if i < f.len() && j < f.len() {
                    assert(g[i] == f[i] && g[j] == f[j]);
                } else if i < f.len() {
                    assert(g[i] == f[i]);
                } else {
                    assert(g[j] == f[j]);
                }
            }
            assert(d.push(t.last()) =~= t);
            d.lemma_filter_push(t.last(), pred);
            assert(t.filter(pred) == g);
        } else {
            assert(d.push(t.last()) =~= t);
            d.lemma_filter_push(t.last(), pred);
            assert(t.filter(pred) == f);
        }
    }
}

proof fn lemma_perm_distinct_ids(s: Seq<View>, h: Seq<View>)
    requires
        s.to_multiset() == h.to_multiset(),
        distinct_ids(h),
    ensures
        distinct_ids(s),
{
    broadcast use vstd::seq_lib::group_to_multiset_ensures;

    assert(h.no_duplicates()) by {
        assert forall|i: int, j: int| 0 <= i < h.len() && 0 <= j < h.len() && i != j implies h[i] != h[j] by {
            assert(h[i].id@ != h[j].id@);
        }
    }
    h.lemma_multiset_has_no_duplicates();
    s.lemma_multiset_has_no_duplicates_conv();
    assert forall|i: int, j: int| 0 <= i < s.len() && 0 <= j < s.len() && i != j implies #[trigger] s[i].id@
        != #[trigger] s[j].id@ by {
        assert(s.contains(s[i]));
        assert(s.contains(s[j]));
        assert(s.to_multiset().count(s[i]) > 0);
        assert(s.to_multiset().count(s[j]) > 0);
        assert(h.contains(s[i]));
        assert(h.contains(s[j]));
        let a = choose|a: int| 0 <= a < h.len() && h[a] == s[i];
        let b = choose|b: int| 0 <= b < h.len() && h[b] == s[j];
        assert(s[i] != s[j]);
        assert(h[a].id@ != h[b].id@);
    }
}

proof fn lemma_sorted_views_unique(s1: Seq<View>, s2: Seq<View>, by: ViewSortBy, dir: SortDirection)
    requires
        s1.to_multiset() == s2.to_multiset(),
        distinct_ids(s1),
        distinct_ids(s2),
        in_order(s1, by, dir),
        in_order(s2, by, dir),
    ensures
        s1 == s2,
    decreases s1.len(),
{
    broadcast use vstd::seq_lib::group_to_multiset_ensures;

    vstd::seq_lib::to_multiset_len(s1);
    vstd::seq_lib::to_multiset_len(s2);
    assert(s1.len() == s2.len());
    if s1.len() == 0 {
        assert(s1 =~= s2);
    } else {
        let a = s1[0];
        let b = s2[0];
        if a != b {
            assert(s1.contains(a));
            assert(s1.to_multiset().count(a) > 0);
            assert(s2.contains(a));
            assert(s2.contains(b));
            assert(s2.to_multiset().count(b) > 0);
            assert(s1.contains(b));
            let k = choose|k: int| 0 <= k < s2.len() && s2[k] == a;
            let m = choose|m: int| 0 <= m < s1.len() && s1[m] == b;
            assert(s1[0].id@ != s1[m].id@);
            law_listing_order_total(a, b, by, dir);
            if precedes(a, b, by, dir) {
                assert(!precedes(s2[k], s2[0], by, dir));
            } else {
                assert(!precedes(s1[m], s1[0], by, dir));
            }
        }
        let r1 = s1.drop_first();
        let r2 = s2.drop_first();
        assert(s1.remove(0) =~= r1);
        assert(s2.remove(0) =~= r2);
        assert(r1.to_multiset() == s1.to_multiset().remove(a));
        assert(r2.to_multiset() == s2.to_multiset().remove(b));
        assert forall|i: int, j: int| 0 <= i < r1.len() && 0 <= j < r1.len() && i != j implies #[trigger] r1[i].id@
            != #[trigger] r1[j].id@ by {
            assert(r1[i] == s1[i + 1] && r1[j] == s1[j + 1]);
        }
        assert forall|i: int, j: int| 0 <= i < r2.len() && 0 <= j < r2.len() && i != j implies #[trigger] r2[i].id@
            != #[trigger] r2[j].id@ by {
            assert(r2[i] == s2[i + 1] && r2[j] == s2[j + 1]);
        }
        assert forall|i: int, j: int| 0 <= i < j < r1.len() implies !precedes(#[trigger] r1[j], #[trigger] r1[i], by, dir) by {
            assert(r1[i] == s1[i + 1] && r1[j] == s1[j + 1]);
        }
        assert forall|i: int, j: int| 0 <= i < j < r2.len() implies !precedes(#[trigger] r2[j], #[trigger] r2[i], by, dir) by {
            assert(r2[i] == s2[i + 1] && r2[j] == s2[j + 1]);
        }
        lemma_sorted_views_unique(r1, r2, by, dir);
        assert(s1 =~= s2) by {
            assert forall|i: int| 0 <= i < s1.len() implies s1[i] == s2[i] by {
                if i > 0 {
                    assert(s1[i] == r1[i - 1] && s2[i] == r2[i - 1]);
                }
            }
        }
    }
}

/// In a table whose views have distinct ids, a query has exactly one page: any two
/// pages that list the table for the same query hold the same views in the same order.
pub proof fn law_listing_is_determined(t: Seq<View>, query: ViewListQuery, p1: ViewPage, p2: ViewPage)
    requires
        distinct_ids(t),
        is_listing(t, query, p1),
        is_listing(t, query, p2),
    ensures
        p1.items@ == p2.items@,
        p1.total == p2.total,
{
    let hits = search_hits(t, query_term(query.search));
    let size = clamped_size(query);
    let lo = (page_number(query) - 1) * size;
    match query_term(query.search) {
        Some(term) => lemma_filter_distinct_ids(t, |v: View| matches_search(v, term)),
        None => {},
    }
    let s1 = choose|s: Seq<View>|
        #![trigger in_order(s, query.sort_by, query.sort_direction)]
        s.to_multiset() == hits.to_multiset() && in_order(s, query.sort_by, query.sort_direction)
            && p1.items@ == (if lo >= hits.len() {
            Seq::<View>::empty()
        } else if lo + size >= hits.len() {
            s.subrange(lo, hits.len() as int)
        } else {
            s.subrange(lo, lo + size)
        });
    let s2 = choose|s: Seq<View>|
        #![trigger in_order(s, query.sort_by, query.sort_direction)]
        s.to_multiset() == hits.to_multiset() && in_order(s, query.sort_by, query.sort_direction)
            && p2.items@ == (if lo >= hits.len() {
            Seq::<View>::empty()
        } else if lo + size >= hits.len() {
            s.subrange(lo, hits.len() as int)
        } else {
            s.subrange(lo, lo + size)
        });
    lemma_perm_distinct_ids(s1, hits);
    lemma_perm_distinct_ids(s2, hits);
    lemma_sorted_views_unique(s1, s2, query.sort_by, query.sort_direction);
}


/// Sorting by update time puts the earlier update first in ascending order and last in
/// descending order; for views updated at different times the two directions are each
/// other's reverse.
pub proof fn law_update_time_order(a: View, b: View)
    ensures
        a.updated_at < b.updated_at ==> precedes(a, b, ViewSortBy::UpdatedAt, SortDirection::Asc),
        a.updated_at > b.updated_at ==> precedes(a, b, ViewSortBy::UpdatedAt, SortDirection::Desc),
        a.updated_at != b.updated_at ==> precedes(a, b, ViewSortBy::UpdatedAt, SortDirection::Asc) == precedes(
            b,
            a,
            ViewSortBy::UpdatedAt,
            SortDirection::Desc,
        ),
{
}

/// A listed page is sorted by the field it was asked for: by update time, earlier first
/// ascending and later first descending; by name, ignoring ASCII case, in text order
/// ascending and reverse text order descending; by entry-point mark, unmarked views first
/// ascending and marked views first descending.
pub proof fn law_listing_page_is_sorted(t: Seq<View>, query: ViewListQuery, page: ViewPage)
    requires
        is_listing(t, query, page),
    ensures
        forall|i: int, j: int|
            0 <= i < j < page.items@.len() ==> {
                let a = #[trigger] page.items@[i];
                let b = #[trigger] page.items@[j];
                &&& (query.sort_by == ViewSortBy::UpdatedAt && query.sort_direction == SortDirection::Asc)
                    ==> a.updated_at <= b.updated_at
                &&& (query.sort_by == ViewSortBy::UpdatedAt && query.sort_direction == SortDirection::Desc)
                    ==> a.updated_at >= b.updated_at
                &&& (query.sort_by == ViewSortBy::Name && query.sort_direction == SortDirection::Asc)
                    ==> !text_lt(ascii_lower_seq(b.name@), ascii_lower_seq(a.name@))
                &&& (query.sort_by == ViewSortBy::Name && query.sort_direction == SortDirection::Desc)
                    ==> !text_lt(ascii_lower_seq(a.name@), ascii_lower_seq(b.name@))
                &&& (query.sort_by == ViewSortBy::IsEntryPoint && query.sort_direction == SortDirection::Asc)
                    ==> (a.is_entry_point ==> b.is_entry_point)
                &&& (query.sort_by == ViewSortBy::IsEntryPoint && query.sort_direction == SortDirection::Desc)
                    ==> (b.is_entry_point ==> a.is_entry_point)
            },
{
    let hits = search_hits(t, query_term(query.search));
    let size = clamped_size(query);
    let lo = (page_number(query) - 1) * size;
    let by = query.sort_by;
    let dir = query.sort_direction;
    let s = choose|s: Seq<View>|
        #![trigger in_order(s, by, dir)]
        s.to_multiset() == hits.to_multiset() && in_order(s, by, dir) && page.items@ == (if lo >= hits.len() {
            Seq::<View>::empty()
        } else if lo + size >= hits.len() {
            s.subrange(lo, hits.len() as int)
        } else {
            s.subrange(lo, lo + size)
        });
    let items = page.items@;
    vstd::seq_lib::to_multiset_len(s);
    vstd::seq_lib::to_multiset_len(hits);
    assert(s.len() == hits.len());
    assert forall|i: int, j: int| 0 <= i < j < items.len() implies !precedes(
        #[trigger] items[j],
        #[trigger] items[i],
        by,
        dir,
    ) by {
        if lo < hits.len() {
            if lo + size >= hits.len() {
                assert(items == s.subrange(lo, hits.len() as int));
            } else {
                assert(items == s.subrange(lo, lo + size));
            }
            assert(items[i] == s[lo + i]);
            assert(items[j] == s[lo + j]);
        }
    }
    assert forall|i: int, j: int| 0 <= i < j < items.len() implies {
        let a = #[trigger] items[i];
        let b = #[trigger] items[j];
        &&& (by == ViewSortBy::Name && dir == SortDirection::Asc) ==> !text_lt(ascii_lower_seq(b.name@), ascii_lower_seq(a.name@))
        &&& (by == ViewSortBy::Name && dir == SortDirection::Desc) ==> !text_lt(ascii_lower_seq(a.name@), ascii_lower_seq(b.name@))
    } by {
        let x = ascii_lower_seq(items[i].name@);
        let y = ascii_lower_seq(items[j].name@);
        lemma_text_lt_asym(x, x);
        assert(!precedes(items[j], items[i], by, dir));
    }
}

} // verus!
