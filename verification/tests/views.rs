use lirays_scada::view_list::list_views_page_in;
use lirays_scada::view_manager::ViewManager;
use lirays_scada::views::{
    create_view_at, default_canvas_json, default_page, default_page_size, default_sort_by,
    default_sort_direction, delete_view_at, ensure_initialized_at, get_entry_point_in, get_view_in,
    page_params, set_entry_point_at, update_view_at, validate_canvas_json, validate_description,
    validate_name, SortDirection, View, ViewInput, ViewListQuery, ViewManagerError, ViewSortBy,
    EMPTY_GRAPH_JSON,
};

fn input(name: &str, entry: Option<bool>) -> ViewInput {
    ViewInput {
        name: name.to_string(),
        description: "  some text  ".to_string(),
        is_entry_point: entry,
        canvas_json: "{}".to_string(),
    }
}

fn entry_count(t: &[View]) -> usize {
    t.iter().filter(|v| v.is_entry_point).count()
}

fn seeded() -> Vec<View> {
    let mut t = Vec::new();
    ensure_initialized_at(&mut t, "root".to_string(), 100);
    t
}

fn query(sort_by: ViewSortBy, dir: SortDirection, page: u64, size: u64, search: Option<&str>) -> ViewListQuery {
    ViewListQuery {
        page,
        page_size: size,
        sort_by,
        sort_direction: dir,
        search: search.map(|s| s.to_string()),
    }
}

#[test]
fn defaults_match_the_listing_defaults() {
    assert_eq!(default_page(), 1);
    assert_eq!(default_page_size(), 10);
    assert_eq!(default_sort_by(), ViewSortBy::UpdatedAt);
    assert_eq!(default_sort_direction(), SortDirection::Desc);
    assert_eq!(default_canvas_json(), EMPTY_GRAPH_JSON);
    assert_eq!(
        default_canvas_json(),
        r#"{"version":1,"nodes":[],"edges":[],"viewport":{"x":0,"y":0,"zoom":1}}"#
    );
}

#[test]
fn names_and_descriptions_are_trimmed() {
    assert_eq!(validate_name("  Plant A \n").unwrap(), "Plant A");
    match validate_name(" \t ") {
        Err(ViewManagerError::Validation(m)) => assert_eq!(m, "View name cannot be blank"),
        _ => panic!("blank name accepted"),
    }
    assert_eq!(validate_description("  x y  "), "x y");
    assert_eq!(validate_description("   "), "");
}

#[test]
fn canvas_must_be_json() {
    assert!(validate_canvas_json("{\"a\": [1, 2]}").is_ok());
    assert!(validate_canvas_json("[]").is_ok());
    match validate_canvas_json("{not json") {
        Err(ViewManagerError::Validation(m)) => assert_eq!(m, "canvas_json must be valid JSON"),
        _ => panic!("invalid canvas accepted"),
    }
}

#[test]
fn paging_parameters_are_clamped() {
    let p = page_params(&query(ViewSortBy::Name, SortDirection::Asc, 0, 0, None));
    assert_eq!((p.page_number, p.page_size, p.page_index), (1, 1, 0));
    let p = page_params(&query(ViewSortBy::Name, SortDirection::Asc, 3, 500, None));
    assert_eq!((p.page_number, p.page_size, p.page_index), (3, 100, 2));
}

#[test]
fn a_fresh_table_gets_the_root_view() {
    let t = seeded();
    assert_eq!(t.len(), 1);
    assert_eq!(t[0].id, "root");
    assert_eq!(t[0].name, "Root View");
    assert_eq!(t[0].description, "");
    assert!(t[0].is_entry_point);
    assert_eq!(t[0].canvas_json, EMPTY_GRAPH_JSON);
    assert_eq!((t[0].created_at, t[0].updated_at), (100, 100));
    let mut t2 = t.clone();
    ensure_initialized_at(&mut t2, "other".to_string(), 200);
    assert_eq!(t2.len(), 1);
    assert_eq!(t2[0].id, "root");
}

#[test]
fn creating_an_entry_point_moves_the_mark() {
    let mut t = seeded();
    let v = create_view_at(&mut t, input("  Second ", Some(true)), "v2".to_string(), 110).unwrap();
    assert_eq!(v.name, "Second");
    assert_eq!(v.description, "some text");
    assert!(v.is_entry_point);
    assert_eq!(t.len(), 2);
    assert!(!t[0].is_entry_point);
    assert_eq!(t[0].updated_at, 110);
    assert_eq!(entry_count(&t), 1);
    let w = create_view_at(&mut t, input("Third", None), "v3".to_string(), 120).unwrap();
    assert!(!w.is_entry_point);
    assert_eq!(entry_count(&t), 1);
}

#[test]
fn creating_refuses_taken_names_and_bad_input() {
    let mut t = seeded();
    match create_view_at(&mut t, input("ROOT view", None), "x".to_string(), 1) {
        Err(ViewManagerError::DuplicateName(n)) => assert_eq!(n, "ROOT view"),
        _ => panic!("duplicate accepted"),
    }
    match create_view_at(&mut t, input("   ", None), "x".to_string(), 1) {
        Err(ViewManagerError::Validation(m)) => assert_eq!(m, "View name cannot be blank"),
        _ => panic!("blank accepted"),
    }
    let mut bad = input("Fine", None);
    bad.canvas_json = "nope".to_string();
    match create_view_at(&mut t, bad, "x".to_string(), 1) {
        Err(ViewManagerError::Validation(m)) => assert_eq!(m, "canvas_json must be valid JSON"),
        _ => panic!("bad canvas accepted"),
    }
    assert_eq!(t.len(), 1);
}

#[test]
fn updating_keeps_one_entry_point() {
    let mut t = seeded();
    create_view_at(&mut t, input("B", None), "b".to_string(), 110).unwrap();
    let v = update_view_at(&mut t, "b", input("B2", Some(true)), 130).unwrap();
    assert_eq!(v.name, "B2");
    assert!(v.is_entry_point);
    assert_eq!(v.created_at, 110);
    assert_eq!(v.updated_at, 130);
    assert!(!t[0].is_entry_point);
    assert_eq!(entry_count(&t), 1);
    match update_view_at(&mut t, "b", input("B2", Some(false)), 140) {
        Err(ViewManagerError::Validation(m)) => {
            assert_eq!(m, "Cannot unset entry-point directly. Set another view as entry-point first.")
        }
        _ => panic!("unset accepted"),
    }
    match update_view_at(&mut t, "missing", input("Z", None), 140) {
        Err(ViewManagerError::NotFound) => {}
        _ => panic!("unknown id accepted"),
    }
    match update_view_at(&mut t, "b", input("root VIEW", None), 140) {
        Err(ViewManagerError::DuplicateName(n)) => assert_eq!(n, "root VIEW"),
        _ => panic!("duplicate accepted"),
    }
    let same = update_view_at(&mut t, "b", input("b2", None), 150).unwrap();
    assert_eq!(same.name, "b2");
    assert!(same.is_entry_point);
}

#[test]
fn deleting_hands_the_mark_to_the_earliest_view() {
    let mut t = seeded();
    create_view_at(&mut t, input("B", None), "b".to_string(), 50).unwrap();
    create_view_at(&mut t, input("C", None), "c".to_string(), 40).unwrap();
    delete_view_at(&mut t, "root", 300).unwrap();
    assert_eq!(t.len(), 2);
    let e = get_entry_point_in(&t).unwrap();
    assert_eq!(e.id, "c");
    assert_eq!(e.updated_at, 300);
    assert_eq!(entry_count(&t), 1);
    match delete_view_at(&mut t, "zzz", 1) {
        Err(ViewManagerError::NotFound) => {}
        _ => panic!("unknown id deleted"),
    }
    delete_view_at(&mut t, "b", 1).unwrap();
    match delete_view_at(&mut t, "c", 1) {
        Err(ViewManagerError::Validation(m)) => assert_eq!(m, "Cannot delete the last remaining view"),
        _ => panic!("last view deleted"),
    }
    assert_eq!(t.len(), 1);
}

#[test]
fn setting_the_entry_point_marks_only_the_target() {
    let mut t = seeded();
    create_view_at(&mut t, input("B", None), "b".to_string(), 10).unwrap();
    let v = set_entry_point_at(&mut t, "b", 77).unwrap();
    assert_eq!(v.id, "b");
    assert!(v.is_entry_point);
    assert_eq!(v.updated_at, 77);
    assert!(!t[0].is_entry_point);
    assert_eq!(t[0].updated_at, 77);
    match set_entry_point_at(&mut t, "nope", 80) {
        Err(ViewManagerError::NotFound) => {}
        _ => panic!("unknown id marked"),
    }
    let mut empty: Vec<View> = Vec::new();
    match set_entry_point_at(&mut empty, "b", 1) {
        Err(ViewManagerError::Validation(m)) => assert_eq!(m, "At least one view must exist"),
        _ => panic!("empty table accepted"),
    }
    assert_eq!(get_view_in(&t, "b").unwrap().name, "B");
    assert!(get_view_in(&t, "q").is_none());
}

#[test]
fn listing_sorts_filters_and_pages() {
    let mut t = seeded();
    create_view_at(&mut t, input("beta", None), "b".to_string(), 300).unwrap();
    create_view_at(&mut t, input("Alpha", None), "a".to_string(), 200).unwrap();
    let page = list_views_page_in(&t, &query(ViewSortBy::Name, SortDirection::Asc, 1, 10, None));
    let names: Vec<String> = page.items.iter().map(|v| v.name.clone()).collect();
    assert_eq!(names, vec!["Alpha", "beta", "Root View"]);
    assert_eq!(page.total, 3);
    let page = list_views_page_in(&t, &query(ViewSortBy::UpdatedAt, SortDirection::Desc, 1, 2, None));
    let ids: Vec<String> = page.items.iter().map(|v| v.id.clone()).collect();
    assert_eq!(ids, vec!["b", "a"]);
    let page = list_views_page_in(&t, &query(ViewSortBy::UpdatedAt, SortDirection::Desc, 2, 2, None));
    let ids: Vec<String> = page.items.iter().map(|v| v.id.clone()).collect();
    assert_eq!(ids, vec!["root"]);
    assert_eq!((page.page, page.page_size, page.total), (2, 2, 3));
    let page = list_views_page_in(&t, &query(ViewSortBy::IsEntryPoint, SortDirection::Desc, 1, 10, None));
    assert_eq!(page.items[0].id, "root");
    let page = list_views_page_in(&t, &query(ViewSortBy::Name, SortDirection::Asc, 1, 10, Some("  ALP ")));
    assert_eq!(page.total, 1);
    assert_eq!(page.items[0].id, "a");
    let page = list_views_page_in(&t, &query(ViewSortBy::Name, SortDirection::Asc, 9, 10, None));
    assert!(page.items.is_empty());
    assert_eq!(page.total, 3);
}

#[test]
fn the_manager_keeps_one_entry_point() {
    let mut m = ViewManager::new(Vec::new());
    m.ensure_initialized();
    assert_eq!(m.rows().len(), 1);
    assert_eq!(m.rows()[0].id.len(), 36);
    let v = m.create_view(input("Line 1", Some(true))).unwrap();
    assert!(v.created_at > 1_600_000_000);
    assert_eq!(v.created_at, v.updated_at);
    assert_eq!(m.get_entry_point().unwrap().id, v.id);
    let root_id = m.rows()[0].id.clone();
    m.set_entry_point(&root_id).unwrap();
    assert_eq!(m.get_entry_point().unwrap().id, root_id);
    m.delete_view(&root_id).unwrap();
    assert_eq!(m.get_entry_point().unwrap().id, v.id);
    assert_eq!(entry_count(m.rows()), 1);
    let page = m.list_views_page(query(ViewSortBy::Name, SortDirection::Asc, 1, 10, None));
    assert_eq!(page.total, 1);
    assert!(m.get_view(&v.id).is_some());
    let u = m.update_view(&v.id, input("Line 2", None)).unwrap();
    assert_eq!(u.name, "Line 2");
}

fn same_view(a: &View, b: &View) -> bool {
    a.id == b.id
        && a.name == b.name
        && a.description == b.description
        && a.is_entry_point == b.is_entry_point
        && a.canvas_json == b.canvas_json
        && a.created_at == b.created_at
        && a.updated_at == b.updated_at
}

#[test]
fn each_change_is_read_back() {
    let mut t = seeded();
    let created = create_view_at(&mut t, input("Pump", Some(true)), "p".to_string(), 200).unwrap();
    assert!(same_view(&get_view_in(&t, "p").unwrap(), &created));
    assert!(same_view(&get_entry_point_in(&t).unwrap(), &created));
    let updated = update_view_at(&mut t, "p", input("Pump 2", None), 210).unwrap();
    assert!(same_view(&get_view_in(&t, "p").unwrap(), &updated));
    let marked = set_entry_point_at(&mut t, "root", 220).unwrap();
    assert!(same_view(&get_entry_point_in(&t).unwrap(), &marked));
    assert_eq!(marked.id, "root");
    let before = t.len();
    delete_view_at(&mut t, "p", 230).unwrap();
    assert!(get_view_in(&t, "p").is_none());
    assert_eq!(t.len(), before - 1);
}
