use lirays_scada::bulk::{
    bulk_groups, bulk_type_code_of, merge_bulk_plans, schema_fits, BulkEntry, BulkNode,
};
use lirays_scada::namespace::ItemMeta;
use lirays_scada::variable::AddPlan;

fn folder(key: &str, children: Vec<BulkEntry>) -> BulkEntry {
    BulkEntry { key: key.to_string(), node: BulkNode::Folder(children) }
}

fn var(key: &str, t: &str) -> BulkEntry {
    BulkEntry { key: key.to_string(), node: BulkNode::Variable(t.to_string()) }
}

fn meta(name: &str, kind: i32, dtype: Option<i32>) -> ItemMeta {
    ItemMeta { name: name.to_string(), i_type: kind, var_d_type: dtype }
}

#[test]
fn variable_type_names_map_to_codes() {
    assert_eq!(bulk_type_code_of("Integer"), 1);
    assert_eq!(bulk_type_code_of("int"), 1);
    assert_eq!(bulk_type_code_of("I"), 1);
    assert_eq!(bulk_type_code_of("FLOAT"), 2);
    assert_eq!(bulk_type_code_of("f"), 2);
    assert_eq!(bulk_type_code_of("Text"), 3);
    assert_eq!(bulk_type_code_of("string"), 3);
    assert_eq!(bulk_type_code_of("str"), 3);
    assert_eq!(bulk_type_code_of("t"), 3);
    assert_eq!(bulk_type_code_of("Boolean"), 4);
    assert_eq!(bulk_type_code_of("bool"), 4);
    assert_eq!(bulk_type_code_of("B"), 4);
    assert_eq!(bulk_type_code_of("double"), 0);
    assert_eq!(bulk_type_code_of(""), 0);
}

#[test]
fn a_schema_walks_into_groups_level_by_level() {
    let roots = vec![
        var("speed", "float"),
        folder("line[1:2]", vec![var("temp[0:1]", "int")]),
        BulkEntry { key: "nothing".to_string(), node: BulkNode::Empty },
    ];
    assert!(schema_fits(&roots));
    let groups = bulk_groups("/plant", &roots);
    let view: Vec<(String, Vec<(String, i32, Option<i32>)>, bool)> = groups
        .iter()
        .map(|g| {
            (
                g.parent_id.clone(),
                g.items.iter().map(|m| (m.name.clone(), m.i_type, m.var_d_type)).collect(),
                g.first_level,
            )
        })
        .collect();
    assert_eq!(
        view,
        vec![
            ("/plant".to_string(), vec![("speed".to_string(), 2, Some(2))], true),
            (
                "/plant".to_string(),
                vec![("line_1".to_string(), 1, None), ("line_2".to_string(), 1, None)],
                true
            ),
            (
                "/plant/line_2".to_string(),
                vec![("temp_0".to_string(), 2, Some(1)), ("temp_1".to_string(), 2, Some(1))],
                false
            ),
            (
                "/plant/line_1".to_string(),
                vec![("temp_0".to_string(), 2, Some(1)), ("temp_1".to_string(), 2, Some(1))],
                false
            ),
        ]
    );
}

#[test]
fn child_paths_under_the_root_and_with_trailing_slashes() {
    let roots = vec![folder("a", vec![var("x", "bool")])];
    let groups = bulk_groups("/", &roots);
    assert_eq!(groups[1].parent_id, "/a");
    let groups = bulk_groups("/p//", &roots);
    assert_eq!(groups[1].parent_id, "/p/a");
}

#[test]
fn an_empty_range_makes_no_group() {
    let roots = vec![var("v[5:2]", "int")];
    assert!(bulk_groups("/", &roots).is_empty());
}

#[test]
fn ranges_that_cannot_be_counted_are_reported() {
    let big = format!("v[0:{}]", usize::MAX);
    let roots = vec![folder("ok", vec![var(&big, "int")])];
    assert!(!schema_fits(&roots));
    assert!(schema_fits(&vec![var("v[1:3]", "int")]));
}

#[test]
fn plans_merge_in_order_keeping_first_level_items() {
    let p1 = AddPlan {
        inserts: vec![("k1".to_string(), meta("a", 1, None))],
        new_folders: vec![meta("a", 1, None)],
        new_variables: vec![],
    };
    let p2 = AddPlan {
        inserts: vec![("k2".to_string(), meta("b", 2, Some(1)))],
        new_folders: vec![],
        new_variables: vec![meta("b", 2, Some(1))],
    };
    let merged = merge_bulk_plans(&vec![p1, p2], &vec![true, false]);
    let keys: Vec<String> = merged.inserts.iter().map(|(k, _)| k.clone()).collect();
    assert_eq!(keys, vec!["k1", "k2"]);
    assert_eq!(merged.first_folders.len(), 1);
    assert_eq!(merged.first_folders[0].name, "a");
    assert!(merged.first_variables.is_empty());
}
