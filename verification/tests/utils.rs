use lirays_scada::namespace::{ItemType, VarDataType};
use lirays_scada::utils::{
    cast_item_type, cast_var_data_type, get_ancestors, get_hierarchy_key, get_parent_and_name,
    normalize_path,
};

#[test]
fn test_cast_item_type() {
    assert_eq!(cast_item_type(0), ItemType::Invalid);
}

#[test]
fn test_cast_var_data_type() {
    assert_eq!(cast_var_data_type(None), VarDataType::Invalid);
}

#[test]
fn test_normalize_path() {
    assert_eq!(normalize_path("/a/b/c", ItemType::Variable), "/a/b/c");
    assert_eq!(normalize_path("/a/b/c", ItemType::Folder), "/a/b/c/");
    assert_eq!(normalize_path("a/b/c", ItemType::Variable), "/a/b/c");
    assert_eq!(normalize_path("", ItemType::Variable), "/");
}

#[test]
fn test_get_ancestors() {
    let ancestors = get_ancestors("/a/b/c");
    assert_eq!(ancestors.len(), 3);
    assert_eq!(ancestors[0], (String::from("/"), String::from("a")));
    assert_eq!(ancestors[1], (String::from("/a/"), String::from("b")));
    assert_eq!(ancestors[2], (String::from("/a/b/"), String::from("c")));
}

#[test]
fn test_get_parent_and_name() {
    assert_eq!(get_parent_and_name("/"), (String::from("/"), String::from("")));
    assert_eq!(get_parent_and_name("/a"), (String::from("/"), String::from("a")));
    assert_eq!(get_parent_and_name("/a/b/c"), (String::from("/a/b"), String::from("c")));
    assert_eq!(get_parent_and_name("/a/b/c/"), (String::from("/a/b"), String::from("c")));
}

#[test]
fn test_get_hierarchy_key() {
    assert_eq!(get_hierarchy_key("/a/b/c"), "H:/a/b/\0c");
    assert_eq!(get_hierarchy_key("/"), "H:/\0");
}

#[test]
fn cast_codes_round_trip() {
    assert_eq!(cast_item_type(1), ItemType::Folder);
    assert_eq!(cast_item_type(2), ItemType::Variable);
    assert_eq!(cast_item_type(7), ItemType::Invalid);
    assert_eq!(cast_item_type(-1), ItemType::Invalid);
    assert_eq!(cast_var_data_type(Some(1)), VarDataType::Integer);
    assert_eq!(cast_var_data_type(Some(2)), VarDataType::Float);
    assert_eq!(cast_var_data_type(Some(3)), VarDataType::Text);
    assert_eq!(cast_var_data_type(Some(4)), VarDataType::Boolean);
    assert_eq!(cast_var_data_type(Some(9)), VarDataType::Invalid);
    assert_eq!(ItemType::Folder.code(), 1);
    assert_eq!(VarDataType::Boolean.code(), 4);
}

#[test]
fn normalize_collapses_repeated_and_trailing_slashes() {
    assert_eq!(normalize_path("//a///b//", ItemType::Variable), "/a/b");
    assert_eq!(normalize_path("//a///b//", ItemType::Folder), "/a/b/");
    assert_eq!(normalize_path("/", ItemType::Folder), "/");
    assert_eq!(normalize_path("///", ItemType::Variable), "/");
    assert_eq!(normalize_path("über/ß", ItemType::Variable), "/über/ß");
}

#[test]
fn normalize_is_idempotent_on_examples() {
    for p in ["", "/", "a", "//x//y/", "/m/n/o"] {
        for t in [ItemType::Folder, ItemType::Variable] {
            let once = normalize_path(p, t);
            assert_eq!(normalize_path(&once, t), once);
        }
    }
}

#[test]
fn hierarchy_key_matches_parent_folder_and_name() {
    let (parent, name) = get_parent_and_name("x//y/z/");
    let folder = normalize_path(&parent, ItemType::Folder);
    assert_eq!(get_hierarchy_key("x//y/z/"), format!("H:{}\0{}", folder, name));
    assert_eq!(get_hierarchy_key("top"), "H:/\0top");
}

#[test]
fn ancestors_of_root_and_single_segment() {
    assert!(get_ancestors("/").is_empty());
    assert_eq!(get_ancestors("a"), vec![(String::from("/"), String::from("a"))]);
    let anc = get_ancestors("/p/q/r");
    for i in 0..anc.len() - 1 {
        assert_eq!(anc[i + 1].0, format!("{}{}/", anc[i].0, anc[i].1));
    }
}
