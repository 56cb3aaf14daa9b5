use lirays_scada::commands::{answer, dispatch, CommandHead, CommandKind, Dispatch, ResponseKind};
use lirays_scada::variable::plan_set_all;
use lirays_scada::utils::get_hierarchy_key;
use lirays_scada::variable::{data_key_of, plan_set, ValueKind};
use lirays_scada::events::extract_add_event;
use lirays_scada::namespace::{Ev, ItemMeta};
use lirays_scada::variable::collect_children;
use lirays_scada::client::{build_pairs, ensure_ok, string_to_dtype, BooleanVar, ClientError, TextVar};
use lirays_scada::commands::{add_outcome, bulk_outcome, invalid_command, step_outcome};
use lirays_scada::namespace::{OperationStatus, SubscribeCommand, UnsubscribeCommand, VarDataType};
use lirays_scada::subscriptions::Subscriptions;

#[test]
fn type_names_map_to_data_types() {
    assert_eq!(string_to_dtype("Float"), VarDataType::Float);
    assert_eq!(string_to_dtype("INTEGER"), VarDataType::Integer);
    assert_eq!(string_to_dtype("int"), VarDataType::Integer);
    assert_eq!(string_to_dtype("Text"), VarDataType::Text);
    assert_eq!(string_to_dtype("string"), VarDataType::Text);
    assert_eq!(string_to_dtype("Boolean"), VarDataType::Boolean);
    assert_eq!(string_to_dtype("bool"), VarDataType::Boolean);
    assert_eq!(string_to_dtype("f"), VarDataType::Invalid);
    assert_eq!(string_to_dtype("str"), VarDataType::Invalid);
}

#[test]
fn only_the_success_status_is_accepted() {
    assert!(ensure_ok(1, &None).is_ok());
    match ensure_ok(2, &Some("Missing variable.".to_string())) {
        Err(ClientError::OperationFailed(m)) => assert_eq!(m, "Missing variable."),
        _ => panic!("failure accepted"),
    }
    match ensure_ok(0, &None) {
        Err(ClientError::OperationFailed(m)) => assert_eq!(m, "unknown error"),
        _ => panic!("invalid status accepted"),
    }
}

#[test]
fn pairs_keep_order_and_convert() {
    let pairs = build_pairs(vec!["/a".to_string(), "/b".to_string()], vec![1i64, 2], |v| v * 10).unwrap();
    assert_eq!(pairs, vec![("/a".to_string(), 10), ("/b".to_string(), 20)]);
    match build_pairs(vec!["/a".to_string()], vec![true, false], |v| v) {
        Err(ClientError::InvalidInput(m)) => assert_eq!(m, "var_ids and values must have same length"),
        _ => panic!("length mismatch accepted"),
    }
    let none: Vec<(String, bool)> = build_pairs(Vec::new(), Vec::new(), |v: bool| v).unwrap();
    assert!(none.is_empty());
}

#[test]
fn variable_descriptions_carry_their_fields() {
    let t = TextVar { name: "label".to_string(), unit: None, options: vec!["a".to_string()], max_len: Some(8) };
    let b = BooleanVar { name: "on".to_string(), unit: Some("state".to_string()) };
    assert_eq!(t.clone().options.len(), 1);
    assert_eq!(b.clone().unit.as_deref(), Some("state"));
}

#[test]
fn add_outcomes_follow_the_steps() {
    let ok: Result<(), String> = Ok(());
    let o = add_outcome(&Err("Can't create existing item H:/\0a".to_string()), &ok);
    assert_eq!(o.status, OperationStatus::Failure);
    assert_eq!(o.error_msg.as_deref(), Some("Inserting error: Can't create existing item H:/\0a"));
    assert!(!o.emit);
    let o = add_outcome(&ok, &Err("disk".to_string()));
    assert_eq!(o.error_msg.as_deref(), Some("Applying batch error: disk"));
    let o = add_outcome(&ok, &ok);
    assert_eq!(o.status, OperationStatus::Success);
    assert!(o.error_msg.is_none());
    assert!(o.emit);
}

#[test]
fn other_outcomes_follow_the_steps() {
    let ok: Result<(), String> = Ok(());
    let o = step_outcome(&Err("Missing variable.".to_string()));
    assert_eq!(o.error_msg.as_deref(), Some("Missing variable."));
    assert!(step_outcome(&ok).emit);
    assert_eq!(bulk_outcome(false, &ok, &ok).error_msg.as_deref(), Some("No schema provided"));
    assert_eq!(
        bulk_outcome(true, &Err("x".to_string()), &ok).error_msg.as_deref(),
        Some("Bulk insert error: x")
    );
    assert_eq!(bulk_outcome(true, &ok, &Err("y".to_string())).error_msg.as_deref(), Some("On apply batch: y"));
    assert_eq!(bulk_outcome(true, &ok, &ok).status, OperationStatus::Success);
    let (id, o) = invalid_command();
    assert_eq!(id.len(), 36);
    assert_eq!(o.error_msg.as_deref(), Some("No valid command received"));
    assert_eq!(o.status, OperationStatus::Failure);
}

#[test]
fn unsubscribing_undoes_subscribing() {
    let mut s = Subscriptions::new();
    let sub = SubscribeCommand { cmd_id: "c1".to_string(), events: vec![1, 2], var_ids: vec!["/a".to_string(), "/b".to_string()] };
    s.subscribe(&sub);
    assert!(s.is_subscribed("/a") && s.is_subscribed("/b"));
    assert!(s.wants_tree_changes());
    s.subscribe(&sub);
    let un = UnsubscribeCommand { cmd_id: "c2".to_string(), events: vec![1, 2], var_ids: vec!["/a".to_string(), "/b".to_string()] };
    s.unsubscribe(&un);
    assert!(!s.is_subscribed("/a") && !s.is_subscribed("/b"));
    assert!(!s.wants_tree_changes());
    s.add_all(&vec!["/x".to_string()]);
    assert!(s.is_subscribed("/x"));
    s.remove_all(&vec!["/x".to_string(), "/y".to_string()]);
    assert!(!s.is_subscribed("/x"));
}

#[test]
fn add_event_and_listing_report_matching_ids() {
    let folder = ItemMeta { name: "f".to_string(), i_type: 1, var_d_type: None };
    let var = ItemMeta { name: "x".to_string(), i_type: 2, var_d_type: Some(1) };
    let event = extract_add_event("a//", false, vec![folder.clone()], vec![var.clone()]).unwrap();
    let change = match event.ev {
        Some(Ev::TreeChangedEv(t)) => t.folder_changed_event[0].clone(),
        None => panic!("no tree change"),
    };
    let (folders, vars) = collect_children("a//", vec![folder, var]).unwrap();
    assert_eq!(change.new_variables[0].id, vars[0].id);
    assert_eq!(vars[0].id, "/a/x");
    assert_eq!(change.new_folders[0].id, format!("{}/", folders[0].id));
    assert_eq!(folders[0].id, "/a/f");
}

#[test]
fn deleting_a_folder_reaches_everything_below_it() {
    let t = lirays_scada::variable::delete_targets("plant//area/");
    assert_eq!(t.data_key, "D:/plant/area");
    assert_eq!(t.data_prefix, "D:/plant/area/");
    assert_eq!(t.hierarchy_prefix, "H:/plant/area/");
    let child = lirays_scada::utils::normalize_path("plant/area/pump/speed", lirays_scada::namespace::ItemType::Variable);
    let value_key = lirays_scada::variable::data_key_of(&child);
    assert!(value_key.starts_with(&t.data_prefix));
    let entry_key = lirays_scada::utils::get_hierarchy_key("plant/area/pump/speed");
    assert!(entry_key.starts_with(&t.hierarchy_prefix));
    let sibling = lirays_scada::utils::get_hierarchy_key("plant/areas");
    assert!(!sibling.starts_with(&t.hierarchy_prefix));
}

#[test]
fn items_without_a_parent_go_under_the_root() {
    let items = vec![ItemMeta { name: "pump".to_string(), i_type: 1, var_d_type: None }];
    let lookup = lirays_scada::variable::add_lookup("/");
    let present = vec![true; lookup.ancestor_keys.len()];
    let plan = lirays_scada::variable::plan_add_items("/", items, &present, &vec![]).unwrap();
    assert_eq!(plan.inserts[0].0, "H:/\0pump");
    let ok: Result<(), String> = Ok(());
    let o = add_outcome(&Ok(()), &ok);
    assert_eq!(o.status, OperationStatus::Success);
    assert!(o.error_msg.is_none());
    assert!(o.emit);
}

#[test]
fn distinct_items_never_share_a_storage_key() {
    assert_eq!(get_hierarchy_key("a//b/"), get_hierarchy_key("/a/b"));
    assert_ne!(get_hierarchy_key("/a/b"), get_hierarchy_key("/a/bc"));
    assert_ne!(get_hierarchy_key("/a/b/c"), get_hierarchy_key("/a/bc"));
    assert_ne!(get_hierarchy_key("/ab/c"), get_hierarchy_key("/a/bc"));
}

#[test]
fn a_set_writes_the_key_a_get_of_its_id_reads() {
    let stored = Some(ItemMeta { name: "speed".to_string(), i_type: 2, var_d_type: Some(2) });
    let step = plan_set("plant//speed/", stored, Some(Some(ValueKind::Integer))).unwrap();
    assert_eq!(step.var_id, "/plant/speed");
    assert_eq!(data_key_of(&step.var_id), step.data_key);
    assert_ne!(data_key_of("plant//speed/"), step.data_key);
}

#[test]
fn subscribe_and_unsubscribe_are_answered_without_the_store() {
    let mut subs = Subscriptions::new();
    let sub = SubscribeCommand { cmd_id: "s1".to_string(), events: vec![1, 2], var_ids: vec!["/a".to_string(), "/b".to_string()] };
    match dispatch(CommandHead::Sub(sub), &mut subs) {
        Dispatch::Answered(a) => {
            assert_eq!(a.kind, ResponseKind::Sub);
            assert_eq!(a.cmd_id, "s1");
            assert_eq!(a.status, OperationStatus::Success);
            assert!(a.error_msg.is_none());
        }
        Dispatch::ToStore(..) => panic!("subscribe sent to the store"),
    }
    let unsub = UnsubscribeCommand { cmd_id: "u1".to_string(), events: vec![2], var_ids: vec!["/a".to_string()] };
    match dispatch(CommandHead::Unsub(unsub), &mut subs) {
        Dispatch::Answered(a) => {
            assert_eq!(a.kind, ResponseKind::Unsub);
            assert_eq!(a.cmd_id, "u1");
            assert_eq!(a.status, OperationStatus::Success);
        }
        Dispatch::ToStore(..) => panic!("unsubscribe sent to the store"),
    }
    assert!(subs.is_subscribed("/a"));
    assert!(subs.is_subscribed("/b"));
    assert!(!subs.wants_tree_changes());
    match dispatch(CommandHead::Invalid, &mut subs) {
        Dispatch::Answered(a) => {
            assert_eq!(a.kind, ResponseKind::Inv);
            assert_eq!(a.cmd_id.len(), 36);
            assert_eq!(a.status, OperationStatus::Failure);
            assert_eq!(a.error_msg.as_deref(), Some("No valid command received"));
        }
        Dispatch::ToStore(..) => panic!("invalid command sent to the store"),
    }
    assert!(subs.is_subscribed("/b"));
}

#[test]
fn store_commands_are_answered_in_kind_with_their_id() {
    let mut subs = Subscriptions::new();
    match dispatch(CommandHead::Store(CommandKind::Get, "g7".to_string()), &mut subs) {
        Dispatch::ToStore(k, id) => {
            assert_eq!(k, CommandKind::Get);
            assert_eq!(id, "g7");
        }
        Dispatch::Answered(_) => panic!("get answered without the store"),
    }
    let o = step_outcome(&Err("boom".to_string()));
    let a = answer(CommandKind::SetValues, "x".to_string(), &o);
    assert_eq!(a.kind, ResponseKind::SetValues);
    assert_eq!(a.cmd_id, "x");
    assert_eq!(a.status, OperationStatus::Failure);
    assert_eq!(a.error_msg.as_deref(), Some("boom"));
    let a = answer(CommandKind::Add, "y".to_string(), &add_outcome(&Ok(()), &Ok(())));
    assert_eq!(a.kind, ResponseKind::Add);
    assert_eq!(a.status, OperationStatus::Success);
}

#[test]
fn a_set_command_is_all_or_nothing() {
    let int_var = Some(ItemMeta { name: "x".to_string(), i_type: 2, var_d_type: Some(1) });
    let ok = vec![
        ("a/x".to_string(), Ok(int_var.clone()), Some(Some(ValueKind::Float))),
        ("b/y".to_string(), Ok(int_var.clone()), Some(Some(ValueKind::Integer))),
    ];
    let steps = plan_set_all(&ok).unwrap();
    assert_eq!(steps.len(), 2);
    assert_eq!(steps[0].var_id, "/a/x");
    assert_eq!(steps[0].kind, ValueKind::Integer);
    assert_eq!(steps[1].data_key, "D:/b/y");
    let refused = vec![
        ("a/x".to_string(), Ok(int_var.clone()), Some(Some(ValueKind::Integer))),
        ("b/y".to_string(), Ok(int_var.clone()), Some(Some(ValueKind::Text))),
        ("c/z".to_string(), Err("Error reading tree: io".to_string()), Some(Some(ValueKind::Integer))),
    ];
    assert_eq!(plan_set_all(&refused).err(), Some("Mismatch data type.".to_string()));
    let unread = vec![
        ("c/z".to_string(), Err("Error reading tree: io".to_string()), Some(Some(ValueKind::Integer))),
        ("a/x".to_string(), Ok(None), Some(Some(ValueKind::Integer))),
    ];
    assert_eq!(plan_set_all(&unread).err(), Some("Error reading tree: io".to_string()));
    let missing = vec![("a/x".to_string(), Ok(None), Some(Some(ValueKind::Integer)))];
    assert_eq!(plan_set_all(&missing).err(), Some("Missing variable.".to_string()));
}
