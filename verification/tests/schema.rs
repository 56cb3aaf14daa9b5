use lirays_scada::auth::{auth_secret, logout_answer, session_secret};
use lirays_scada::client::{boolean_items, folder_items, text_items, BooleanVar, ClientError, TextVar};
use lirays_scada::schema::{build_namespace_node, build_namespace_variable, build_roots, JsonNumber, JsonValue, SchemaNode};
use lirays_scada::views::ViewManagerError;
use lirays_scada::web::{on_incoming, unique_violation_error, view_error_message, Frame, Incoming, WsAction};

fn s(x: &str) -> JsonValue {
    JsonValue::Str(x.to_string())
}

fn num(text: &str, unsigned: Option<u64>) -> JsonValue {
    JsonValue::Number(JsonNumber { text: text.to_string(), unsigned })
}

fn obj(members: Vec<(&str, JsonValue)>) -> JsonValue {
    JsonValue::Object(members.into_iter().map(|(k, v)| (k.to_string(), v)).collect())
}

fn invalid(r: Result<SchemaNode, ClientError>) -> String {
    match r {
        Err(ClientError::InvalidInput(m)) => m,
        _ => panic!("expected invalid input"),
    }
}

#[test]
fn type_names_and_objects_become_nodes() {
    match build_namespace_node(&s("Float")).unwrap() {
        SchemaNode::Variable(v) => {
            assert_eq!(v.var_d_type, 2);
            assert!(v.unit.is_none() && v.min.is_none() && v.options.is_empty());
        }
        _ => panic!("type name not a variable"),
    }
    let tree = obj(vec![
        ("pump", obj(vec![("on", s("bool")), ("speed", s("int"))])),
        ("label", s("text")),
    ]);
    match build_namespace_node(&tree).unwrap() {
        SchemaNode::Folder(ch) => {
            assert_eq!(ch.len(), 2);
            assert_eq!(ch[0].0, "pump");
            match &ch[0].1 {
                SchemaNode::Folder(inner) => assert_eq!(inner.len(), 2),
                _ => panic!("folder expected"),
            }
            match &ch[1].1 {
                SchemaNode::Variable(v) => assert_eq!(v.var_d_type, 3),
                _ => panic!("variable expected"),
            }
        }
        _ => panic!("object not a folder"),
    }
}

#[test]
fn variable_members_carry_metadata() {
    let var = obj(vec![
        ("var_d_type", s("integer")),
        ("unit", s("rpm")),
        ("min", num("0", Some(0))),
        ("max", num("1.5", None)),
        ("options", JsonValue::Array(vec![s("a"), num("3", Some(3)), s("b")])),
        ("max_len", num("-1", None)),
    ]);
    let v = build_namespace_variable(&var).unwrap();
    assert_eq!(v.var_d_type, 1);
    assert_eq!(v.unit.as_deref(), Some("rpm"));
    assert_eq!(v.min.unwrap().text, "0");
    assert_eq!(v.max.unwrap().text, "1.5");
    assert_eq!(v.options, vec!["a", "b"]);
    assert!(v.max_len.is_none());
    let node = obj(vec![("variable", obj(vec![("var_d_type", s("bool")), ("max_len", num("7", Some(7)))]))]);
    match build_namespace_node(&node).unwrap() {
        SchemaNode::Variable(v) => {
            assert_eq!(v.var_d_type, 4);
            assert_eq!(v.max_len, Some(7));
        }
        _ => panic!("variable member not read"),
    }
}

#[test]
fn unreadable_descriptions_are_refused() {
    assert_eq!(invalid(build_namespace_node(&JsonValue::Null)), "Invalid namespace JSON structure");
    assert_eq!(invalid(build_namespace_node(&num("1", Some(1)))), "Invalid namespace JSON structure");
    assert_eq!(
        invalid(build_namespace_node(&obj(vec![("variable", s("int"))]))),
        "variable must be an object"
    );
    assert_eq!(
        invalid(build_namespace_node(&obj(vec![("variable", obj(vec![("unit", s("x"))]))]))),
        "variable.var_d_type missing"
    );
    assert_eq!(
        invalid(build_namespace_node(&obj(vec![("a", s("int")), ("b", JsonValue::Bool(true))]))),
        "Invalid namespace JSON structure"
    );
    match build_roots(&s("x")) {
        Err(ClientError::InvalidInput(m)) => assert_eq!(m, "Root JSON must be an object"),
        _ => panic!("non-object root accepted"),
    }
    let roots = build_roots(&obj(vec![("a", s("int")), ("b", obj(vec![]))])).unwrap();
    assert_eq!(roots.len(), 2);
}

#[test]
fn client_items_describe_what_to_create() {
    let f = folder_items(&vec!["x".to_string(), "y".to_string()]);
    assert_eq!(f.len(), 2);
    assert_eq!((f[1].name.as_str(), f[1].i_type, f[1].var_d_type), ("y", 1, None));
    let t = text_items(&vec![TextVar {
        name: "msg".to_string(),
        unit: Some("u".to_string()),
        options: vec!["o1".to_string()],
        max_len: Some(5),
    }]);
    assert_eq!((t[0].i_type, t[0].var_d_type, t[0].max_len), (2, Some(3), Some(5)));
    assert_eq!(t[0].options, vec!["o1"]);
    let b = boolean_items(&vec![BooleanVar { name: "on".to_string(), unit: None }]);
    assert_eq!((b[0].name.as_str(), b[0].var_d_type), ("on", Some(4)));
}

#[test]
fn logout_and_secrets() {
    let (revoke, cookie) = logout_answer(false, true);
    assert!(!revoke && cookie.is_none());
    let (revoke, cookie) = logout_answer(true, true);
    assert!(revoke);
    let c = cookie.unwrap();
    assert_eq!((c.value.as_str(), c.max_age, c.secure), ("", Some(0), true));
    assert_eq!(auth_secret(Some(vec![1, 2]), true), Ok(vec![1, 2]));
    assert_eq!(
        auth_secret(None, true),
        Err("AUTH_ENABLED=true but no auth.secret provided; set AUTH_SECRET or auth.secret in settings.".to_string())
    );
    assert_eq!(auth_secret(None, false).unwrap().len(), 32);
    assert_eq!(session_secret(&vec![0xfb, 0xff]), "-_8");
    assert_eq!(session_secret(&b"hello".to_vec()), "aGVsbG8");
}

#[test]
fn write_errors_and_frames_are_classified() {
    match unique_violation_error(Some("UNIQUE constraint failed: VIEWS.NAME"), "db".to_string(), "Main") {
        ViewManagerError::DuplicateName(n) => assert_eq!(n, "Main"),
        _ => panic!("duplicate not recognised"),
    }
    match unique_violation_error(Some("UNIQUE constraint failed: views.id"), "db text".to_string(), "Main") {
        ViewManagerError::Database(t) => assert_eq!(t, "db text"),
        _ => panic!("other violation taken as duplicate"),
    }
    match unique_violation_error(None, "io".to_string(), "Main") {
        ViewManagerError::Database(t) => assert_eq!(t, "io"),
        _ => panic!("plain error taken as duplicate"),
    }
    assert_eq!(view_error_message(ViewManagerError::NotFound), "View not found");
    assert!(matches!(on_incoming(&Incoming::Frame(Frame::Binary)), WsAction::Execute { as_json: false }));
    assert!(matches!(on_incoming(&Incoming::Frame(Frame::Text)), WsAction::Execute { as_json: true }));
    assert!(matches!(on_incoming(&Incoming::Frame(Frame::Ping)), WsAction::Pong));
    assert!(matches!(on_incoming(&Incoming::Frame(Frame::Other)), WsAction::Skip));
    assert!(matches!(on_incoming(&Incoming::Frame(Frame::Close)), WsAction::Stop { expected: true }));
    assert!(matches!(
        on_incoming(&Incoming::ReadError("Connection reset by peer".to_string())),
        WsAction::Stop { expected: true }
    ));
    assert!(matches!(on_incoming(&Incoming::ReadError("bad frame".to_string())), WsAction::Stop { expected: false }));
    assert!(matches!(on_incoming(&Incoming::Ended), WsAction::Stop { expected: true }));
}

fn invalid_roots(r: Result<Vec<(String, SchemaNode)>, ClientError>) -> String {
    match r {
        Err(ClientError::InvalidInput(m)) => m,
        _ => panic!("expected invalid input"),
    }
}

#[test]
fn bulk_descriptions_are_read_from_json_text() {
    let roots = lirays_scada::schema::bulk_roots_from_json(
        r#"{"plant": {"speed": "Float", "mode": {"variable": {"var_d_type": "Text", "options": ["a", "b"], "max_len": 8, "min": 1.5}}}, "flag": "bool"}"#,
    )
    .unwrap();
    assert_eq!(roots.len(), 2);
    assert_eq!(roots[0].0, "plant");
    assert_eq!(roots[1].0, "flag");
    match &roots[0].1 {
        SchemaNode::Folder(children) => {
            assert_eq!(children.len(), 2);
            assert_eq!(children[0].0, "speed");
            assert_eq!(children[1].0, "mode");
            match &children[1].1 {
                SchemaNode::Variable(v) => {
                    assert_eq!(v.var_d_type, 3);
                    assert_eq!(v.options, vec!["a".to_string(), "b".to_string()]);
                    assert_eq!(v.max_len, Some(8));
                    assert_eq!(v.min.as_ref().map(|n| n.text.as_str()), Some("1.5"));
                }
                SchemaNode::Folder(_) => panic!("variable read as a folder"),
            }
        }
        SchemaNode::Variable(_) => panic!("folder read as a variable"),
    }
    match &roots[1].1 {
        SchemaNode::Variable(v) => assert_eq!(v.var_d_type, 4),
        SchemaNode::Folder(_) => panic!("variable read as a folder"),
    }
    assert_eq!(invalid_roots(lirays_scada::schema::bulk_roots_from_json("{not json")), "Invalid JSON");
    assert_eq!(invalid_roots(lirays_scada::schema::bulk_roots_from_json("[1, 2]")), "Root JSON must be an object");
    assert_eq!(
        invalid_roots(lirays_scada::schema::bulk_roots_from_json(r#"{"x": 5}"#)),
        "Invalid namespace JSON structure"
    );
}
