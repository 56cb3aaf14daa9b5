//! Reading a bulk namespace description written in JSON: objects are folders, an object
//! with a "variable" member or a type name is a variable.
use vstd::prelude::*;

use crate::client::{dtype_of_name, string_to_dtype, ClientError};
use crate::namespace::var_data_type_code;
use crate::text::{chars_eq, chars_of};

use serde_json::Value;

verus! {

/// A JSON number: its text and, when it is an integer between 0 and `u64::MAX`, its value.
#[derive(Clone, Debug)]
pub struct JsonNumber {
    pub text: String,
    pub unsigned: Option<u64>,
}

impl JsonNumber {
    /// An identical copy.
    pub fn copy(&self) -> (r: JsonNumber)
        ensures
            r == *self,
    {
        JsonNumber { text: self.text.clone(), unsigned: self.unsigned }
    }
}

/// A JSON value; object members keep their order.
pub enum JsonValue {
    Null,
    Bool(bool),
    Number(JsonNumber),
    Str(String),
    Array(Vec<JsonValue>),
    Object(Vec<(String, JsonValue)>),
}

/// A variable of the namespace description.
pub struct SchemaVariable {
    pub var_d_type: i32,
    pub unit: Option<String>,
    pub min: Option<JsonNumber>,
    pub max: Option<JsonNumber>,
    pub options: Vec<String>,
    pub max_len: Option<u64>,
}

/// A node of the namespace description.
pub enum SchemaNode {
    Variable(SchemaVariable),
    Folder(Vec<(String, SchemaNode)>),
}

/// The value of member `key` of an object, the first one when the key repeats.
pub open spec fn member(obj: Seq<(String, JsonValue)>, key: Seq<char>) -> Option<JsonValue>
    decreases obj.len(),
{
    if obj.len() == 0 {
        None
    } else if obj[0].0@ == key {
        Some(obj[0].1)
    } else {
        member(obj.drop_first(), key)
    }
}

/// The strings of an array, in order, skipping other values.
pub open spec fn strings_of(arr: Seq<JsonValue>) -> Seq<Seq<char>>
    decreases arr.len(),
{
    if arr.len() == 0 {
        Seq::empty()
    } else {
        let rest = strings_of(arr.drop_last());
        match arr.last() {
            JsonValue::Str(s) => rest.push(s@),
            _ => rest,
        }
    }
}

/// Why a "variable" member cannot be read: it is not an object, or its "var_d_type" is
/// not a string.
pub open spec fn variable_error(val: JsonValue) -> Option<Seq<char>> {
    match val {
        JsonValue::Object(obj) => match member(obj@, "var_d_type"@) {
            Some(JsonValue::Str(_)) => None,
            _ => Some("variable.var_d_type missing"@),
        },
        _ => Some("variable must be an object"@),
    }
}

/// Whether `r` is the variable a readable "variable" member describes: its type name's
/// data type, its unit when a string, its bounds when numbers, the strings among its
/// options, and its maximum length when a non-negative integer.
pub open spec fn variable_is(val: JsonValue, r: SchemaVariable) -> bool {
    match val {
        JsonValue::Object(obj) => {
            &&& member(obj@, "var_d_type"@) matches Some(JsonValue::Str(t)) && r.var_d_type
                == var_data_type_code(dtype_of_name(t@))
            &&& match member(obj@, "unit"@) {
                Some(JsonValue::Str(u)) => r.unit matches Some(x) && x@ == u@,
                _ => r.unit is None,
            }
            &&& match member(obj@, "min"@) {
                Some(JsonValue::Number(n)) => r.min == Some(n),
                _ => r.min is None,
            }
            &&& match member(obj@, "max"@) {
                Some(JsonValue::Number(n)) => r.max == Some(n),
                _ => r.max is None,
            }
            &&& r.options@.map_values(|s: String| s@) == match member(obj@, "options"@) {
                Some(JsonValue::Array(a)) => strings_of(a@),
                _ => Seq::empty(),
            }
            &&& r.max_len == match member(obj@, "max_len"@) {
                Some(JsonValue::Number(n)) => n.unsigned,
                _ => None,
            }
        },
        _ => false,
    }
}

/// Why a node cannot be read, the first reason in member order; `None` when it can.
pub open spec fn node_error(v: JsonValue) -> Option<Seq<char>>
    decreases v, 1int, 0int,
{
    match v {
        JsonValue::Object(obj) => match member(obj@, "variable"@) {
            Some(var) => variable_error(var),
            None => members_error(v, 0),
        },
        JsonValue::Str(_) => None,
        _ => Some("Invalid namespace JSON structure"@),
    }
}

/// The first reason among members `i..` of object `v` why one cannot be read.
pub open spec fn members_error(v: JsonValue, i: int) -> Option<Seq<char>>
    decreases v, 0int, (match v {
        JsonValue::Object(obj) => obj@.len() - i,
        _ => 0,
    }),
{
    match v {
        JsonValue::Object(obj) => if 0 <= i < obj@.len() {
            match node_error(obj@[i].1) {
                Some(e) => Some(e),
                None => members_error(v, i + 1),
            }
        } else {
            None
        },
        _ => None,
    }
}

/// Whether `n` is the node a readable value describes: a variable for an object with a
/// "variable" member or for a type name; a folder of the object's members otherwise.
pub open spec fn node_is(v: JsonValue, n: SchemaNode) -> bool
    decreases v, 1int, 0int,
{
    match v {
        JsonValue::Object(obj) => match member(obj@, "variable"@) {
            Some(var) => n matches SchemaNode::Variable(sv) && variable_is(var, sv),
            None => match n {
                SchemaNode::Folder(ch) => ch@.len() == obj@.len() && members_are(v, ch@, 0),
                _ => false,
            },
        },
        JsonValue::Str(t) => match n {
            SchemaNode::Variable(sv) => {
                &&& sv.var_d_type == var_data_type_code(dtype_of_name(t@))
                &&& sv.unit is None
                &&& sv.min is None
                &&& sv.max is None
                &&& sv.options@.len() == 0
                &&& sv.max_len is None
            },
            _ => false,
        },
        _ => false,
    }
}

/// Whether members `i..` of object `v` are described by `ch` at the same places.
pub open spec fn members_are(v: JsonValue, ch: Seq<(String, SchemaNode)>, i: int) -> bool
    decreases v, 0int, (match v {
        JsonValue::Object(obj) => obj@.len() - i,
        _ => 0,
    }),
{
    match v {
        JsonValue::Object(obj) => if 0 <= i < obj@.len() {
            &&& i < ch.len()
            &&& ch[i].0@ == obj@[i].0@
            &&& node_is(obj@[i].1, ch[i].1)
            &&& members_are(v, ch, i + 1)
        } else {
            true
        },
        _ => true,
    }
}

fn member_index(obj: &Vec<(String, JsonValue)>, key: &str) -> (r: Option<usize>)
    ensures
        match r {
            Some(i) => i < obj@.len() && member(obj@, key@) == Some(obj@[i as int].1),
            None => member(obj@, key@) is None,
        },
{
    let k = chars_of(key);
    let mut i: usize = 0;
    proof {
        assert(obj@.skip(0) =~= obj@);
    }
    while i < obj.len()
        invariant
            i <= obj@.len(),
            k@ == key@,
            member(obj@, key@) == member(obj@.skip(i as int), key@),
        decreases obj.len() - i,
    {
        let c = chars_of(obj[i].0.as_str());
        if chars_eq(c.as_slice(), k.as_slice()) {
            proof {
                assert(obj@.skip(i as int)[0] == obj@[i as int]);
            }
            return Some(i);
        }
        proof {
            assert(obj@.skip(i as int).drop_first() =~= obj@.skip(i + 1));
        }
        i += 1;
    }
    None
}

fn member_str(obj: &Vec<(String, JsonValue)>, key: &str) -> (r: Option<String>)
    ensures
        match member(obj@, key@) {
            Some(JsonValue::Str(s)) => r matches Some(x) && x@ == s@,
            _ => r is None,
        },
{
    match member_index(obj, key) {
        Some(i) => match &obj[i].1 {
            JsonValue::Str(s) => Some(s.clone()),
            _ => None,
        },
        None => None,
    }
}

fn member_number(obj: &Vec<(String, JsonValue)>, key: &str) -> (r: Option<JsonNumber>)
    ensures
        match member(obj@, key@) {
            Some(JsonValue::Number(n)) => r == Some(n),
            _ => r is None,
        },
{
    match member_index(obj, key) {
        Some(i) => match &obj[i].1 {
            JsonValue::Number(n) => Some(n.copy()),
            _ => None,
        },
        None => None,
    }
}

fn strings_in(arr: &Vec<JsonValue>) -> (r: Vec<String>)
    ensures
        r@.map_values(|s: String| s@) == strings_of(arr@),
{
    let mut r: Vec<String> = Vec::new();
    let mut j: usize = 0;
    proof {
        assert(arr@.take(0) =~= Seq::<JsonValue>::empty());
        assert(r@.map_values(|s: String| s@) =~= Seq::<Seq<char>>::empty());
    }
    while j < arr.len()
        invariant
            j <= arr@.len(),
            r@.map_values(|s: String| s@) == strings_of(arr@.take(j as int)),
        decreases arr.len() - j,
    {
        let ghost before = r@;
        proof {
            let t = arr@.take(j + 1);
            assert(t.drop_last() =~= arr@.take(j as int));
            assert(t.last() == arr@[j as int]);
        }
        match &arr[j] {
            JsonValue::Str(s) => {
                r.push(s.clone());
                proof {
                    assert(r@.map_values(|s: String| s@) =~= before.map_values(|s: String| s@).push(
                        s@,
                    ));
                }
            },
            _ => {},
        }
        j += 1;
    }
    proof {
        assert(arr@.take(arr.len() as int) =~= arr@);
    }
    r
}

/// Reads a "variable" member (see `variable_error` and `variable_is`).
pub fn build_namespace_variable(val: &JsonValue) -> (r: Result<SchemaVariable, ClientError>)
    ensures
        match variable_error(*val) {
            Some(m) => r matches Err(ClientError::InvalidInput(x)) && x@ == m,
            None => r matches Ok(sv) && variable_is(*val, sv),
        },
{
    match val {
        JsonValue::Object(obj) => {
            let dtype = match member_str(obj, "var_d_type") {
                Some(t) => string_to_dtype(t.as_str()),
                None => {
                    return Err(ClientError::InvalidInput("variable.var_d_type missing".to_owned()));
                },
            };
            let unit = member_str(obj, "unit");
            let min = member_number(obj, "min");
            let max = member_number(obj, "max");
            let options = match member_index(obj, "options") {
                Some(i) => match &obj[i].1 {
                    JsonValue::Array(a) => strings_in(a),
                    _ => {
                        let e: Vec<String> = Vec::new();
                        proof {
                            assert(e@.map_values(|s: String| s@) =~= Seq::<Seq<char>>::empty());
                        }
                        e
                    },
                },
                None => {
                    let e: Vec<String> = Vec::new();
                    proof {
                        assert(e@.map_values(|s: String| s@) =~= Seq::<Seq<char>>::empty());
                    }
                    e
                },
            };
            let max_len = match member_index(obj, "max_len") {
                Some(i) => match &obj[i].1 {
                    JsonValue::Number(n) => n.unsigned,
                    _ => None,
                },
                None => None,
            };
            Ok(SchemaVariable { var_d_type: dtype.code(), unit, min, max, options, max_len })
        },
        _ => Err(ClientError::InvalidInput("variable must be an object".to_owned())),
    }
}

proof fn lemma_members_are(v: JsonValue, ch: Seq<(String, SchemaNode)>, i: int)
    requires
        v is Object,
        0 <= i <= v->Object_0@.len(),
        ch.len() == v->Object_0@.len(),
        forall|j: int|
            i <= j < ch.len() ==> (#[trigger] ch[j]).0@ == v->Object_0@[j].0@ && node_is(
                v->Object_0@[j].1,
                ch[j].1,
            ),
    ensures
        members_are(v, ch, i),
    decreases v->Object_0@.len() - i,
{
    if i < v->Object_0@.len() {
        lemma_members_are(v, ch, i + 1);
        assert(ch[i].0@ == v->Object_0@[i].0@);
    }
}

proof fn lemma_members_error_skip(v: JsonValue, i: int, k: int)
    requires
        v is Object,
        0 <= i <= k <= v->Object_0@.len(),
        forall|j: int| i <= j < k ==> node_error(#[trigger] v->Object_0@[j].1) is None,
    ensures
        members_error(v, i) == members_error(v, k),
    decreases k - i,
{
    if i < k {
        assert(node_error(v->Object_0@[i].1) is None);
        lemma_members_error_skip(v, i + 1, k);
    }
}

/// Reads a node of the description (see `node_error` and `node_is`): errors are those
/// of the first member, in order, that cannot be read.
pub fn build_namespace_node(v: &JsonValue) -> (r: Result<SchemaNode, ClientError>)
    ensures
        match node_error(*v) {
            Some(m) => r matches Err(ClientError::InvalidInput(x)) && x@ == m,
            None => r matches Ok(n) && node_is(*v, n),
        },
    decreases *v, 1int, 0int,
{
    match v {
        JsonValue::Object(obj) => {
            match member_index(obj, "variable") {
                Some(i) => {
                    let var = build_namespace_variable(&obj[i].1);
                    match var {
                        Ok(sv) => Ok(SchemaNode::Variable(sv)),
                        Err(e) => Err(e),
                    }
                },
                None => {
                    let mut ch: Vec<(String, SchemaNode)> = Vec::new();
                    let mut j: usize = 0;
                    while j < obj.len()
                        invariant
                            j <= obj@.len(),
                            *v == JsonValue::Object(*obj),
                            member(obj@, "variable"@) is None,
                            ch@.len() == j,
                            forall|k: int|
                                0 <= k < j ==> (#[trigger] ch@[k]).0@ == obj@[k].0@ && node_is(
                                    obj@[k].1,
                                    ch@[k].1,
                                ),
                            forall|k: int| 0 <= k < j ==> node_error(#[trigger] obj@[k].1) is None,
                        decreases obj.len() - j,
                    {
                        proof {
                            assert(decreases_to!(*v => obj@[j as int].1));
                        }
                        let child = build_namespace_node(&obj[j].1);
                        match child {
                            Ok(n) => {
                                ch.push((obj[j].0.clone(), n));
                            },
                            Err(e) => {
                                proof {
                                    lemma_members_error_skip(*v, 0, j as int);
                                    assert(node_error(obj@[j as int].1) is Some);
                                    assert(members_error(*v, j as int) == node_error(obj@[j as int].1));
                                    assert(node_error(*v) == members_error(*v, 0));
                                }
                                return Err(e);
                            },
                        }
                        j += 1;
                    }
                    proof {
                        lemma_members_error_skip(*v, 0, obj@.len() as int);
                        lemma_members_are(*v, ch@, 0);
                        assert(node_error(*v) == members_error(*v, 0));
                    }
                    Ok(SchemaNode::Folder(ch))
                },
            }
        },
        JsonValue::Str(t) => {
            let d = string_to_dtype(t.as_str());
            Ok(
                SchemaNode::Variable(
                    SchemaVariable {
                        var_d_type: d.code(),
                        unit: None,
                        min: None,
                        max: None,
                        options: Vec::new(),
                        max_len: None,
                    },
                ),
            )
        },
        _ => Err(ClientError::InvalidInput("Invalid namespace JSON structure".to_owned())),
    }
}

/// Reads the roots of a description: the members of its top-level object, in order.
/// Refused with "Root JSON must be an object" for any other value, and with the first
/// member's error, in order, that cannot be read.
pub fn build_roots(v: &JsonValue) -> (r: Result<Vec<(String, SchemaNode)>, ClientError>)
    ensures
        !(v is Object) ==> (r matches Err(ClientError::InvalidInput(x)) && x@
            == "Root JSON must be an object"@),
        v is Object ==> match members_error(*v, 0) {
            Some(m) => r matches Err(ClientError::InvalidInput(x)) && x@ == m,
            None => r matches Ok(ch) && ch@.len() == v->Object_0@.len() && members_are(*v, ch@, 0),
        },
{
    match v {
        JsonValue::Object(obj) => {
            let mut ch: Vec<(String, SchemaNode)> = Vec::new();
            let mut j: usize = 0;
            while j < obj.len()
                invariant
                    j <= obj@.len(),
                    *v == JsonValue::Object(*obj),
                    ch@.len() == j,
                    forall|k: int|
                        0 <= k < j ==> (#[trigger] ch@[k]).0@ == obj@[k].0@ && node_is(
                            obj@[k].1,
                            ch@[k].1,
                        ),
                    forall|k: int| 0 <= k < j ==> node_error(#[trigger] obj@[k].1) is None,
                decreases obj.len() - j,
            {
                let child = build_namespace_node(&obj[j].1);
                match child {
                    Ok(n) => {
                        ch.push((obj[j].0.clone(), n));
                    },
                    Err(e) => {
                        proof {
                            lemma_members_error_skip(*v, 0, j as int);
                        }
                        return Err(e);
                    },
                }
                j += 1;
            }
            proof {
                lemma_members_error_skip(*v, 0, obj@.len() as int);
                lemma_members_are(*v, ch@, 0);
            }
            Ok(ch)
        },
        _ => Err(ClientError::InvalidInput("Root JSON must be an object".to_owned())),
    }
}


/// A JSON document as serde_json holds it.
#[verifier::external_type_specification]
#[verifier::external_body]
pub struct ExJsonDocument(serde_json::Value);

/// The JSON value that `serde_json::from_str::<serde_json::Value>` reads from `text`,
/// taken variant by variant into a `JsonValue` (objects keep the order of their
/// members; a number as its text and, for a whole number from 0 to `u64::MAX`, its
/// value), or none when the text is not JSON.
pub uninterp spec fn json_value_of(text: Seq<char>) -> Option<JsonValue>;

/// Takes a serde_json value into a `JsonValue`, variant by variant: a number becomes its
/// `to_string` text and its `as_u64`, and arrays and objects are taken member by member,
/// in their order.
#[verifier::external_body]
fn value_of_serde(v: &Value) -> JsonValue {
    match v {
        Value::Null => JsonValue::Null,
        Value::Bool(b) => JsonValue::Bool(*b),
        Value::Number(n) => JsonValue::Number(JsonNumber { text: n.to_string(), unsigned: n.as_u64() }),
        Value::String(s) => JsonValue::Str(s.clone()),
        Value::Array(a) => JsonValue::Array(a.iter().map(value_of_serde).collect()),
        Value::Object(o) => JsonValue::Object(o.iter().map(|(k, x)| (k.clone(), value_of_serde(x))).collect()),
    }
}

/// Calls `serde_json::from_str::<serde_json::Value>` on `text` and takes the value read
/// into a `JsonValue`; none when serde_json refuses the text. The result is a function
/// of the text (`json_value_of`).
#[verifier::external_body]
fn read_json(text: &str) -> (r: Option<JsonValue>)
    ensures
        r == json_value_of(text@),
{
    serde_json::from_str::<Value>(text).ok().map(|v| value_of_serde(&v))
}

/// Reads the roots of a bulk description given as JSON text (see `build_roots`):
/// refused with "Invalid JSON" when the text is not JSON.
pub fn bulk_roots_from_json(json: &str) -> (r: Result<Vec<(String, SchemaNode)>, ClientError>)
    ensures
        json_value_of(json@) is None ==> (r matches Err(ClientError::InvalidInput(m)) && m@ == "Invalid JSON"@),
        json_value_of(json@) matches Some(v) ==> {
            &&& !(v is Object) ==> (r matches Err(ClientError::InvalidInput(x)) && x@ == "Root JSON must be an object"@)
            &&& v is Object ==> match members_error(v, 0) {
                Some(m) => r matches Err(ClientError::InvalidInput(x)) && x@ == m,
                None => r matches Ok(ch) && ch@.len() == v->Object_0@.len() && members_are(v, ch@, 0),
            }
        },
{
    match read_json(json) {
        None => Err(ClientError::InvalidInput("Invalid JSON".to_owned())),
        Some(v) => build_roots(&v),
    }
}

} // verus!
