//! The client side of the real-time protocol: variable descriptions, data type names,
//! checking a response's status, and pairing ids with values.
use vstd::prelude::*;

use crate::namespace::{item_type_code, var_data_type_code, ItemType, VarDataType};
use crate::text::{ascii_lower_seq, chars_of, lower_chars};

verus! {

/// A text variable to create.
#[derive(Clone, Debug)]
pub struct TextVar {
    pub name: String,
    pub unit: Option<String>,
    pub options: Vec<String>,
    pub max_len: Option<u64>,
}

/// A boolean variable to create.
#[derive(Clone, Debug)]
pub struct BooleanVar {
    pub name: String,
    pub unit: Option<String>,
}

/// Why a client call failed.
#[derive(Clone, Debug)]
pub enum ClientError {
    NotConnected,
    ConnectionClosed,
    UnknownFrame,
    UnexpectedFrame,
    InvalidInput(String),
    OperationFailed(String),
    Timeout,
    UnexpectedText(String),
    /// A transport error, by its message.
    Ws(String),
    /// A frame that could not be decoded, by the decoder's message.
    Decode(String),
}

/// The data type a name stands for, in any case: "float"; "integer" or "int"; "text"
/// or "string"; "boolean" or "bool"; anything else is invalid.
pub open spec fn dtype_of_name(s: Seq<char>) -> VarDataType {
    let l = ascii_lower_seq(s);
    if l == seq!['f', 'l', 'o', 'a', 't'] {
        VarDataType::Float
    } else if l == seq!['i', 'n', 't', 'e', 'g', 'e', 'r'] || l == seq!['i', 'n', 't'] {
        VarDataType::Integer
    } else if l == seq!['t', 'e', 'x', 't'] || l == seq!['s', 't', 'r', 'i', 'n', 'g'] {
        VarDataType::Text
    } else if l == seq!['b', 'o', 'o', 'l', 'e', 'a', 'n'] || l == seq!['b', 'o', 'o', 'l'] {
        VarDataType::Boolean
    } else {
        VarDataType::Invalid
    }
}

fn same_chars(l: &Vec<char>, w: &[char]) -> (r: bool)
    ensures
        r == (l@ == w@),
{
    if l.len() != w.len() {
        return false;
    }
    let mut i: usize = 0;
    while i < l.len()
        invariant
            i <= l.len(),
            l.len() == w.len(),
            forall|j: int| 0 <= j < i ==> l@[j] == w@[j],
        decreases l.len() - i,
    {
        if l[i] != w[i] {
            return false;
        }
        i += 1;
    }
    proof {
        assert(l@ =~= w@);
    }
    true
}

/// The data type named by `s` (see `dtype_of_name`). Only ASCII letters are folded: no
/// other character lower-cases to a letter of the accepted names.
pub fn string_to_dtype(s: &str) -> (t: VarDataType)
    ensures
        t == dtype_of_name(s@),
{
    let v = chars_of(s);
    let l = lower_chars(v.as_slice());
    let float: [char; 5] = ['f', 'l', 'o', 'a', 't'];
    let integer: [char; 7] = ['i', 'n', 't', 'e', 'g', 'e', 'r'];
    let int3: [char; 3] = ['i', 'n', 't'];
    let text: [char; 4] = ['t', 'e', 'x', 't'];
    let string: [char; 6] = ['s', 't', 'r', 'i', 'n', 'g'];
    let boolean: [char; 7] = ['b', 'o', 'o', 'l', 'e', 'a', 'n'];
    let bool4: [char; 4] = ['b', 'o', 'o', 'l'];
    proof {
        assert(float@ =~= seq!['f', 'l', 'o', 'a', 't']);
        assert(integer@ =~= seq!['i', 'n', 't', 'e', 'g', 'e', 'r']);
        assert(int3@ =~= seq!['i', 'n', 't']);
        assert(text@ =~= seq!['t', 'e', 'x', 't']);
        assert(string@ =~= seq!['s', 't', 'r', 'i', 'n', 'g']);
        assert(boolean@ =~= seq!['b', 'o', 'o', 'l', 'e', 'a', 'n']);
        assert(bool4@ =~= seq!['b', 'o', 'o', 'l']);
    }
    if same_chars(&l, float.as_slice()) {
        VarDataType::Float
    } else if same_chars(&l, integer.as_slice()) || same_chars(&l, int3.as_slice()) {
        VarDataType::Integer
    } else if same_chars(&l, text.as_slice()) || same_chars(&l, string.as_slice()) {
        VarDataType::Text
    } else if same_chars(&l, boolean.as_slice()) || same_chars(&l, bool4.as_slice()) {
        VarDataType::Boolean
    } else {
        VarDataType::Invalid
    }
}

/// Accepts a response whose status code is that of success (1); any other status fails
/// with the response's error message, or "unknown error" when it has none.
pub fn ensure_ok(status: i32, error_msg: &Option<String>) -> (r: Result<(), ClientError>)
    ensures
        status == 1 ==> r is Ok,
        status != 1 ==> (r matches Err(ClientError::OperationFailed(m)) && m@ == match error_msg {
            Some(e) => e@,
            None => "unknown error"@,
        }),
{
    if status == 1 {
        Ok(())
    } else {
        match error_msg {
            Some(e) => Err(ClientError::OperationFailed(e.clone())),
            None => Err(ClientError::OperationFailed("unknown error".to_owned())),
        }
    }
}

/// Pairs each id with its value, converted by `to_typed`, in order. Refused when the
/// two lists differ in length.
pub fn build_pairs<T, U, F: Fn(T) -> U>(var_ids: Vec<String>, values: Vec<T>, to_typed: F) -> (r: Result<
    Vec<(String, U)>,
    ClientError,
>)
    requires
        forall|v: T| to_typed.requires((v,)),
    ensures
        var_ids@.len() != values@.len() ==> (r matches Err(ClientError::InvalidInput(m)) && m@
            == "var_ids and values must have same length"@),
        var_ids@.len() == values@.len() ==> (r matches Ok(p) && p@.len() == var_ids@.len() && forall|i: int|
            0 <= i < p@.len() ==> (#[trigger] p@[i]).0 == var_ids@[i] && to_typed.ensures(
                (values@[i],),
                p@[i].1,
            )),
{
    if var_ids.len() != values.len() {
        return Err(ClientError::InvalidInput("var_ids and values must have same length".to_owned()));
    }
    let ghost n = var_ids@.len();
    let ghost ids0 = var_ids@;
    let ghost vals0 = values@;
    let mut ids = var_ids;
    let mut vals = values;
    let mut rev: Vec<(String, U)> = Vec::new();
    while vals.len() > 0
        invariant
            ids@.len() == vals@.len(),
            ids@.len() + rev@.len() == n,
            ids0.len() == n,
            vals0.len() == n,
            forall|v: T| to_typed.requires((v,)),
            ids@ == ids0.take(ids@.len() as int),
            vals@ == vals0.take(vals@.len() as int),
            forall|k: int|
                0 <= k < rev@.len() ==> (#[trigger] rev@[k]).0 == ids0[n - 1 - k] && to_typed.ensures(
                    (vals0[n - 1 - k],),
                    rev@[k].1,
                ),
        decreases vals@.len(),
    {
        let v = vals.pop().unwrap();
        let id = ids.pop().unwrap();
        proof {
            assert(vals@ =~= vals0.take(vals@.len() as int));
            assert(ids@ =~= ids0.take(ids@.len() as int));
        }
        let u = to_typed(v);
        rev.push((id, u));
    }
    let mut out: Vec<(String, U)> = Vec::new();
    while rev.len() > 0
        invariant
            rev@.len() + out@.len() == n,
            forall|k: int|
                0 <= k < rev@.len() ==> (#[trigger] rev@[k]).0 == ids0[n - 1 - k] && to_typed.ensures(
                    (vals0[n - 1 - k],),
                    rev@[k].1,
                ),
            forall|k: int|
                0 <= k < out@.len() ==> (#[trigger] out@[k]).0 == ids0[k] && to_typed.ensures(
                    (vals0[k],),
                    out@[k].1,
                ),
        decreases rev@.len(),
    {
        let p = rev.pop().unwrap();
        out.push(p);
    }
    Ok(out)
}

/// An item the client asks the server to create: name, kind code, data type code, and
/// the metadata of text and boolean variables.
#[derive(Clone, Debug)]
pub struct ClientItem {
    pub name: String,
    pub i_type: i32,
    pub var_d_type: Option<i32>,
    pub unit: Option<String>,
    pub options: Vec<String>,
    pub max_len: Option<u64>,
}

/// Folders named `names`, in order.
pub fn folder_items(names: &Vec<String>) -> (items: Vec<ClientItem>)
    ensures
        items@.len() == names@.len(),
        forall|i: int|
            0 <= i < items@.len() ==> {
                let it = #[trigger] items@[i];
                &&& it.name == names@[i]
                &&& it.i_type == item_type_code(ItemType::Folder)
                &&& it.var_d_type is None
                &&& it.unit is None
                &&& it.options@.len() == 0
                &&& it.max_len is None
            },
{
    let mut items: Vec<ClientItem> = Vec::new();
    let mut i: usize = 0;
    while i < names.len()
        invariant
            i <= names.len(),
            items@.len() == i,
            forall|k: int|
                0 <= k < i ==> {
                    let it = #[trigger] items@[k];
                    &&& it.name == names@[k]
                    &&& it.i_type == item_type_code(ItemType::Folder)
                    &&& it.var_d_type is None
                    &&& it.unit is None
                    &&& it.options@.len() == 0
                    &&& it.max_len is None
                },
        decreases names.len() - i,
    {
        items.push(
            ClientItem {
                name: names[i].clone(),
                i_type: ItemType::Folder.code(),
                var_d_type: None,
                unit: None,
                options: Vec::new(),
                max_len: None,
            },
        );
        i += 1;
    }
    items
}

/// Text variables described by `vars`, in order, with their unit, options and maximum
/// length.
pub fn text_items(vars: &Vec<TextVar>) -> (items: Vec<ClientItem>)
    ensures
        items@.len() == vars@.len(),
        forall|i: int|
            0 <= i < items@.len() ==> {
                let it = #[trigger] items@[i];
                &&& it.name == vars@[i].name
                &&& it.i_type == item_type_code(ItemType::Variable)
                &&& it.var_d_type == Some(var_data_type_code(VarDataType::Text))
                &&& it.unit == vars@[i].unit
                &&& it.options@ == vars@[i].options@
                &&& it.max_len == vars@[i].max_len
            },
{
    let mut items: Vec<ClientItem> = Vec::new();
    let mut i: usize = 0;
    while i < vars.len()
        invariant
            i <= vars.len(),
            items@.len() == i,
            forall|k: int|
                0 <= k < i ==> {
                    let it = #[trigger] items@[k];
                    &&& it.name == vars@[k].name
                    &&& it.i_type == item_type_code(ItemType::Variable)
                    &&& it.var_d_type == Some(var_data_type_code(VarDataType::Text))
                    &&& it.unit == vars@[k].unit
                    &&& it.options@ == vars@[k].options@
                    &&& it.max_len == vars@[k].max_len
                },
        decreases vars.len() - i,
    {
        let v = &vars[i];
        let unit = match &v.unit {
            Some(u) => Some(u.clone()),
            None => None,
        };
        let mut options: Vec<String> = Vec::new();
        let mut j: usize = 0;
        while j < v.options.len()
            invariant
                j <= v.options.len(),
                options@ == v.options@.take(j as int),
            decreases v.options.len() - j,
        {
            options.push(v.options[j].clone());
            proof {
                assert(v.options@.take(j + 1) =~= v.options@.take(j as int).push(v.options@[j as int]));
            }
            j += 1;
        }
        proof {
            assert(v.options@.take(v.options.len() as int) =~= v.options@);
        }
        items.push(
            ClientItem {
                name: v.name.clone(),
                i_type: ItemType::Variable.code(),
                var_d_type: Some(VarDataType::Text.code()),
                unit,
                options,
                max_len: v.max_len,
            },
        );
        i += 1;
    }
    items
}

/// Boolean variables described by `vars`, in order, with their unit.
pub fn boolean_items(vars: &Vec<BooleanVar>) -> (items: Vec<ClientItem>)
    ensures
        items@.len() == vars@.len(),
        forall|i: int|
            0 <= i < items@.len() ==> {
                let it = #[trigger] items@[i];
                &&& it.name == vars@[i].name
                &&& it.i_type == item_type_code(ItemType::Variable)
                &&& it.var_d_type == Some(var_data_type_code(VarDataType::Boolean))
                &&& it.unit == vars@[i].unit
                &&& it.options@.len() == 0
                &&& it.max_len is None
            },
{
    let mut items: Vec<ClientItem> = Vec::new();
    let mut i: usize = 0;
    while i < vars.len()
        invariant
            i <= vars.len(),
            items@.len() == i,
            forall|k: int|
                0 <= k < i ==> {
                    let it = #[trigger] items@[k];
                    &&& it.name == vars@[k].name
                    &&& it.i_type == item_type_code(ItemType::Variable)
                    &&& it.var_d_type == Some(var_data_type_code(VarDataType::Boolean))
                    &&& it.unit == vars@[k].unit
                    &&& it.options@.len() == 0
                    &&& it.max_len is None
                },
        decreases vars.len() - i,
    {
        let v = &vars[i];
        let unit = match &v.unit {
            Some(u) => Some(u.clone()),
            None => None,
        };
        items.push(
            ClientItem {
                name: v.name.clone(),
                i_type: ItemType::Variable.code(),
                var_d_type: Some(VarDataType::Boolean.code()),
                unit,
                options: Vec::new(),
                max_len: None,
            },
        );
        i += 1;
    }
    items
}

} // verus!
