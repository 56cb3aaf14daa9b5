//! The message and item types of the real-time namespace.
use vstd::prelude::*;

verus! {

/// Metadata stored with the namespace root.
#[derive(Clone, Debug)]
pub enum Meta {
    RootUid([u8; 16]),
    Vendor(String),
}

/// The kind of a namespace item.
#[derive(Clone, Copy, Debug, PartialEq, Eq, Structural)]
pub enum ItemType {
    Invalid,
    Folder,
    Variable,
}

/// The data type of a variable.
#[derive(Clone, Copy, Debug, PartialEq, Eq, Structural)]
pub enum VarDataType {
    Invalid,
    Integer,
    Float,
    Text,
    Boolean,
}

/// Outcome code carried by every response.
#[derive(Clone, Copy, Debug, PartialEq, Eq, Structural)]
pub enum OperationStatus {
    Invalid,
    Success,
    Failure,
}

/// The event streams a client can subscribe to.
#[derive(Clone, Copy, Debug, PartialEq, Eq, Structural)]
pub enum EventType {
    Invalid,
    VarValues,
    TreeChange,
}

/// Wire code of an item type.
pub open spec fn item_type_code(t: ItemType) -> i32 {
    match t {
        ItemType::Invalid => 0,
        ItemType::Folder => 1,
        ItemType::Variable => 2,
    }
}

/// Wire code of a variable data type.
pub open spec fn var_data_type_code(t: VarDataType) -> i32 {
    match t {
        VarDataType::Invalid => 0,
        VarDataType::Integer => 1,
        VarDataType::Float => 2,
        VarDataType::Text => 3,
        VarDataType::Boolean => 4,
    }
}

/// Wire code of an operation status.
pub open spec fn status_code(s: OperationStatus) -> i32 {
    match s {
        OperationStatus::Invalid => 0,
        OperationStatus::Success => 1,
        OperationStatus::Failure => 2,
    }
}

/// Wire code of an event type.
pub open spec fn event_type_code(e: EventType) -> i32 {
    match e {
        EventType::Invalid => 0,
        EventType::VarValues => 1,
        EventType::TreeChange => 2,
    }
}

impl ItemType {
    /// The wire code of this item type.
    pub fn code(self) -> (c: i32)
        ensures
            c == item_type_code(self),
    {
        match self {
            ItemType::Invalid => 0,
            ItemType::Folder => 1,
            ItemType::Variable => 2,
        }
    }
}

impl VarDataType {
    /// The wire code of this data type.
    pub fn code(self) -> (c: i32)
        ensures
            c == var_data_type_code(self),
    {
        match self {
            VarDataType::Invalid => 0,
            VarDataType::Integer => 1,
            VarDataType::Float => 2,
            VarDataType::Text => 3,
            VarDataType::Boolean => 4,
        }
    }
}

impl OperationStatus {
    /// The wire code of this status.
    pub fn code(self) -> (c: i32)
        ensures
            c == status_code(self),
    {
        match self {
            OperationStatus::Invalid => 0,
            OperationStatus::Success => 1,
            OperationStatus::Failure => 2,
        }
    }
}

impl EventType {
    /// The wire code of this event type.
    pub fn code(self) -> (c: i32)
        ensures
            c == event_type_code(self),
    {
        match self {
            EventType::Invalid => 0,
            EventType::VarValues => 1,
            EventType::TreeChange => 2,
        }
    }
}

/// Name, kind and data type of one item, as stored under its hierarchy key.
#[derive(Clone, Debug)]
pub struct ItemMeta {
    pub name: String,
    pub i_type: i32,
    pub var_d_type: Option<i32>,
}

impl ItemMeta {
    /// An identical copy.
    pub fn copy(&self) -> (r: ItemMeta)
        ensures
            r == *self,
    {
        ItemMeta { name: self.name.clone(), i_type: self.i_type, var_d_type: self.var_d_type }
    }
}

/// A folder as reported to clients.
#[derive(Clone, Debug)]
pub struct FolderInfo {
    pub id: String,
    pub name: String,
}

/// A variable as reported to clients.
#[derive(Clone, Debug)]
pub struct VarInfo {
    pub id: String,
    pub name: String,
    pub var_d_type: i32,
}

/// What changed inside one folder.
#[derive(Clone, Debug)]
pub struct FolderChanged {
    pub folder_id: String,
    pub reload: bool,
    pub removed_items: Vec<String>,
    pub new_folders: Vec<FolderInfo>,
    pub new_variables: Vec<VarInfo>,
}

/// A change of the namespace tree, folder by folder.
#[derive(Clone, Debug)]
pub struct TreeChanged {
    pub folder_changed_event: Vec<FolderChanged>,
}

/// The payload of an event.
#[derive(Clone, Debug)]
pub enum Ev {
    TreeChangedEv(TreeChanged),
}

/// An event broadcast to subscribed clients.
#[derive(Clone, Debug)]
pub struct Event {
    pub ev: Option<Ev>,
}

/// Request to create items under a folder.
#[derive(Clone, Debug)]
pub struct AddCommand {
    pub cmd_id: String,
    pub parent_id: Option<String>,
    pub items_meta: Vec<ItemMeta>,
}

/// Answer to an [`AddCommand`].
#[derive(Clone, Debug)]
pub struct AddResponse {
    pub cmd_id: String,
}

/// Request to list the children of a folder (the root when `folder_id` is `None`).
#[derive(Clone, Debug)]
pub struct ListCommand {
    pub cmd_id: String,
    pub folder_id: Option<String>,
}

/// Answer to a [`ListCommand`].
#[derive(Clone, Debug)]
pub struct ListResponse {
    pub cmd_id: String,
    pub folders: Vec<FolderInfo>,
    pub variables: Vec<VarInfo>,
}

/// Answer to a request that sets values.
#[derive(Clone, Debug)]
pub struct SetResponse {
    pub cmd_id: String,
}

/// Request to read the values of variables.
#[derive(Clone, Debug)]
pub struct GetCommand {
    pub cmd_id: String,
    pub var_ids: Vec<String>,
}

/// Request to delete items (and everything below them).
#[derive(Clone, Debug)]
pub struct DelCommand {
    pub cmd_id: String,
    pub item_ids: Vec<String>,
}

/// Answer to a [`DelCommand`].
#[derive(Clone, Debug)]
pub struct DelResponse {
    pub cmd_id: String,
}

/// Request to start receiving events.
#[derive(Clone, Debug)]
pub struct SubscribeCommand {
    pub cmd_id: String,
    pub events: Vec<i32>,
    pub var_ids: Vec<String>,
}

/// Request to stop receiving events.
#[derive(Clone, Debug)]
pub struct UnsubscribeCommand {
    pub cmd_id: String,
    pub events: Vec<i32>,
    pub var_ids: Vec<String>,
}

} // verus!
