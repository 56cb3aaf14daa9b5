//! The tree-change event of an add command, read from the command itself.
use vstd::prelude::*;

use crate::events::is_add_event;
use crate::namespace::{AddCommand, Event, ItemMeta};

verus! {

/// The tree-change event of `add_cmd` once its items exist: the parent id comes from
/// the command, and a command without one gives the error "Missing parent id".
pub fn extract_add_event(
    add_cmd: AddCommand,
    reload: bool,
    new_folders_imeta: Vec<ItemMeta>,
    new_variables_imeta: Vec<ItemMeta>,
) -> (res: Result<Event, String>)
    ensures
        match add_cmd.parent_id {
            Some(folder_id) => match res {
                Ok(e) => is_add_event(
                    e,
                    folder_id@,
                    reload,
                    new_folders_imeta@,
                    new_variables_imeta@,
                ),
                Err(_) => false,
            },
            None => match res {
                Ok(_) => false,
                Err(msg) => msg@ == "Missing parent id"@,
            },
        },
{
    match add_cmd.parent_id {
        Some(folder_id) => crate::events::extract_add_event(
            folder_id.as_str(),
            reload,
            new_folders_imeta,
            new_variables_imeta,
        ),
        None => Err("Missing parent id".to_owned()),
    }
}

} // verus!
