use vstd::prelude::*;

use crate::delete::item_deleted;
use crate::model::{AppData, AppDataView};
use crate::newchild::child_added;
use crate::undo::action_undone;
use crate::update::{trip_update_recorded, update_can_be_logged};
use crate::vector::actions_len;

verus! {

/// A command that the editor's widgets send to the application.
pub enum Command {
    /// Delete the item `(kind, id)`.
    ItemDelete(String, String),
    /// The item `(kind, id)` was edited.
    ItemUpdate(String, String),
    /// Add a child to the item `(kind, parent id)`.
    ItemNewChild(String, String),
    /// Undo the log entry at this position.
    EditDelete(usize),
    /// Any command the editor does not handle.
    Other,
}

/// Whether a command was handled.
#[derive(Clone, Copy, PartialEq, Eq, Structural, Debug)]
pub enum Handled {
    Yes,
    No,
}

/// What a command does to the editor's state.
pub open spec fn command_effect(app: AppDataView, cmd: Command) -> AppDataView {
    match cmd {
        Command::ItemDelete(kind, id) => item_deleted(app, kind@, id@),
        Command::ItemUpdate(kind, id) => trip_update_recorded(app, kind@, id@),
        Command::ItemNewChild(kind, parent_id) => child_added(app, kind@, parent_id@),
        Command::EditDelete(position) => action_undone(app, position as nat),
        Command::Other => app,
    }
}

/// The commands that can be applied: an undone entry must exist, and an
/// update must be loggable (see `update_can_be_logged`).
pub open spec fn command_allowed(app: AppDataView, cmd: Command) -> bool {
    match cmd {
        Command::ItemUpdate(kind, id) => update_can_be_logged(app, kind@, id@),
        Command::EditDelete(position) => position < app.actions.len(),
        _ => true,
    }
}

/// The application's handler of the editor's commands.
pub struct Delegate;

impl Command {
    /// Whether this command can be applied to `data` (see
    /// `command_allowed`); the editor stops where it cannot.
    pub fn allowed(&self, data: &AppData) -> (r: bool)
        ensures
            r == command_allowed(data@, *self),
    {
        match self {
            Command::ItemUpdate(kind, id) => data.update_can_be_logged(kind.as_str(), id.as_str()),
            Command::EditDelete(position) => *position < actions_len(&data.actions),
            _ => true,
        }
    }
}

impl Delegate {
    /// Applies a command to the editor's state; every command but `Other`
    /// is handled.
    pub fn command(&mut self, cmd: &Command, data: &mut AppData) -> (r: Handled)
        requires
            command_allowed(old(data)@, *cmd),
        ensures
            final(data)@ == command_effect(old(data)@, *cmd),
            final(data).edits == old(data).edits,
            r == (if cmd is Other {
                Handled::No
            } else {
                Handled::Yes
            }),
    {
        match cmd {
            Command::ItemDelete(kind, id) => {
                data.delete_item(kind.as_str(), id.as_str());
                Handled::Yes
            },
            Command::ItemUpdate(kind, id) => {
                data.record_trip_update(kind.as_str(), id.as_str());
                Handled::Yes
            },
            Command::ItemNewChild(kind, parent_id) => {
                data.add_child(kind.as_str(), parent_id.as_str());
                Handled::Yes
            },
            Command::EditDelete(position) => {
                data.undo_action(*position);
                Handled::Yes
            },
            Command::Other => Handled::No,
        }
    }
}

} // verus!
