//! The editing logic of a GTFS feed editor: the data model of agencies, routes,
//! trips and stop times, the log of actions taken on it, and the handler that
//! applies the editor's commands.

pub mod vector;
pub mod model;
pub mod text;
pub mod log;
pub mod delete;
pub mod undo;
pub mod update;
pub mod newchild;
pub mod command;
pub mod items;
pub mod lenses;
pub mod labels;
pub mod laws;
pub mod roundtrip;
pub mod coalesce;
pub mod snapshots;
