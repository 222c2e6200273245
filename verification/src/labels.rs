use vstd::prelude::*;

use crate::model::{Action, EditType, ItemData, ItemDataView, MyStopTime};
use crate::text::{decimal, decimal_text};

verus! {

/// How Rust's `{:?}` writes an `Option<u32>`.
pub open spec fn debug_option(t: Option<u32>) -> Seq<char> {
    match t {
        Some(n) => "Some("@ + decimal(n as nat) + ")"@,
        None => "None"@,
    }
}

/// The line a stop time shows: its arrival time, as `{:?}` writes it.
pub open spec fn stop_time_line(arrival_time: Option<u32>) -> Seq<char> {
    "arrival/departure: "@ + debug_option(arrival_time)
}

/// The label of a stop time.
pub fn stop_time_label(s: &MyStopTime) -> (r: String)
    ensures
        r@ == stop_time_line(s@.arrival_time),
{
    let mut line = String::from_str("arrival/departure: ");
    match s.arrival_time {
        Some(n) => {
            line.append("Some(");
            let number = decimal_text(n as u64);
            line.append(number.as_str());
            line.append(")");
        },
        None => {
            line.append("None");
        },
    }
    line
}

/// The short description of a snapshot that a log entry shows: the name of
/// the agency, the short name of the route, the name of the trip or of the
/// stop time.
pub open spec fn data_info(d: ItemDataView) -> Seq<char> {
    match d {
        ItemDataView::Agency(a) => a.name,
        ItemDataView::Route(r) => r.short_name,
        ItemDataView::Trip(t) => t.name,
        ItemDataView::StopTime(s) => s.name,
    }
}

impl ItemData {
    /// The short description of this snapshot (see `data_info`).
    pub fn data_info(&self) -> (r: String)
        ensures
            r@ == data_info(self@),
    {
        match self {
            ItemData::Agency(a) => a.name.clone(),
            ItemData::Route(x) => x.short_name.clone(),
            ItemData::Trip(t) => t.name.clone(),
            ItemData::StopTime(s) => s.name.clone(),
        }
    }
}

/// The word a log entry starts with.
pub open spec fn edit_word(e: EditType) -> Seq<char> {
    match e {
        EditType::Delete => "Delete"@,
        EditType::Create => "Create"@,
        EditType::Update => "Update"@,
    }
}

/// The line a log entry shows: `"<Edit>: <item type> <item id>. <info>"`.
pub open spec fn action_line(
    e: EditType,
    item_type: Seq<char>,
    item_id: Seq<char>,
    info: Seq<char>,
) -> Seq<char> {
    edit_word(e) + ": "@ + item_type + " "@ + item_id + ". "@ + info
}

/// The label of a log entry; every entry carries a snapshot.
pub fn action_label(a: &Action) -> (r: String)
    requires
        a@.item_data is Some,
    ensures
        r@ == action_line(a@.edit_type, a@.item_type, a@.item_id, data_info(a@.item_data->0)),
{
    let mut line = match a.edit_type {
        EditType::Delete => String::from_str("Delete"),
        EditType::Create => String::from_str("Create"),
        EditType::Update => String::from_str("Update"),
    };
    line.append(": ");
    line.append(a.item_type.as_str());
    line.append(" ");
    line.append(a.item_id.as_str());
    line.append(". ");
    let info = match &a.item_data {
        Some(d) => d.data_info(),
        None => String::new(),
    };
    line.append(info.as_str());
    line
}

} // verus!
