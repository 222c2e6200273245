use gtfs_editor::command::{Command, Delegate, Handled};
use gtfs_editor::model::{
    Action, AppData, EditType, ItemData, MyAgency, MyContinuousPickupDropOff, MyRoute,
    MyStopTime, MyTrip,
};
use im::Vector;

fn stop(id: &str, name: &str, arrival: Option<u32>) -> MyStopTime {
    MyStopTime {
        id: id.to_string(),
        name: name.to_string(),
        arrival_time: arrival,
        selected: false,
        live: true,
    }
}

fn trip(id: &str, name: &str, stops: Vec<MyStopTime>) -> MyTrip {
    let mut v = Vector::new();
    for s in stops {
        v.push_back(s);
    }
    MyTrip {
        id: id.to_string(),
        name: name.to_string(),
        trip_headsign: format!("to {}", name),
        selected: false,
        expanded: false,
        live: true,
        stops: v,
    }
}

fn route(id: &str, short_name: &str, trips: Vec<MyTrip>) -> MyRoute {
    let mut v = Vector::new();
    for t in trips {
        v.push_back(t);
    }
    MyRoute {
        id: id.to_string(),
        short_name: short_name.to_string(),
        long_name: format!("Route {}", short_name),
        desc: None,
        url: None,
        agency_id: Some("A".to_string()),
        order: None,
        continuous_pickup: MyContinuousPickupDropOff::NotAvailable,
        selected: false,
        expanded: false,
        live: true,
        new: false,
        trips: v,
    }
}

fn agency(id: &str, name: &str, routes: Vec<MyRoute>) -> MyAgency {
    let mut v = Vector::new();
    for r in routes {
        v.push_back(r);
    }
    MyAgency {
        id: id.to_string(),
        name: name.to_string(),
        selected: false,
        expanded: false,
        show_deleted: false,
        routes: v,
    }
}

/// Agency A with route R1 (trips T1: S1, S2; T2: S3) and route R2 (trip T3).
fn sample() -> AppData {
    let r1 = route(
        "R1",
        "1",
        vec![
            trip("T1", "Morning", vec![stop("S1", "Main St", Some(3600)), stop("S2", "Elm St", None)]),
            trip("T2", "Evening", vec![stop("S3", "Oak St", Some(64800))]),
        ],
    );
    let r2 = route("R2", "2", vec![trip("T3", "Night", vec![])]);
    AppData {
        agencies: Vector::unit(agency("A", "City Transit", vec![r1, r2])),
        actions: Vector::new(),
        edits: Vector::new(),
        show_deleted: false,
        show_edits: false,
        show_actions: true,
        expanded: true,
    }
}

fn cmd_delete(kind: &str, id: &str) -> Command {
    Command::ItemDelete(kind.to_string(), id.to_string())
}

fn cmd_update(kind: &str, id: &str) -> Command {
    Command::ItemUpdate(kind.to_string(), id.to_string())
}

fn cmd_child(kind: &str, id: &str) -> Command {
    Command::ItemNewChild(kind.to_string(), id.to_string())
}

fn trip_at(data: &AppData, r: usize, t: usize) -> &MyTrip {
    &data.agencies[0].routes[r].trips[t]
}

fn snapshot_id(a: &Action) -> String {
    a.item_data.as_ref().unwrap().id()
}

#[test]
fn delete_trip_marks_it_and_logs_it() {
    let mut data = sample();
    let r = Delegate.command(&cmd_delete("trip", "T1"), &mut data);
    assert_eq!(r, Handled::Yes);
    assert!(!trip_at(&data, 0, 0).live);
    assert!(trip_at(&data, 0, 1).live);
    assert!(data.agencies[0].routes[0].live);
    assert_eq!(data.actions.len(), 1);
    let a = &data.actions[0];
    assert_eq!(a.id, 0);
    assert_eq!(a.edit_type, EditType::Delete);
    assert_eq!(a.item_type, "trip");
    assert_eq!(a.item_id, "T1");
    match a.item_data.as_ref().unwrap() {
        ItemData::Trip(t) => {
            assert_eq!(t.id, "T1");
            assert!(!t.live);
            assert_eq!(t.stops.len(), 2);
        }
        _ => panic!("expected a trip snapshot"),
    }
}

#[test]
fn delete_route_does_not_look_at_its_trips() {
    let mut data = sample();
    Delegate.command(&cmd_delete("route", "R2"), &mut data);
    assert!(!data.agencies[0].routes[1].live);
    assert!(data.agencies[0].routes[0].live);
    assert!(trip_at(&data, 1, 0).live);
    assert_eq!(data.actions.len(), 1);
    assert_eq!(data.actions[0].item_type, "route");
    assert_eq!(data.actions[0].item_id, "R2");
    match data.actions[0].item_data.as_ref().unwrap() {
        ItemData::Route(r) => assert!(!r.live),
        _ => panic!("expected a route snapshot"),
    }
}

#[test]
fn delete_stop_time() {
    let mut data = sample();
    Delegate.command(&cmd_delete("stop_time", "S2"), &mut data);
    assert!(trip_at(&data, 0, 0).stops[0].live);
    assert!(!trip_at(&data, 0, 0).stops[1].live);
    assert_eq!(data.actions.len(), 1);
    assert_eq!(data.actions[0].item_type, "stop_time");
    assert_eq!(data.actions[0].item_id, "S2");
    assert_eq!(data.actions[0].edit_type, EditType::Delete);
}

#[test]
fn delete_agency_changes_nothing() {
    let mut data = sample();
    let r = Delegate.command(&cmd_delete("agency", "A"), &mut data);
    assert_eq!(r, Handled::Yes);
    assert_eq!(data.actions.len(), 0);
    assert!(data.agencies[0].routes.iter().all(|r| r.live));
}

#[test]
fn delete_every_item_of_the_id_in_order() {
    let mut data = sample();
    // a second trip with the id T1 in route R2
    data.agencies[0].routes[1].trips.push_back(trip("T1", "Copy", vec![]));
    Delegate.command(&cmd_delete("trip", "T1"), &mut data);
    assert!(!trip_at(&data, 0, 0).live);
    assert!(!trip_at(&data, 1, 1).live);
    assert_eq!(data.actions.len(), 2);
    assert_eq!(data.actions[0].id, 0);
    assert_eq!(data.actions[1].id, 1);
    match data.actions[1].item_data.as_ref().unwrap() {
        ItemData::Trip(t) => assert_eq!(t.name, "Copy"),
        _ => panic!("expected a trip snapshot"),
    }
}

#[test]
fn unknown_id_changes_nothing() {
    let mut data = sample();
    Delegate.command(&cmd_delete("trip", "nope"), &mut data);
    assert_eq!(data.actions.len(), 0);
    assert!(trip_at(&data, 0, 0).live);
}

#[test]
fn update_of_a_trip_is_logged_once() {
    let mut data = sample();
    data.agencies[0].routes[0].trips[1].trip_headsign = "to Harbour".to_string();
    Delegate.command(&cmd_update("trip", "T2"), &mut data);
    assert_eq!(data.actions.len(), 1);
    let a = &data.actions[0];
    assert_eq!(a.edit_type, EditType::Update);
    assert_eq!(a.item_type, "trip");
    assert_eq!(a.item_id, "T2");
    match a.item_data.as_ref().unwrap() {
        ItemData::Trip(t) => assert_eq!(t.trip_headsign, "to Harbour"),
        _ => panic!("expected a trip snapshot"),
    }
    // a second edit replaces the snapshot instead of adding an entry
    data.agencies[0].routes[0].trips[1].trip_headsign = "to Harbour Sq".to_string();
    Delegate.command(&cmd_update("trip", "T2"), &mut data);
    assert_eq!(data.actions.len(), 1);
    match data.actions[0].item_data.as_ref().unwrap() {
        ItemData::Trip(t) => assert_eq!(t.trip_headsign, "to Harbour Sq"),
        _ => panic!("expected a trip snapshot"),
    }
}

#[test]
fn update_after_another_entry_appends() {
    let mut data = sample();
    Delegate.command(&cmd_update("trip", "T2"), &mut data);
    Delegate.command(&cmd_update("trip", "T1"), &mut data);
    assert_eq!(data.actions.len(), 2);
    assert_eq!(data.actions[1].id, 1);
    assert_eq!(data.actions[1].item_id, "T1");
    Delegate.command(&cmd_delete("stop_time", "S1"), &mut data);
    Delegate.command(&cmd_update("trip", "T1"), &mut data);
    assert_eq!(data.actions.len(), 4);
    assert_eq!(data.actions[3].edit_type, EditType::Update);
}

#[test]
fn update_of_other_kinds_is_ignored() {
    let mut data = sample();
    let r = Delegate.command(&cmd_update("route", "R1"), &mut data);
    assert_eq!(r, Handled::Yes);
    assert_eq!(data.actions.len(), 0);
    Delegate.command(&cmd_update("trip", "unknown"), &mut data);
    assert_eq!(data.actions.len(), 0);
}

#[test]
fn new_child_of_an_agency_is_a_new_route() {
    let mut data = sample();
    Delegate.command(&cmd_child("agency", "A"), &mut data);
    let routes = &data.agencies[0].routes;
    assert_eq!(routes.len(), 3);
    let r = &routes[2];
    assert_eq!(r.id, "A-2");
    assert!(r.new);
    assert!(r.live);
    assert_eq!(r.agency_id, Some("A".to_string()));
    assert_eq!(r.trips.len(), 0);
    assert_eq!(r.short_name, "");
    assert_eq!(data.actions.len(), 1);
    let a = &data.actions[0];
    assert_eq!(a.edit_type, EditType::Create);
    assert_eq!(a.item_type, "route");
    assert_eq!(a.item_id, "A");
    match a.item_data.as_ref().unwrap() {
        ItemData::Agency(ag) => assert_eq!(ag.routes.len(), 3),
        _ => panic!("expected an agency snapshot"),
    }
}

#[test]
fn new_child_of_a_route_is_a_new_trip() {
    let mut data = sample();
    Delegate.command(&cmd_child("route", "R1"), &mut data);
    let trips = &data.agencies[0].routes[0].trips;
    assert_eq!(trips.len(), 3);
    assert_eq!(trips[2].id, "R1-2");
    assert!(trips[2].live);
    assert_eq!(trips[2].stops.len(), 0);
    assert_eq!(data.actions.len(), 1);
    assert_eq!(data.actions[0].item_type, "trip");
    assert_eq!(data.actions[0].item_id, "R1");
    assert_eq!(data.actions[0].edit_type, EditType::Create);
}

#[test]
fn new_child_of_a_trip_does_nothing() {
    let mut data = sample();
    Delegate.command(&cmd_child("trip", "T1"), &mut data);
    assert_eq!(data.actions.len(), 0);
    assert_eq!(trip_at(&data, 0, 0).stops.len(), 2);
}

#[test]
fn undo_restores_a_deleted_trip() {
    let mut data = sample();
    Delegate.command(&cmd_delete("trip", "T1"), &mut data);
    assert!(!trip_at(&data, 0, 0).live);
    let r = Delegate.command(&Command::EditDelete(0), &mut data);
    assert_eq!(r, Handled::Yes);
    assert!(trip_at(&data, 0, 0).live);
    assert_eq!(data.actions.len(), 0);
}

#[test]
fn undo_restores_a_deleted_stop_time() {
    let mut data = sample();
    Delegate.command(&cmd_delete("stop_time", "S3"), &mut data);
    Delegate.command(&Command::EditDelete(0), &mut data);
    assert!(trip_at(&data, 0, 1).stops[0].live);
    assert_eq!(data.actions.len(), 0);
}

#[test]
fn undo_leaves_a_deleted_route_deleted() {
    let mut data = sample();
    Delegate.command(&cmd_delete("route", "R1"), &mut data);
    Delegate.command(&Command::EditDelete(0), &mut data);
    assert!(!data.agencies[0].routes[0].live);
    assert_eq!(data.actions.len(), 0);
}

#[test]
fn undo_takes_a_position_and_removes_by_id() {
    let mut data = sample();
    Delegate.command(&cmd_delete("stop_time", "S1"), &mut data); // id 0
    Delegate.command(&cmd_delete("stop_time", "S2"), &mut data); // id 1
    Delegate.command(&Command::EditDelete(0), &mut data); // removes id 0
    assert_eq!(data.actions.len(), 1);
    assert_eq!(data.actions[0].id, 1);
    Delegate.command(&cmd_delete("stop_time", "S3"), &mut data); // id 1 again
    assert_eq!(data.actions[1].id, 1);
    // undoing the entry at position 1 removes every entry with id 1
    Delegate.command(&Command::EditDelete(1), &mut data);
    assert_eq!(data.actions.len(), 0);
    assert!(trip_at(&data, 0, 1).stops[0].live);
    // S2's entry left the log too, but its stop time stays deleted
    assert!(!trip_at(&data, 0, 0).stops[1].live);
    assert!(trip_at(&data, 0, 0).stops[0].live);
}

#[test]
fn other_commands_are_not_handled() {
    let mut data = sample();
    let r = Delegate.command(&Command::Other, &mut data);
    assert_eq!(r, Handled::No);
    assert_eq!(data.actions.len(), 0);
}

#[test]
fn every_entry_keeps_a_snapshot() {
    let mut data = sample();
    let cmds = vec![
        cmd_delete("trip", "T1"),
        cmd_update("trip", "T2"),
        cmd_child("agency", "A"),
        cmd_child("route", "R2"),
        cmd_delete("stop_time", "S3"),
        Command::EditDelete(1),
        cmd_update("trip", "T3"),
    ];
    for c in cmds.iter() {
        Delegate.command(c, &mut data);
        assert!(data.actions.iter().all(|a| a.item_data.is_some()));
    }
    assert_eq!(data.actions.len(), 5);
}

#[test]
fn delete_then_undo_gives_the_trips_back() {
    let mut data = sample();
    Delegate.command(&cmd_update("trip", "T3"), &mut data);
    let before: Vec<(String, bool, usize)> = data.agencies[0]
        .routes
        .iter()
        .flat_map(|r| r.trips.iter().map(|t| (t.id.clone(), t.live, t.stops.len())))
        .collect();
    let n = data.actions.len();
    Delegate.command(&cmd_delete("trip", "T2"), &mut data);
    assert!(data.actions.len() > n);
    Delegate.command(&Command::EditDelete(n), &mut data);
    let after: Vec<(String, bool, usize)> = data.agencies[0]
        .routes
        .iter()
        .flat_map(|r| r.trips.iter().map(|t| (t.id.clone(), t.live, t.stops.len())))
        .collect();
    assert_eq!(before, after);
    assert!(data.actions.iter().all(|a| a.id != n));
}

#[test]
fn edits_are_left_alone() {
    let mut data = sample();
    data.edits.push_back(gtfs_editor::model::Edit {
        id: 7,
        edit_type: EditType::Update,
        item_type: "trip".to_string(),
        item_id: "T1".to_string(),
        item_data: None,
    });
    Delegate.command(&cmd_delete("trip", "T1"), &mut data);
    Delegate.command(&Command::EditDelete(0), &mut data);
    assert_eq!(data.edits.len(), 1);
    assert_eq!(data.edits[0].id, 7);
}

#[test]
fn snapshot_ids() {
    let mut data = sample();
    Delegate.command(&cmd_child("agency", "A"), &mut data);
    assert_eq!(snapshot_id(&data.actions[0]), "A");
}

fn entry_summary(data: &AppData) -> Vec<(usize, EditType, String, String, String)> {
    data.actions
        .iter()
        .map(|a| {
            let info = match a.item_data.as_ref().unwrap() {
                ItemData::Trip(t) => format!("trip {} {} {}", t.id, t.live, t.trip_headsign),
                ItemData::StopTime(s) => format!("stop {} {}", s.id, s.live),
                ItemData::Route(r) => format!("route {} {} {}", r.id, r.live, r.trips.len()),
                ItemData::Agency(g) => format!("agency {} {}", g.id, g.routes.len()),
            };
            (a.id, a.edit_type, a.item_type.clone(), a.item_id.clone(), info)
        })
        .collect()
}

fn tree_summary(data: &AppData) -> Vec<String> {
    let mut out = Vec::new();
    for g in data.agencies.iter() {
        for r in g.routes.iter() {
            out.push(format!("route {} {}", r.id, r.live));
            for t in r.trips.iter() {
                out.push(format!("trip {} {} {}", t.id, t.live, t.trip_headsign));
                for s in t.stops.iter() {
                    out.push(format!("stop {} {}", s.id, s.live));
                }
            }
        }
    }
    out
}

#[test]
fn second_identical_update_changes_nothing() {
    let mut data = sample();
    Delegate.command(&cmd_delete("stop_time", "S1"), &mut data);
    data.agencies[0].routes[0].trips[1].trip_headsign = "to Harbour".to_string();
    Delegate.command(&cmd_update("trip", "T2"), &mut data);
    let once = entry_summary(&data);
    Delegate.command(&cmd_update("trip", "T2"), &mut data);
    assert_eq!(entry_summary(&data), once);
    assert_eq!(once.len(), 2);
}

#[test]
fn update_keeps_ids_at_their_positions() {
    let mut data = sample();
    Delegate.command(&cmd_update("trip", "T1"), &mut data);
    Delegate.command(&cmd_delete("stop_time", "S3"), &mut data);
    let before = entry_summary(&data);
    Delegate.command(&cmd_update("trip", "T2"), &mut data);
    let after = entry_summary(&data);
    assert_eq!(&after[..2], &before[..]);
    assert_eq!(after.len(), 3);
    for (j, a) in data.actions.iter().enumerate() {
        assert_eq!(a.id, j);
    }
    // a further update of T2 only changes the last entry's snapshot
    data.agencies[0].routes[0].trips[1].trip_headsign = "to Quay".to_string();
    Delegate.command(&cmd_update("trip", "T2"), &mut data);
    let last = entry_summary(&data);
    assert_eq!(&last[..2], &before[..]);
    assert_eq!(last[2].0, 2);
    assert_eq!(last[2].4, "trip T2 true to Quay");
}

#[test]
fn delete_then_undo_gives_the_whole_state_back() {
    let mut data = sample();
    Delegate.command(&cmd_update("trip", "T3"), &mut data);
    let log = entry_summary(&data);
    let tree = tree_summary(&data);
    Delegate.command(&cmd_delete("trip", "T2"), &mut data);
    Delegate.command(&Command::EditDelete(1), &mut data);
    assert_eq!(entry_summary(&data), log);
    assert_eq!(tree_summary(&data), tree);

    Delegate.command(&cmd_delete("stop_time", "S2"), &mut data);
    Delegate.command(&Command::EditDelete(1), &mut data);
    assert_eq!(entry_summary(&data), log);
    assert_eq!(tree_summary(&data), tree);
}

#[test]
fn which_commands_are_allowed() {
    let mut data = sample();
    assert!(!Command::EditDelete(0).allowed(&data));
    assert!(cmd_update("trip", "T1").allowed(&data));
    assert!(data.has_trip("T3"));
    assert!(!data.has_trip("T9"));
    Delegate.command(&cmd_delete("trip", "T1"), &mut data);
    assert!(Command::EditDelete(0).allowed(&data));
    assert!(!Command::EditDelete(1).allowed(&data));
    // a last entry without a snapshot blocks updates of existing trips only
    data.actions[0].item_data = None;
    assert!(!cmd_update("trip", "T1").allowed(&data));
    assert!(cmd_update("trip", "T9").allowed(&data));
    assert!(cmd_update("route", "R1").allowed(&data));
    assert!(cmd_delete("trip", "T2").allowed(&data));
}
