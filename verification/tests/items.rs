use gtfs_editor::command::Command;
use gtfs_editor::labels::{action_label, stop_time_label};
use gtfs_editor::lenses::{
    option_checkbox_get, option_checkbox_put, option_string_get, option_string_put,
    option_text_get, option_text_put,
};
use gtfs_editor::model::{
    Action, AppData, EditType, ItemData, MyAgency, MyContinuousPickupDropOff, MyRoute,
    MyStopTime, MyTrip,
};
use gtfs_editor::newchild::make_child_id;
use gtfs_editor::text::decimal_text;
use im::Vector;

fn stop(id: &str, selected: bool) -> MyStopTime {
    MyStopTime {
        id: id.to_string(),
        name: format!("Stop {}", id),
        arrival_time: None,
        selected,
        live: true,
    }
}

fn trip_with(stops: &[(&str, bool)]) -> MyTrip {
    let mut v = Vector::new();
    for (id, sel) in stops {
        v.push_back(stop(id, *sel));
    }
    MyTrip {
        id: "T1".to_string(),
        name: "Morning".to_string(),
        trip_headsign: "Harbour".to_string(),
        selected: false,
        expanded: false,
        live: true,
        stops: v,
    }
}

fn empty_route(id: &str) -> MyRoute {
    let mut r = MyRoute::empty();
    r.id = id.to_string();
    r
}

#[test]
fn decimal_text_writes_numbers() {
    assert_eq!(decimal_text(0), "0");
    assert_eq!(decimal_text(7), "7");
    assert_eq!(decimal_text(10), "10");
    assert_eq!(decimal_text(3600), "3600");
    assert_eq!(decimal_text(u64::MAX), "18446744073709551615");
}

#[test]
fn child_ids() {
    assert_eq!(make_child_id(&"R1".to_string(), 0), "R1-0");
    assert_eq!(make_child_id(&"A".to_string(), 12), "A-12");
}

#[test]
fn stop_time_labels() {
    let mut s = stop("S1", false);
    assert_eq!(stop_time_label(&s), "arrival/departure: None");
    s.arrival_time = Some(3600);
    assert_eq!(stop_time_label(&s), "arrival/departure: Some(3600)");
    s.arrival_time = Some(0);
    assert_eq!(stop_time_label(&s), "arrival/departure: Some(0)");
    assert_eq!(
        stop_time_label(&s),
        format!("arrival/departure: {:?}", s.arrival_time)
    );
}

#[test]
fn action_labels() {
    let a = Action {
        id: 0,
        edit_type: EditType::Delete,
        item_type: "trip".to_string(),
        item_id: "T1".to_string(),
        item_data: Some(ItemData::Trip(trip_with(&[]))),
    };
    assert_eq!(action_label(&a), "Delete: trip T1. Morning");
    let mut route = empty_route("R1");
    route.short_name = "42".to_string();
    let b = Action {
        id: 1,
        edit_type: EditType::Create,
        item_type: "trip".to_string(),
        item_id: "R1".to_string(),
        item_data: Some(ItemData::Route(route)),
    };
    assert_eq!(action_label(&b), "Create: trip R1. 42");
    let mut ag = MyAgency::empty();
    ag.name = "City Transit".to_string();
    let c = Action {
        id: 2,
        edit_type: EditType::Update,
        item_type: "route".to_string(),
        item_id: "A".to_string(),
        item_data: Some(ItemData::Agency(ag)),
    };
    assert_eq!(action_label(&c), "Update: route A. City Transit");
    let d = Action {
        id: 3,
        edit_type: EditType::Delete,
        item_type: "stop_time".to_string(),
        item_id: "S9".to_string(),
        item_data: Some(ItemData::StopTime(stop("S9", false))),
    };
    assert_eq!(action_label(&d), "Delete: stop_time S9. Stop S9");
}

#[test]
fn option_string_lens() {
    let mut data: Option<String> = None;
    assert_eq!(option_string_get(&data), "");
    option_string_put(&mut data, "note".to_string());
    assert_eq!(data, Some("note".to_string()));
    assert_eq!(option_string_get(&data), "note");
    option_string_put(&mut data, String::new());
    assert_eq!(data, None);
    // an empty text is stored as no value
    let mut empty = Some(String::new());
    let shown = option_string_get(&empty);
    option_string_put(&mut empty, shown);
    assert_eq!(empty, None);
}

#[test]
fn option_checkbox_lens() {
    let mut data: Option<String> = Some("kept".to_string());
    assert!(option_checkbox_get(&data));
    option_checkbox_put(&mut data, true);
    assert_eq!(data, Some("nuttin".to_string()));
    option_checkbox_put(&mut data, false);
    assert_eq!(data, None);
    assert!(!option_checkbox_get(&data));
}

#[test]
fn option_text_lens() {
    let mut data: Option<String> = None;
    assert_eq!(option_text_get(&data), "nutin");
    option_text_put(&mut data, "typed".to_string());
    assert_eq!(data, None);
    let mut some = Some("old".to_string());
    option_text_put(&mut some, "new".to_string());
    assert_eq!(some, Some("new".to_string()));
    assert_eq!(option_text_get(&some), "new");
    let shown = option_text_get(&some);
    option_text_put(&mut some, shown);
    assert_eq!(some, Some("new".to_string()));
}

#[test]
fn toggle_selects_and_deselects_the_stops() {
    let mut t = trip_with(&[("S1", false), ("S2", true)]);
    t.toggle_selected();
    assert!(t.selected);
    assert!(t.stops.iter().all(|s| s.selected));
    t.toggle_selected();
    assert!(!t.selected);
    assert!(t.stops.iter().all(|s| !s.selected));
    assert_eq!(t.stops.len(), 2);
}

#[test]
fn select_all_and_deselect_all() {
    let mut t = trip_with(&[("S1", false), ("S2", true)]);
    t.update_all(true);
    assert!(t.stops.iter().all(|s| s.selected));
    assert!(!t.selected);
    t.update_all(false);
    assert!(t.stops.iter().all(|s| !s.selected));

    let mut r = empty_route("R1");
    r.trips.push_back(trip_with(&[]));
    r.trips.push_back(trip_with(&[]));
    r.update_all(true);
    assert!(r.trips.iter().all(|t| t.selected));

    let mut a = MyAgency::empty();
    a.routes.push_back(empty_route("R1"));
    a.update_all(true);
    assert!(a.routes.iter().all(|r| r.selected));

    let mut app = AppData {
        agencies: Vector::unit(MyAgency::empty()),
        actions: Vector::new(),
        edits: Vector::new(),
        show_deleted: false,
        show_edits: false,
        show_actions: false,
        expanded: false,
    };
    app.update_all(true);
    assert!(app.agencies[0].selected);
    app.update_all(false);
    assert!(!app.agencies[0].selected);
}

#[test]
fn shown_items() {
    let mut s = stop("S1", false);
    assert!(s.shown());
    s.live = false;
    assert!(!s.shown());
    let mut t = trip_with(&[]);
    t.live = false;
    assert!(!t.shown());
    let mut r = empty_route("R1");
    assert!(r.shown(false));
    r.live = false;
    assert!(!r.shown(false));
    assert!(r.shown(true));
}

#[test]
fn buttons_send_their_commands() {
    let t = trip_with(&[]);
    match t.delete_command() {
        Command::ItemDelete(k, i) => {
            assert_eq!(k, "trip");
            assert_eq!(i, "T1");
        }
        _ => panic!("expected a delete"),
    }
    match t.new_child_command() {
        Command::ItemNewChild(k, i) => {
            assert_eq!(k, "trip");
            assert_eq!(i, "T1");
        }
        _ => panic!("expected a new child"),
    }
    match empty_route("R7").new_child_command() {
        Command::ItemNewChild(k, i) => {
            assert_eq!(k, "route");
            assert_eq!(i, "R7");
        }
        _ => panic!("expected a new child"),
    }
    match stop("S4", false).delete_command() {
        Command::ItemDelete(k, i) => {
            assert_eq!(k, "stop_time");
            assert_eq!(i, "S4");
        }
        _ => panic!("expected a delete"),
    }
    let mut a = MyAgency::empty();
    a.id = "A".to_string();
    assert_eq!(a.item_type(), "agency");
    assert_eq!(a.id(), "A");
    match a.delete_command() {
        Command::ItemDelete(k, _) => assert_eq!(k, "agency"),
        _ => panic!("expected a delete"),
    }
}

#[test]
fn headsign_edits_report_updates() {
    let old = trip_with(&[]);
    let mut new = old.clone();
    assert!(MyTrip::headsign_update(&old, &new).is_none());
    new.trip_headsign = "Airport".to_string();
    match MyTrip::headsign_update(&old, &new) {
        Some(Command::ItemUpdate(k, i)) => {
            assert_eq!(k, "trip");
            assert_eq!(i, "T1");
        }
        _ => panic!("expected an update"),
    }
    new.id = "T2".to_string();
    assert!(MyTrip::headsign_update(&old, &new).is_none());
}

#[test]
fn clones_are_equal() {
    let t = trip_with(&[("S1", true), ("S2", false)]);
    let c = t.clone();
    assert_eq!(c.id, t.id);
    assert_eq!(c.stops.len(), 2);
    assert_eq!(c.stops[1].id, "S2");
    assert!(c.stops[0].selected);
}

#[test]
fn radio_choices() {
    let v = MyContinuousPickupDropOff::radio_vec();
    assert_eq!(v.len(), 4);
    assert_eq!(v[0].1, MyContinuousPickupDropOff::Continuous);
    assert_eq!(v[3].0, "Coordinate with driver");
}

#[test]
fn empty_items() {
    let s = MyStopTime::empty();
    assert!(s.live && !s.selected && s.id.is_empty());
    let t = MyTrip::empty();
    assert!(t.live && t.stops.is_empty());
    let r = MyRoute::empty();
    assert!(r.live && !r.new && r.trips.is_empty());
}
