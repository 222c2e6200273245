use vstd::prelude::*;

use crate::delete::{agency_deleter, item_deleted, route_deleter, stop_time_deleter, trip_deleter};
use crate::laws::lemma_map_log_as_map;
use crate::log::map_log;
use crate::model::{
    ActionView, AgencyView, AppDataView, EditType, ItemDataView, MyContinuousPickupDropOff, RouteView,
    StopTimeView, TripView,
};
use crate::text::decimal;
use crate::newchild::{agency_child_adder, child_added, new_route, new_trip, route_child_adder};
use crate::roundtrip::{lemma_kinds_differ, lemma_map_log_single, lemma_route_deletion, route_deletion};

verus! {

/// `(i, j)` is the position of a route of the editor.
pub open spec fn is_route_position(app: AppDataView, i: int, j: int) -> bool {
    0 <= i < app.agencies.len() && 0 <= j < app.agencies[i].routes.len()
}

/// There is at most one route of id `id` in the editor.
pub open spec fn at_most_one_route(app: AppDataView, id: Seq<char>) -> bool {
    forall|i1: int, j1: int, i2: int, j2: int|
        is_route_position(app, i1, j1) && is_route_position(app, i2, j2)
            && (#[trigger] app.agencies[i1].routes[j1]).id == id
            && (#[trigger] app.agencies[i2].routes[j2]).id == id ==> i1 == i2 && j1 == j2
}

/// The words "route" and "agency" differ.
pub proof fn lemma_route_is_no_agency()
    ensures
        "route"@ != "agency"@,
{
    reveal_strlit("route");
    reveal_strlit("agency");
    assert("route"@.len() != "agency"@.len());
}

/// Asking for a child of the only route of id `pid` gives that route one
/// more trip (live, empty, its id the route's, a hyphen and the former
/// number of trips), keeps its other trips and fields, and appends exactly one
/// `Create` entry, at the log's end with its position as id, whose snapshot
/// is that route as it stands in the resulting state.
pub proof fn lemma_route_child_snapshot(app: AppDataView, pid: Seq<char>, i0: int, j0: int)
    requires
        is_route_position(app, i0, j0),
        app.agencies[i0].routes[j0].id == pid,
        at_most_one_route(app, pid),
    ensures
        child_added(app, "route"@, pid).agencies.len() == app.agencies.len(),
        child_added(app, "route"@, pid).agencies[i0].routes.len() == app.agencies[i0].routes.len(),
        child_added(app, "route"@, pid).agencies[i0].routes[j0].trips.len()
            == app.agencies[i0].routes[j0].trips.len() + 1,
        child_added(app, "route"@, pid).agencies[i0].routes[j0].trips.take(
            app.agencies[i0].routes[j0].trips.len() as int,
        ) == app.agencies[i0].routes[j0].trips,
        (RouteView {
            trips: app.agencies[i0].routes[j0].trips,
            ..child_added(app, "route"@, pid).agencies[i0].routes[j0]
        }) == app.agencies[i0].routes[j0],
        child_added(app, "route"@, pid).agencies[i0].routes[j0].trips.last() == (TripView {
            id: pid + "-"@ + decimal(app.agencies[i0].routes[j0].trips.len()),
            name: Seq::empty(),
            trip_headsign: Seq::empty(),
            selected: false,
            expanded: false,
            live: true,
            stops: Seq::empty(),
        }),
        child_added(app, "route"@, pid).actions == app.actions.push(
            ActionView {
                id: app.actions.len(),
                edit_type: EditType::Create,
                item_type: "trip"@,
                item_id: pid,
                item_data: Some(
                    ItemDataView::Route(child_added(app, "route"@, pid).agencies[i0].routes[j0]),
                ),
            },
        ),
{
    lemma_route_is_no_agency();
    let kind = "route"@;
    let ag = app.agencies;
    let ru = ag[i0].routes[j0];
    let grow = |r: RouteView|
        if r.id == pid {
            RouteView { trips: r.trips.push(new_trip(r)), ..r }
        } else {
            r
        };
    let grow_agency = |a: AgencyView| AgencyView { routes: a.routes.map_values(grow), ..a };
    // the state: only routes of that id grow
    assert forall|x: RouteView, l: Seq<ActionView>|
        (#[trigger] route_child_adder(kind, pid)(x, l)).0 == grow(x) by {}
    assert forall|x: AgencyView, l: Seq<ActionView>|
        (#[trigger] agency_child_adder(kind, pid)(x, l)).0 == grow_agency(x) by {
        lemma_map_log_as_map(x.routes, l, route_child_adder(kind, pid), grow);
    }
    lemma_map_log_as_map(ag, app.actions, agency_child_adder(kind, pid), grow_agency);
    let res = child_added(app, kind, pid);
    assert(res.agencies == ag.map_values(grow_agency));
    let grown = grow(ru);
    assert(res.agencies[i0].routes[j0] == grown);
    assert(grown.trips.take(ru.trips.len() as int) =~= ru.trips);
    // the log: only that route logs, once
    let e = |n: nat|
        ActionView {
            id: n,
            edit_type: EditType::Create,
            item_type: "trip"@,
            item_id: pid,
            item_data: Some(ItemDataView::Route(grown)),
        };
    let h_route = |r: RouteView| r.id == pid;
    let h_agency = |a: AgencyView| exists|j: int| 0 <= j < a.routes.len() && #[trigger] h_route(a.routes[j]);
    assert forall|i: int, l: Seq<ActionView>| 0 <= i < ag.len() implies #[trigger] map_log(
        ag[i].routes,
        l,
        route_child_adder(kind, pid),
    ).1 == (if h_agency(ag[i]) {
        l.push(e(l.len()))
    } else {
        l
    }) by {
        let a = ag[i];
        assert forall|l2: Seq<ActionView>, j: int|
            0 <= j < a.routes.len() && h_route(a.routes[j]) implies (#[trigger] route_child_adder(kind, pid)(a.routes[j], l2)).1
            == l2.push(e(l2.len())) by {
            assert(is_route_position(app, i, j));
            assert(ag[i].routes[j].id == pid);
        }
        assert forall|j1: int, j2: int|
            0 <= j1 < a.routes.len() && 0 <= j2 < a.routes.len() && #[trigger] h_route(a.routes[j1]) && #[trigger] h_route(a.routes[j2]) implies j1 == j2 by {
            assert(is_route_position(app, i, j1));
            assert(is_route_position(app, i, j2));
            assert(ag[i].routes[j1].id == pid);
            assert(ag[i].routes[j2].id == pid);
        }
        lemma_map_log_single(a.routes, l, route_child_adder(kind, pid), h_route, e);
    }
    assert forall|l2: Seq<ActionView>, i: int|
        0 <= i < ag.len() && !h_agency(ag[i]) implies (#[trigger] agency_child_adder(kind, pid)(ag[i], l2)).1 == l2 by {
        assert(map_log(ag[i].routes, l2, route_child_adder(kind, pid)).1 == l2);
    }
    assert forall|l2: Seq<ActionView>, i: int|
        0 <= i < ag.len() && h_agency(ag[i]) implies (#[trigger] agency_child_adder(kind, pid)(ag[i], l2)).1 == l2.push(e(l2.len())) by {
        assert(map_log(ag[i].routes, l2, route_child_adder(kind, pid)).1 == l2.push(e(l2.len())));
    }
    assert forall|i1: int, i2: int|
        0 <= i1 < ag.len() && 0 <= i2 < ag.len() && #[trigger] h_agency(ag[i1]) && #[trigger] h_agency(ag[i2]) implies i1 == i2 by {
        let j1 = choose|j: int| 0 <= j < ag[i1].routes.len() && #[trigger] h_route(ag[i1].routes[j]);
        let j2 = choose|j: int| 0 <= j < ag[i2].routes.len() && #[trigger] h_route(ag[i2].routes[j]);
        assert(is_route_position(app, i1, j1));
        assert(is_route_position(app, i2, j2));
        assert(ag[i1].routes[j1].id == pid);
        assert(ag[i2].routes[j2].id == pid);
    }
    lemma_map_log_single(ag, app.actions, agency_child_adder(kind, pid), h_agency, e);
    assert(h_route(ag[i0].routes[j0]));
    assert(h_agency(ag[i0]));
}

/// Deleting the only route of id `id` marks it deleted and changes nothing
/// else of it, its trips included, and appends exactly one `Delete` entry,
/// at the log's end with its position as id, whose snapshot is that route
/// as it stands in the resulting state.
pub proof fn lemma_route_deletion_snapshot(app: AppDataView, id: Seq<char>, i0: int, j0: int)
    requires
        is_route_position(app, i0, j0),
        app.agencies[i0].routes[j0].id == id,
        at_most_one_route(app, id),
    ensures
        item_deleted(app, "route"@, id).agencies.len() == app.agencies.len(),
        item_deleted(app, "route"@, id).agencies[i0].routes.len() == app.agencies[i0].routes.len(),
        item_deleted(app, "route"@, id).agencies[i0].routes[j0] == (RouteView {
            live: false,
            ..app.agencies[i0].routes[j0]
        }),
        item_deleted(app, "route"@, id).agencies[i0].routes[j0].trips
            == app.agencies[i0].routes[j0].trips,
        !item_deleted(app, "route"@, id).agencies[i0].routes[j0].live,
        item_deleted(app, "route"@, id).actions == app.actions.push(
            ActionView {
                id: app.actions.len(),
                edit_type: EditType::Delete,
                item_type: "route"@,
                item_id: id,
                item_data: Some(
                    ItemDataView::Route(item_deleted(app, "route"@, id).agencies[i0].routes[j0]),
                ),
            },
        ),
{
    lemma_kinds_differ();
    lemma_route_deletion(app, id);
    let kind = "route"@;
    let ag = app.agencies;
    let ru = ag[i0].routes[j0];
    let res = item_deleted(app, kind, id);
    let gone = RouteView { live: false, ..ru };
    assert(res.agencies[i0].routes[j0] == route_deletion(id)(ru));
    let e = |n: nat|
        ActionView {
            id: n,
            edit_type: EditType::Delete,
            item_type: "route"@,
            item_id: id,
            item_data: Some(ItemDataView::Route(gone)),
        };
    let never_s = |s: StopTimeView| false;
    let never_t = |t: TripView| false;
    // below routes nothing logs
    assert forall|x: TripView, l: Seq<ActionView>| (#[trigger] trip_deleter(kind, id)(x, l)).1 == l by {
        lemma_map_log_single(x.stops, l, stop_time_deleter(kind, id), never_s, e);
    }
    let h_route = |r: RouteView| r.id == id;
    let h_agency = |a: AgencyView| exists|j: int| 0 <= j < a.routes.len() && #[trigger] h_route(a.routes[j]);
    assert forall|i: int, l: Seq<ActionView>| 0 <= i < ag.len() implies #[trigger] map_log(
        ag[i].routes,
        l,
        route_deleter(kind, id),
    ).1 == (if h_agency(ag[i]) {
        l.push(e(l.len()))
    } else {
        l
    }) by {
        let a = ag[i];
        assert forall|l2: Seq<ActionView>, j: int|
            0 <= j < a.routes.len() && !h_route(a.routes[j]) implies (#[trigger] route_deleter(kind, id)(a.routes[j], l2)).1
            == l2 by {
            lemma_map_log_single(a.routes[j].trips, l2, trip_deleter(kind, id), never_t, e);
        }
        assert forall|l2: Seq<ActionView>, j: int|
            0 <= j < a.routes.len() && h_route(a.routes[j]) implies (#[trigger] route_deleter(kind, id)(a.routes[j], l2)).1
            == l2.push(e(l2.len())) by {
            assert(is_route_position(app, i, j));
            assert(ag[i].routes[j].id == id);
        }
        assert forall|j1: int, j2: int|
            0 <= j1 < a.routes.len() && 0 <= j2 < a.routes.len() && #[trigger] h_route(a.routes[j1]) && #[trigger] h_route(a.routes[j2]) implies j1 == j2 by {
            assert(is_route_position(app, i, j1));
            assert(is_route_position(app, i, j2));
            assert(ag[i].routes[j1].id == id);
            assert(ag[i].routes[j2].id == id);
        }
        lemma_map_log_single(a.routes, l, route_deleter(kind, id), h_route, e);
    }
    assert forall|l2: Seq<ActionView>, i: int|
        0 <= i < ag.len() && !h_agency(ag[i]) implies (#[trigger] agency_deleter(kind, id)(ag[i], l2)).1 == l2 by {
        assert(map_log(ag[i].routes, l2, route_deleter(kind, id)).1 == l2);
    }
    assert forall|l2: Seq<ActionView>, i: int|
        0 <= i < ag.len() && h_agency(ag[i]) implies (#[trigger] agency_deleter(kind, id)(ag[i], l2)).1 == l2.push(e(l2.len())) by {
        assert(map_log(ag[i].routes, l2, route_deleter(kind, id)).1 == l2.push(e(l2.len())));
    }
    assert forall|i1: int, i2: int|
        0 <= i1 < ag.len() && 0 <= i2 < ag.len() && #[trigger] h_agency(ag[i1]) && #[trigger] h_agency(ag[i2]) implies i1 == i2 by {
        let j1 = choose|j: int| 0 <= j < ag[i1].routes.len() && #[trigger] h_route(ag[i1].routes[j]);
        let j2 = choose|j: int| 0 <= j < ag[i2].routes.len() && #[trigger] h_route(ag[i2].routes[j]);
        assert(is_route_position(app, i1, j1));
        assert(is_route_position(app, i2, j2));
        assert(ag[i1].routes[j1].id == id);
        assert(ag[i2].routes[j2].id == id);
    }
    lemma_map_log_single(ag, app.actions, agency_deleter(kind, id), h_agency, e);
    assert(h_route(ag[i0].routes[j0]));
    assert(h_agency(ag[i0]));
}

/// There is at most one agency of id `id` in the editor.
pub open spec fn at_most_one_agency(app: AppDataView, id: Seq<char>) -> bool {
    forall|i1: int, i2: int|
        0 <= i1 < app.agencies.len() && 0 <= i2 < app.agencies.len()
            && (#[trigger] app.agencies[i1]).id == id && (#[trigger] app.agencies[i2]).id == id ==> i1 == i2
}

/// Asking for a child of the only agency of id `pid` gives that agency one
/// more route (live, new, empty, its id the agency's, a hyphen and the
/// former number of routes), keeps its other routes and fields, and appends exactly one
/// `Create` entry, at the log's end with its position as id, whose snapshot
/// is that agency as it stands in the resulting state.
pub proof fn lemma_agency_child_snapshot(app: AppDataView, pid: Seq<char>, i0: int)
    requires
        0 <= i0 < app.agencies.len(),
        app.agencies[i0].id == pid,
        at_most_one_agency(app, pid),
    ensures
        child_added(app, "agency"@, pid).agencies.len() == app.agencies.len(),
        child_added(app, "agency"@, pid).agencies[i0].routes.len() == app.agencies[i0].routes.len() + 1,
        child_added(app, "agency"@, pid).agencies[i0].routes.take(app.agencies[i0].routes.len() as int)
            == app.agencies[i0].routes,
        (AgencyView {
            routes: app.agencies[i0].routes,
            ..child_added(app, "agency"@, pid).agencies[i0]
        }) == app.agencies[i0],
        child_added(app, "agency"@, pid).agencies[i0].routes.last() == (RouteView {
            id: pid + "-"@ + decimal(app.agencies[i0].routes.len()),
            short_name: Seq::empty(),
            long_name: Seq::empty(),
            desc: None,
            url: None,
            agency_id: Some(pid),
            order: None,
            continuous_pickup: MyContinuousPickupDropOff::NotAvailable,
            selected: false,
            expanded: false,
            live: true,
            new: true,
            trips: Seq::empty(),
        }),
        child_added(app, "agency"@, pid).actions == app.actions.push(
            ActionView {
                id: app.actions.len(),
                edit_type: EditType::Create,
                item_type: "route"@,
                item_id: pid,
                item_data: Some(ItemDataView::Agency(child_added(app, "agency"@, pid).agencies[i0])),
            },
        ),
{
    lemma_route_is_no_agency();
    let kind = "agency"@;
    let ag = app.agencies;
    let a0 = ag[i0];
    let grow_agency = |a: AgencyView|
        if a.id == pid {
            AgencyView { routes: a.routes.push(new_route(a)), ..a }
        } else {
            a
        };
    // routes never change or log when an agency is asked for a child
    let e = |n: nat|
        ActionView {
            id: n,
            edit_type: EditType::Create,
            item_type: "route"@,
            item_id: pid,
            item_data: Some(ItemDataView::Agency(grow_agency(a0))),
        };
    let never = |r: RouteView| false;
    assert forall|x: RouteView, l: Seq<ActionView>|
        (#[trigger] route_child_adder(kind, pid)(x, l)).0 == (|r: RouteView| r)(x) by {}
    assert forall|x: AgencyView, l: Seq<ActionView>|
        (#[trigger] agency_child_adder(kind, pid)(x, l)).0 == grow_agency(x) by {
        if x.id != pid {
            lemma_map_log_as_map(x.routes, l, route_child_adder(kind, pid), |r: RouteView| r);
            assert(x.routes.map_values(|r: RouteView| r) =~= x.routes);
        }
    }
    lemma_map_log_as_map(ag, app.actions, agency_child_adder(kind, pid), grow_agency);
    let res = child_added(app, kind, pid);
    assert(res.agencies[i0] == grow_agency(a0));
    assert(grow_agency(a0).routes.take(a0.routes.len() as int) =~= a0.routes);
    let h = |a: AgencyView| a.id == pid;
    assert forall|l: Seq<ActionView>, i: int|
        0 <= i < ag.len() && !h(ag[i]) implies (#[trigger] agency_child_adder(kind, pid)(ag[i], l)).1 == l by {
        lemma_map_log_single(ag[i].routes, l, route_child_adder(kind, pid), never, e);
    }
    assert forall|l: Seq<ActionView>, i: int|
        0 <= i < ag.len() && h(ag[i]) implies (#[trigger] agency_child_adder(kind, pid)(ag[i], l)).1 == l.push(e(l.len())) by {
        assert(ag[i].id == pid);
        assert(i == i0);
    }
    assert forall|i1: int, i2: int|
        0 <= i1 < ag.len() && 0 <= i2 < ag.len() && #[trigger] h(ag[i1]) && #[trigger] h(ag[i2]) implies i1 == i2 by {
        assert(ag[i1].id == pid);
        assert(ag[i2].id == pid);
    }
    lemma_map_log_single(ag, app.actions, agency_child_adder(kind, pid), h, e);
    assert(h(ag[i0]));
}

} // verus!
