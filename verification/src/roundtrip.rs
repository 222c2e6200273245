use vstd::prelude::*;

use crate::delete::{
    agency_deleter, item_deleted, route_deleter, stop_time_deleter, trip_deleter,
};
use crate::laws::{
    ids_are_positions,
    deletion_entry, lemma_deleters_append, lemma_map_log_appends, lemma_map_log_as_map,
    lemma_map_log_grows,
};
use crate::log::map_log;
use crate::model::{ActionView, EditType, ItemDataView, AgencyView, AppDataView, RouteView, StopTimeView, TripView};
use crate::undo::action_undone;
use crate::update::{agency_has_trip, app_has_trip, route_has_trip, trip_has_id};

verus! {

/// Every trip of id `id` is live.
pub open spec fn trips_of_id_live(app: AppDataView, id: Seq<char>) -> bool {
    forall|i: int, j: int, k: int|
        0 <= i < app.agencies.len() && 0 <= j < app.agencies[i].routes.len() && 0 <= k
            < app.agencies[i].routes[j].trips.len() && (#[trigger] app.agencies[i].routes[j].trips[k]).id
            == id ==> app.agencies[i].routes[j].trips[k].live
}

/// No trip of id `id` is live.
pub open spec fn no_trip_of_id_live(app: AppDataView, id: Seq<char>) -> bool {
    forall|i: int, j: int, k: int|
        0 <= i < app.agencies.len() && 0 <= j < app.agencies[i].routes.len() && 0 <= k
            < app.agencies[i].routes[j].trips.len() && (#[trigger] app.agencies[i].routes[j].trips[k]).id
            == id ==> !app.agencies[i].routes[j].trips[k].live
}

/// What deleting the trip `id` does to a trip.
pub open spec fn trip_killer(id: Seq<char>) -> spec_fn(TripView) -> TripView {
    |t: TripView|
        if t.id == id {
            TripView { live: false, ..t }
        } else {
            t
        }
}

/// What deleting the trip `id` does to a route.
pub open spec fn route_killer(id: Seq<char>) -> spec_fn(RouteView) -> RouteView {
    |r: RouteView| RouteView { trips: r.trips.map_values(trip_killer(id)), ..r }
}

/// What deleting the trip `id` does to an agency.
pub open spec fn agency_killer(id: Seq<char>) -> spec_fn(AgencyView) -> AgencyView {
    |a: AgencyView| AgencyView { routes: a.routes.map_values(route_killer(id)), ..a }
}

/// The kinds of items are different words.
pub proof fn lemma_kinds_differ()
    ensures
        "trip"@ != "stop_time"@,
        "trip"@ != "route"@,
        "stop_time"@ != "route"@,
{
    reveal_strlit("trip");
    reveal_strlit("stop_time");
    reveal_strlit("route");
    assert("trip"@.len() != "stop_time"@.len());
    assert("trip"@[0] != "route"@[0]);
    assert("stop_time"@.len() != "route"@.len());
}

/// Deleting the trip `id` changes the agencies as `agency_killer` says.
pub proof fn lemma_trip_deletion_as_map(app: AppDataView, id: Seq<char>)
    ensures
        item_deleted(app, "trip"@, id).agencies == app.agencies.map_values(agency_killer(id)),
{
    lemma_kinds_differ();
    let kind = "trip"@;
    assert forall|x: StopTimeView, l: Seq<ActionView>|
        (#[trigger] stop_time_deleter(kind, id)(x, l)).0 == (|s: StopTimeView| s)(x) by {}
    assert forall|x: TripView, l: Seq<ActionView>|
        (#[trigger] trip_deleter(kind, id)(x, l)).0 == trip_killer(id)(x) by {
        if x.id != id {
            lemma_map_log_as_map(x.stops, l, stop_time_deleter(kind, id), |s: StopTimeView| s);
            assert(x.stops.map_values(|s: StopTimeView| s) =~= x.stops);
        }
    }
    assert forall|x: RouteView, l: Seq<ActionView>|
        (#[trigger] route_deleter(kind, id)(x, l)).0 == route_killer(id)(x) by {
        lemma_map_log_as_map(x.trips, l, trip_deleter(kind, id), trip_killer(id));
    }
    assert forall|x: AgencyView, l: Seq<ActionView>|
        (#[trigger] agency_deleter(kind, id)(x, l)).0 == agency_killer(id)(x) by {
        lemma_map_log_as_map(x.routes, l, route_deleter(kind, id), route_killer(id));
    }
    lemma_map_log_as_map(app.agencies, app.actions, agency_deleter(kind, id), agency_killer(id));
}

/// Deleting the trip `id` logs at least one entry when such a trip exists.
pub proof fn lemma_trip_deletion_logs(app: AppDataView, id: Seq<char>)
    requires
        app_has_trip(app, id),
    ensures
        app.actions.len() < item_deleted(app, "trip"@, id).actions.len(),
{
    let kind = "trip"@;
    lemma_deleters_append(kind, id);
    let h_trip = |t: TripView| trip_has_id(t, id);
    let h_route = |r: RouteView| route_has_trip(r, id);
    let h_agency = |a: AgencyView| agency_has_trip(a, id);
    assert forall|x: RouteView, l: Seq<ActionView>|
        h_route(x) implies l.len() < (#[trigger] route_deleter(kind, id)(x, l)).1.len() by {
        {
            lemma_kinds_differ();
            let k = choose|k: int| 0 <= k < x.trips.len() && trip_has_id(#[trigger] x.trips[k], id);
            assert(h_trip(x.trips[k]));
            lemma_map_log_grows(x.trips, l, trip_deleter(kind, id), h_trip);
        }
    }
    assert forall|x: AgencyView, l: Seq<ActionView>|
        h_agency(x) implies l.len() < (#[trigger] agency_deleter(kind, id)(x, l)).1.len() by {
        {
            let k = choose|k: int| 0 <= k < x.routes.len() && route_has_trip(#[trigger] x.routes[k], id);
            assert(h_route(x.routes[k]));
            lemma_map_log_grows(x.routes, l, route_deleter(kind, id), h_route);
        }
    }
    let k = choose|k: int| 0 <= k < app.agencies.len() && agency_has_trip(#[trigger] app.agencies[k], id);
    assert(h_agency(app.agencies[k]));
    lemma_map_log_grows(app.agencies, app.actions, agency_deleter(kind, id), h_agency);
}

/// Deleting the trip `id` leaves no trip of that id live.
pub proof fn lemma_trip_deletion_kills(app: AppDataView, id: Seq<char>)
    ensures
        no_trip_of_id_live(item_deleted(app, "trip"@, id), id),
{
    lemma_trip_deletion_as_map(app, id);
}

/// Deleting a trip and then undoing the entry that the deletion logged
/// first gives back the agencies, routes, trips and stop times as they
/// were, when every trip of that id was live; that entry leaves the log.
pub proof fn lemma_trip_delete_then_undo(app: AppDataView, id: Seq<char>)
    requires
        app_has_trip(app, id),
        trips_of_id_live(app, id),
    ensures
        app.actions.len() < item_deleted(app, "trip"@, id).actions.len(),
        action_undone(item_deleted(app, "trip"@, id), app.actions.len()).agencies == app.agencies,
        forall|k: int|
            0 <= k < action_undone(item_deleted(app, "trip"@, id), app.actions.len()).actions.len()
                ==> (#[trigger] action_undone(item_deleted(app, "trip"@, id), app.actions.len()).actions[k]).id
                != app.actions.len(),
{
    let kind = "trip"@;
    let deleted = item_deleted(app, kind, id);
    let n = app.actions.len();
    lemma_trip_deletion_logs(app, id);
    lemma_trip_deletion_as_map(app, id);
    lemma_deleters_append(kind, id);
    lemma_map_log_appends(app.agencies, app.actions, agency_deleter(kind, id), deletion_entry(kind, id));
    assert(deletion_entry(kind, id)(n as int, deleted.actions[n as int]));
    let entry = deleted.actions[n as int];
    assert(entry.item_type == kind && entry.item_id == id);
    lemma_kinds_differ();
    let undone = action_undone(deleted, n);
    assert forall|i: int| 0 <= i < app.agencies.len() implies #[trigger] undone.agencies[i] == app.agencies[i] by {
        let a = app.agencies[i];
        assert forall|j: int| 0 <= j < a.routes.len() implies #[trigger] undone.agencies[i].routes[j] == a.routes[j] by {
            let r = a.routes[j];
            assert forall|k: int| 0 <= k < r.trips.len() implies #[trigger] undone.agencies[i].routes[j].trips[k] == r.trips[k] by {
                let t = r.trips[k];
                assert(t == app.agencies[i].routes[j].trips[k]);
                let back = undone.agencies[i].routes[j].trips[k];
                assert(back.stops =~= t.stops);
            }
            assert(undone.agencies[i].routes[j].trips =~= r.trips);
        }
        assert(undone.agencies[i].routes =~= a.routes);
    }
    assert(undone.agencies =~= app.agencies);
    assert forall|k: int| 0 <= k < undone.actions.len() implies (#[trigger] undone.actions[k]).id != n by {
        deleted.actions.lemma_filter_pred(crate::undo::other_than(n), k);
    }
}

/// Every stop time of id `id` is live.
pub open spec fn stop_times_of_id_live(app: AppDataView, id: Seq<char>) -> bool {
    forall|i: int, j: int, k: int, m: int|
        0 <= i < app.agencies.len() && 0 <= j < app.agencies[i].routes.len() && 0 <= k
            < app.agencies[i].routes[j].trips.len() && 0 <= m
            < app.agencies[i].routes[j].trips[k].stops.len()
            && (#[trigger] app.agencies[i].routes[j].trips[k].stops[m]).id == id
            ==> app.agencies[i].routes[j].trips[k].stops[m].live
}

/// Whether the editor holds a stop time of id `id`.
pub open spec fn app_has_stop_time(app: AppDataView, id: Seq<char>) -> bool {
    exists|i: int, j: int, k: int, m: int|
        0 <= i < app.agencies.len() && 0 <= j < app.agencies[i].routes.len() && 0 <= k
            < app.agencies[i].routes[j].trips.len() && 0 <= m
            < app.agencies[i].routes[j].trips[k].stops.len()
            && (#[trigger] app.agencies[i].routes[j].trips[k].stops[m]).id == id
}

/// What deleting the stop time `id` does to a stop time.
pub open spec fn stop_time_killer(id: Seq<char>) -> spec_fn(StopTimeView) -> StopTimeView {
    |s: StopTimeView|
        if s.id == id {
            StopTimeView { live: false, ..s }
        } else {
            s
        }
}

/// What deleting the stop time `id` does to a trip.
pub open spec fn trip_stop_killer(id: Seq<char>) -> spec_fn(TripView) -> TripView {
    |t: TripView| TripView { stops: t.stops.map_values(stop_time_killer(id)), ..t }
}

/// What deleting the stop time `id` does to a route.
pub open spec fn route_stop_killer(id: Seq<char>) -> spec_fn(RouteView) -> RouteView {
    |r: RouteView| RouteView { trips: r.trips.map_values(trip_stop_killer(id)), ..r }
}

/// What deleting the stop time `id` does to an agency.
pub open spec fn agency_stop_killer(id: Seq<char>) -> spec_fn(AgencyView) -> AgencyView {
    |a: AgencyView| AgencyView { routes: a.routes.map_values(route_stop_killer(id)), ..a }
}

/// Deleting the stop time `id` changes the agencies as `agency_stop_killer`
/// says.
pub proof fn lemma_stop_time_deletion_as_map(app: AppDataView, id: Seq<char>)
    ensures
        item_deleted(app, "stop_time"@, id).agencies == app.agencies.map_values(
            agency_stop_killer(id),
        ),
{
    lemma_kinds_differ();
    let kind = "stop_time"@;
    assert forall|x: StopTimeView, l: Seq<ActionView>|
        (#[trigger] stop_time_deleter(kind, id)(x, l)).0 == stop_time_killer(id)(x) by {}
    assert forall|x: TripView, l: Seq<ActionView>|
        (#[trigger] trip_deleter(kind, id)(x, l)).0 == trip_stop_killer(id)(x) by {
        lemma_map_log_as_map(x.stops, l, stop_time_deleter(kind, id), stop_time_killer(id));
    }
    assert forall|x: RouteView, l: Seq<ActionView>|
        (#[trigger] route_deleter(kind, id)(x, l)).0 == route_stop_killer(id)(x) by {
        lemma_map_log_as_map(x.trips, l, trip_deleter(kind, id), trip_stop_killer(id));
    }
    assert forall|x: AgencyView, l: Seq<ActionView>|
        (#[trigger] agency_deleter(kind, id)(x, l)).0 == agency_stop_killer(id)(x) by {
        lemma_map_log_as_map(x.routes, l, route_deleter(kind, id), route_stop_killer(id));
    }
    lemma_map_log_as_map(app.agencies, app.actions, agency_deleter(kind, id), agency_stop_killer(id));
}

/// Deleting the stop time `id` logs at least one entry when such a stop
/// time exists.
pub proof fn lemma_stop_time_deletion_logs(app: AppDataView, id: Seq<char>)
    requires
        app_has_stop_time(app, id),
    ensures
        app.actions.len() < item_deleted(app, "stop_time"@, id).actions.len(),
{
    let kind = "stop_time"@;
    lemma_kinds_differ();
    lemma_deleters_append(kind, id);
    let h_stop = |s: StopTimeView| s.id == id;
    let h_trip = |t: TripView| exists|m: int| 0 <= m < t.stops.len() && #[trigger] h_stop(t.stops[m]);
    let h_route = |r: RouteView| exists|k: int| 0 <= k < r.trips.len() && #[trigger] h_trip(r.trips[k]);
    let h_agency = |a: AgencyView| exists|j: int| 0 <= j < a.routes.len() && #[trigger] h_route(a.routes[j]);
    assert forall|x: TripView, l: Seq<ActionView>|
        h_trip(x) implies l.len() < (#[trigger] trip_deleter(kind, id)(x, l)).1.len() by {
        lemma_map_log_grows(x.stops, l, stop_time_deleter(kind, id), h_stop);
    }
    assert forall|x: RouteView, l: Seq<ActionView>|
        h_route(x) implies l.len() < (#[trigger] route_deleter(kind, id)(x, l)).1.len() by {
        lemma_map_log_grows(x.trips, l, trip_deleter(kind, id), h_trip);
    }
    assert forall|x: AgencyView, l: Seq<ActionView>|
        h_agency(x) implies l.len() < (#[trigger] agency_deleter(kind, id)(x, l)).1.len() by {
        lemma_map_log_grows(x.routes, l, route_deleter(kind, id), h_route);
    }
    let (i, j, k, m) = choose|i: int, j: int, k: int, m: int|
        0 <= i < app.agencies.len() && 0 <= j < app.agencies[i].routes.len() && 0 <= k
            < app.agencies[i].routes[j].trips.len() && 0 <= m
            < app.agencies[i].routes[j].trips[k].stops.len()
            && (#[trigger] app.agencies[i].routes[j].trips[k].stops[m]).id == id;
    assert(h_stop(app.agencies[i].routes[j].trips[k].stops[m]));
    assert(h_trip(app.agencies[i].routes[j].trips[k]));
    assert(h_route(app.agencies[i].routes[j]));
    assert(h_agency(app.agencies[i]));
    lemma_map_log_grows(app.agencies, app.actions, agency_deleter(kind, id), h_agency);
}

/// Deleting a stop time and then undoing the entry that the deletion
/// logged first gives back the agencies, routes, trips and stop times as
/// they were, when every stop time of that id was live; that entry leaves
/// the log.
pub proof fn lemma_stop_time_delete_then_undo(app: AppDataView, id: Seq<char>)
    requires
        app_has_stop_time(app, id),
        stop_times_of_id_live(app, id),
    ensures
        app.actions.len() < item_deleted(app, "stop_time"@, id).actions.len(),
        action_undone(item_deleted(app, "stop_time"@, id), app.actions.len()).agencies
            == app.agencies,
        forall|k: int|
            0 <= k < action_undone(item_deleted(app, "stop_time"@, id), app.actions.len()).actions.len()
                ==> (#[trigger] action_undone(
                item_deleted(app, "stop_time"@, id),
                app.actions.len(),
            ).actions[k]).id != app.actions.len(),
{
    let kind = "stop_time"@;
    let deleted = item_deleted(app, kind, id);
    let n = app.actions.len();
    lemma_stop_time_deletion_logs(app, id);
    lemma_stop_time_deletion_as_map(app, id);
    lemma_deleters_append(kind, id);
    lemma_map_log_appends(app.agencies, app.actions, agency_deleter(kind, id), deletion_entry(kind, id));
    assert(deletion_entry(kind, id)(n as int, deleted.actions[n as int]));
    lemma_kinds_differ();
    let undone = action_undone(deleted, n);
    assert forall|i: int| 0 <= i < app.agencies.len() implies #[trigger] undone.agencies[i] == app.agencies[i] by {
        let a = app.agencies[i];
        assert forall|j: int| 0 <= j < a.routes.len() implies #[trigger] undone.agencies[i].routes[j] == a.routes[j] by {
            let r = a.routes[j];
            assert forall|k: int| 0 <= k < r.trips.len() implies #[trigger] undone.agencies[i].routes[j].trips[k] == r.trips[k] by {
                let t = r.trips[k];
                assert forall|m: int| 0 <= m < t.stops.len() implies #[trigger] undone.agencies[i].routes[j].trips[k].stops[m] == t.stops[m] by {
                    assert(t.stops[m] == app.agencies[i].routes[j].trips[k].stops[m]);
                }
                assert(undone.agencies[i].routes[j].trips[k].stops =~= t.stops);
            }
            assert(undone.agencies[i].routes[j].trips =~= r.trips);
        }
        assert(undone.agencies[i].routes =~= a.routes);
    }
    assert(undone.agencies =~= app.agencies);
    assert forall|k: int| 0 <= k < undone.actions.len() implies (#[trigger] undone.actions[k]).id != n by {
        deleted.actions.lemma_filter_pred(crate::undo::other_than(n), k);
    }
}

/// Deleting the stop time `id` leaves no stop time of that id live, and
/// changes nothing else of the agencies, routes, trips or stop times.
pub proof fn lemma_stop_time_deletion_kills(app: AppDataView, id: Seq<char>)
    ensures
        item_deleted(app, "stop_time"@, id).agencies == app.agencies.map_values(
            agency_stop_killer(id),
        ),
        forall|i: int, j: int, k: int, m: int|
            0 <= i < app.agencies.len() && 0 <= j < app.agencies[i].routes.len() && 0 <= k
                < app.agencies[i].routes[j].trips.len() && 0 <= m
                < app.agencies[i].routes[j].trips[k].stops.len()
                && app.agencies[i].routes[j].trips[k].stops[m].id == id ==> !(#[trigger] item_deleted(
                app,
                "stop_time"@,
                id,
            ).agencies[i].routes[j].trips[k].stops[m]).live,
{
    lemma_stop_time_deletion_as_map(app, id);
}

/// What deleting the route `id` does to a route.
pub open spec fn route_deletion(id: Seq<char>) -> spec_fn(RouteView) -> RouteView {
    |r: RouteView|
        if r.id == id {
            RouteView { live: false, ..r }
        } else {
            r
        }
}

/// Deleting the route `id` marks every route of that id deleted and changes
/// nothing else of the agencies, routes, trips or stop times.
pub proof fn lemma_route_deletion(app: AppDataView, id: Seq<char>)
    ensures
        item_deleted(app, "route"@, id).agencies == app.agencies.map_values(
            |a: AgencyView| AgencyView { routes: a.routes.map_values(route_deletion(id)), ..a },
        ),
{
    lemma_kinds_differ();
    let kind = "route"@;
    assert forall|x: StopTimeView, l: Seq<ActionView>|
        (#[trigger] stop_time_deleter(kind, id)(x, l)).0 == (|s: StopTimeView| s)(x) by {}
    assert forall|x: TripView, l: Seq<ActionView>|
        (#[trigger] trip_deleter(kind, id)(x, l)).0 == (|t: TripView| t)(x) by {
        lemma_map_log_as_map(x.stops, l, stop_time_deleter(kind, id), |s: StopTimeView| s);
        assert(x.stops.map_values(|s: StopTimeView| s) =~= x.stops);
    }
    assert forall|x: RouteView, l: Seq<ActionView>|
        (#[trigger] route_deleter(kind, id)(x, l)).0 == route_deletion(id)(x) by {
        if x.id != id {
            lemma_map_log_as_map(x.trips, l, trip_deleter(kind, id), |t: TripView| t);
            assert(x.trips.map_values(|t: TripView| t) =~= x.trips);
        }
    }
    let per_agency = |a: AgencyView| AgencyView { routes: a.routes.map_values(route_deletion(id)), ..a };
    assert forall|x: AgencyView, l: Seq<ActionView>|
        (#[trigger] agency_deleter(kind, id)(x, l)).0 == per_agency(x) by {
        lemma_map_log_as_map(x.routes, l, route_deleter(kind, id), route_deletion(id));
    }
    lemma_map_log_as_map(app.agencies, app.actions, agency_deleter(kind, id), per_agency);
}

/// A walk in which only items that satisfy `h` touch the log, each by
/// appending `e` of the log's length, and at most one item satisfies `h`:
/// the log gains `e` of its length when such an item is there.
pub proof fn lemma_map_log_single<A>(
    items: Seq<A>,
    log: Seq<ActionView>,
    f: spec_fn(A, Seq<ActionView>) -> (A, Seq<ActionView>),
    h: spec_fn(A) -> bool,
    e: spec_fn(nat) -> ActionView,
)
    requires
        forall|l: Seq<ActionView>, k: int|
            0 <= k < items.len() && !h(items[k]) ==> (#[trigger] f(items[k], l)).1 == l,
        forall|l: Seq<ActionView>, k: int|
            0 <= k < items.len() && h(items[k]) ==> (#[trigger] f(items[k], l)).1 == l.push(e(l.len())),
        forall|k1: int, k2: int|
            0 <= k1 < items.len() && 0 <= k2 < items.len() && #[trigger] h(items[k1]) && #[trigger] h(items[k2])
                ==> k1 == k2,
    ensures
        map_log(items, log, f).1 == (if exists|k: int| 0 <= k < items.len() && #[trigger] h(items[k]) {
            log.push(e(log.len()))
        } else {
            log
        }),
    decreases items.len(),
{
    if items.len() > 0 {
        let init = items.drop_last();
        let last = items.len() - 1;
        assert forall|l: Seq<ActionView>, k: int| 0 <= k < init.len() && !h(init[k]) implies (#[trigger] f(init[k], l)).1 == l by {
            assert(init[k] == items[k]);
        }
        assert forall|l: Seq<ActionView>, k: int| 0 <= k < init.len() && h(init[k]) implies (#[trigger] f(init[k], l)).1 == l.push(e(l.len())) by {
            assert(init[k] == items[k]);
        }
        assert forall|k1: int, k2: int|
            0 <= k1 < init.len() && 0 <= k2 < init.len() && #[trigger] h(init[k1]) && #[trigger] h(init[k2]) implies k1 == k2 by {
            assert(init[k1] == items[k1]);
            assert(init[k2] == items[k2]);
        }
        lemma_map_log_single(init, log, f, h, e);
        if h(items[last]) {
            if exists|k: int| 0 <= k < init.len() && #[trigger] h(init[k]) {
                let k = choose|k: int| 0 <= k < init.len() && #[trigger] h(init[k]);
                assert(init[k] == items[k]);
                assert(h(items[k]));
            }
            assert(h(items.last()));
        } else {
            if exists|k: int| 0 <= k < items.len() && #[trigger] h(items[k]) {
                let k = choose|k: int| 0 <= k < items.len() && #[trigger] h(items[k]);
                assert(k != last);
                assert(init[k] == items[k]);
                assert(h(init[k]));
            }
            if exists|k: int| 0 <= k < init.len() && #[trigger] h(init[k]) {
                let k = choose|k: int| 0 <= k < init.len() && #[trigger] h(init[k]);
                assert(init[k] == items[k]);
                assert(h(items[k]));
            }
            assert(!h(items.last()));
        }
    }
}

/// A log whose entries all satisfy `p` is its own filter by `p`.
pub proof fn lemma_filter_keeps_all(log: Seq<ActionView>, p: spec_fn(ActionView) -> bool)
    requires
        forall|j: int| 0 <= j < log.len() ==> p(#[trigger] log[j]),
    ensures
        log.filter(p) == log,
    decreases log.len(),
{
    reveal(Seq::filter);
    if log.len() > 0 {
        let init = log.drop_last();
        assert forall|j: int| 0 <= j < init.len() implies p(#[trigger] init[j]) by {
            assert(init[j] == log[j]);
        }
        lemma_filter_keeps_all(init, p);
        assert(p(log[log.len() - 1]));
        assert(init.push(log.last()) =~= log);
    }
}

/// Undoing the entry just appended at the end of a log whose ids are its
/// positions gives back that log.
pub proof fn lemma_undo_appended(log: Seq<ActionView>, e: ActionView)
    requires
        ids_are_positions(log),
        e.id == log.len(),
    ensures
        log.push(e).filter(crate::undo::other_than(log.len())) == log,
{
    let p = crate::undo::other_than(log.len());
    reveal(Seq::filter);
    assert(log.push(e).drop_last() =~= log);
    assert forall|j: int| 0 <= j < log.len() implies p(#[trigger] log[j]) by {
        assert(log[j].id == j);
    }
    lemma_filter_keeps_all(log, p);
}

/// There is at most one trip of id `id` in the editor.
pub open spec fn at_most_one_trip(app: AppDataView, id: Seq<char>) -> bool {
    forall|i1: int, j1: int, k1: int, i2: int, j2: int, k2: int|
        crate::coalesce::is_trip_position(app, i1, j1, k1) && crate::coalesce::is_trip_position(
            app,
            i2,
            j2,
            k2,
        ) && (#[trigger] app.agencies[i1].routes[j1].trips[k1]).id == id
            && (#[trigger] app.agencies[i2].routes[j2].trips[k2]).id == id ==> i1 == i2 && j1 == j2
            && k1 == k2
}

/// The entry that deleting the trip `t` logs at position `n`.
pub open spec fn trip_deletion_entry(t: TripView, n: nat) -> ActionView {
    ActionView {
        id: n,
        edit_type: EditType::Delete,
        item_type: "trip"@,
        item_id: t.id,
        item_data: Some(ItemDataView::Trip(TripView { live: false, ..t })),
    }
}

/// Deleting the only trip of id `id` logs exactly one entry.
pub proof fn lemma_only_trip_deletion_log(app: AppDataView, id: Seq<char>, i0: int, j0: int, k0: int)
    requires
        crate::coalesce::is_trip_position(app, i0, j0, k0),
        app.agencies[i0].routes[j0].trips[k0].id == id,
        at_most_one_trip(app, id),
    ensures
        item_deleted(app, "trip"@, id).actions == app.actions.push(
            trip_deletion_entry(app.agencies[i0].routes[j0].trips[k0], app.actions.len()),
        ),
{
    lemma_kinds_differ();
    let kind = "trip"@;
    let tu = app.agencies[i0].routes[j0].trips[k0];
    let e = |n: nat| trip_deletion_entry(tu, n);
    let ag = app.agencies;
    let never = |s: StopTimeView| false;
    let h_trip = |t: TripView| trip_has_id(t, id);
    let h_route = |r: RouteView| route_has_trip(r, id);
    let h_agency = |a: AgencyView| agency_has_trip(a, id);
    // stop times never log when a trip is deleted
    assert forall|x: TripView, l: Seq<ActionView>| map_log(x.stops, l, stop_time_deleter(kind, id)).1 == l by {
        lemma_map_log_single(x.stops, l, stop_time_deleter(kind, id), never, e);
    }
    // within a route, only the trip of that id logs
    assert forall|i: int, j: int, l: Seq<ActionView>|
        0 <= i < ag.len() && 0 <= j < ag[i].routes.len() implies #[trigger] map_log(
            ag[i].routes[j].trips,
            l,
            trip_deleter(kind, id),
        ).1 == (if h_route(ag[i].routes[j]) {
            l.push(e(l.len()))
        } else {
            l
        }) by {
        let r = ag[i].routes[j];
        assert forall|l2: Seq<ActionView>, k: int|
            0 <= k < r.trips.len() && h_trip(r.trips[k]) implies (#[trigger] trip_deleter(kind, id)(r.trips[k], l2)).1
            == l2.push(e(l2.len())) by {
            assert(crate::coalesce::is_trip_position(app, i, j, k));
            assert(ag[i].routes[j].trips[k].id == id);
        }
        assert forall|k1: int, k2: int|
            0 <= k1 < r.trips.len() && 0 <= k2 < r.trips.len() && #[trigger] h_trip(r.trips[k1]) && #[trigger] h_trip(r.trips[k2]) implies k1 == k2 by {
            assert(crate::coalesce::is_trip_position(app, i, j, k1));
            assert(crate::coalesce::is_trip_position(app, i, j, k2));
            assert(ag[i].routes[j].trips[k1].id == id);
            assert(ag[i].routes[j].trips[k2].id == id);
        }
        lemma_map_log_single(r.trips, l, trip_deleter(kind, id), h_trip, e);
        if exists|k: int| 0 <= k < r.trips.len() && #[trigger] h_trip(r.trips[k]) {
            let k = choose|k: int| 0 <= k < r.trips.len() && #[trigger] h_trip(r.trips[k]);
            assert(trip_has_id(r.trips[k], id));
        }
        if h_route(r) {
            let k = choose|k: int| 0 <= k < r.trips.len() && trip_has_id(#[trigger] r.trips[k], id);
            assert(h_trip(r.trips[k]));
        }
    }
    // within an agency, only the route holding that trip logs
    assert forall|i: int, l: Seq<ActionView>| 0 <= i < ag.len() implies #[trigger] map_log(
        ag[i].routes,
        l,
        route_deleter(kind, id),
    ).1 == (if h_agency(ag[i]) {
        l.push(e(l.len()))
    } else {
        l
    }) by {
        let a = ag[i];
        assert forall|l2: Seq<ActionView>, j: int|
            0 <= j < a.routes.len() && !h_route(a.routes[j]) implies (#[trigger] route_deleter(kind, id)(a.routes[j], l2)).1
            == l2 by {
            assert(map_log(ag[i].routes[j].trips, l2, trip_deleter(kind, id)).1 == l2);
        }
        assert forall|l2: Seq<ActionView>, j: int|
            0 <= j < a.routes.len() && h_route(a.routes[j]) implies (#[trigger] route_deleter(kind, id)(a.routes[j], l2)).1
            == l2.push(e(l2.len())) by {
            assert(map_log(ag[i].routes[j].trips, l2, trip_deleter(kind, id)).1 == l2.push(e(l2.len())));
        }
        assert forall|j1: int, j2: int|
            0 <= j1 < a.routes.len() && 0 <= j2 < a.routes.len() && #[trigger] h_route(a.routes[j1]) && #[trigger] h_route(a.routes[j2]) implies j1 == j2 by {
            let k1 = choose|k: int| 0 <= k < a.routes[j1].trips.len() && trip_has_id(#[trigger] a.routes[j1].trips[k], id);
            let k2 = choose|k: int| 0 <= k < a.routes[j2].trips.len() && trip_has_id(#[trigger] a.routes[j2].trips[k], id);
            assert(crate::coalesce::is_trip_position(app, i, j1, k1));
            assert(crate::coalesce::is_trip_position(app, i, j2, k2));
            assert(ag[i].routes[j1].trips[k1].id == id);
            assert(ag[i].routes[j2].trips[k2].id == id);
        }
        lemma_map_log_single(a.routes, l, route_deleter(kind, id), h_route, e);
        if exists|j: int| 0 <= j < a.routes.len() && #[trigger] h_route(a.routes[j]) {
            let j = choose|j: int| 0 <= j < a.routes.len() && #[trigger] h_route(a.routes[j]);
            assert(route_has_trip(a.routes[j], id));
        }
        if h_agency(a) {
            let j = choose|j: int| 0 <= j < a.routes.len() && route_has_trip(#[trigger] a.routes[j], id);
            assert(h_route(a.routes[j]));
        }
    }
    // over the agencies, only the agency holding that trip logs
    assert forall|l2: Seq<ActionView>, i: int|
        0 <= i < ag.len() && !h_agency(ag[i]) implies (#[trigger] agency_deleter(kind, id)(ag[i], l2)).1 == l2 by {
        assert(map_log(ag[i].routes, l2, route_deleter(kind, id)).1 == l2);
    }
    assert forall|l2: Seq<ActionView>, i: int|
        0 <= i < ag.len() && h_agency(ag[i]) implies (#[trigger] agency_deleter(kind, id)(ag[i], l2)).1 == l2.push(e(l2.len())) by {
        assert(map_log(ag[i].routes, l2, route_deleter(kind, id)).1 == l2.push(e(l2.len())));
    }
    assert forall|i1: int, i2: int|
        0 <= i1 < ag.len() && 0 <= i2 < ag.len() && #[trigger] h_agency(ag[i1]) && #[trigger] h_agency(ag[i2]) implies i1 == i2 by {
        let j1 = choose|j: int| 0 <= j < ag[i1].routes.len() && route_has_trip(#[trigger] ag[i1].routes[j], id);
        let j2 = choose|j: int| 0 <= j < ag[i2].routes.len() && route_has_trip(#[trigger] ag[i2].routes[j], id);
        let k1 = choose|k: int| 0 <= k < ag[i1].routes[j1].trips.len() && trip_has_id(#[trigger] ag[i1].routes[j1].trips[k], id);
        let k2 = choose|k: int| 0 <= k < ag[i2].routes[j2].trips.len() && trip_has_id(#[trigger] ag[i2].routes[j2].trips[k], id);
        assert(crate::coalesce::is_trip_position(app, i1, j1, k1));
        assert(crate::coalesce::is_trip_position(app, i2, j2, k2));
        assert(ag[i1].routes[j1].trips[k1].id == id);
        assert(ag[i2].routes[j2].trips[k2].id == id);
    }
    lemma_map_log_single(ag, app.actions, agency_deleter(kind, id), h_agency, e);
    assert(h_trip(ag[i0].routes[j0].trips[k0]));
    assert(route_has_trip(ag[i0].routes[j0], id));
    assert(h_route(ag[i0].routes[j0]));
    assert(agency_has_trip(ag[i0], id));
    assert(h_agency(ag[i0]));
}

/// Deleting the only trip of an id, when it is live, and then undoing the
/// entry that the deletion logged gives back the editor's whole state, log
/// included, when every entry's id is its position.
pub proof fn lemma_trip_delete_then_undo_restores_all(app: AppDataView, id: Seq<char>)
    requires
        app_has_trip(app, id),
        at_most_one_trip(app, id),
        trips_of_id_live(app, id),
        ids_are_positions(app.actions),
    ensures
        action_undone(item_deleted(app, "trip"@, id), app.actions.len()) == app,
{
    let i0 = choose|i: int| 0 <= i < app.agencies.len() && agency_has_trip(#[trigger] app.agencies[i], id);
    let a0 = app.agencies[i0];
    let j0 = choose|j: int| 0 <= j < a0.routes.len() && route_has_trip(#[trigger] a0.routes[j], id);
    let r0 = a0.routes[j0];
    let k0 = choose|k: int| 0 <= k < r0.trips.len() && trip_has_id(#[trigger] r0.trips[k], id);
    lemma_only_trip_deletion_log(app, id, i0, j0, k0);
    lemma_trip_delete_then_undo(app, id);
    let entry = trip_deletion_entry(app.agencies[i0].routes[j0].trips[k0], app.actions.len());
    lemma_undo_appended(app.actions, entry);
    let undone = action_undone(item_deleted(app, "trip"@, id), app.actions.len());
    assert(undone.actions == app.actions);
    assert(undone.agencies == app.agencies);
}

/// `(i, j, k, m)` is the position of a stop time of the editor.
pub open spec fn is_stop_time_position(app: AppDataView, i: int, j: int, k: int, m: int) -> bool {
    0 <= i < app.agencies.len() && 0 <= j < app.agencies[i].routes.len() && 0 <= k
        < app.agencies[i].routes[j].trips.len() && 0 <= m
        < app.agencies[i].routes[j].trips[k].stops.len()
}

/// There is at most one stop time of id `id` in the editor.
pub open spec fn at_most_one_stop_time(app: AppDataView, id: Seq<char>) -> bool {
    forall|i1: int, j1: int, k1: int, m1: int, i2: int, j2: int, k2: int, m2: int|
        is_stop_time_position(app, i1, j1, k1, m1) && is_stop_time_position(app, i2, j2, k2, m2)
            && (#[trigger] app.agencies[i1].routes[j1].trips[k1].stops[m1]).id == id
            && (#[trigger] app.agencies[i2].routes[j2].trips[k2].stops[m2]).id == id ==> i1 == i2
            && j1 == j2 && k1 == k2 && m1 == m2
}

/// The entry that deleting the stop time `s` logs at position `n`.
pub open spec fn stop_time_deletion_entry(s: StopTimeView, n: nat) -> ActionView {
    ActionView {
        id: n,
        edit_type: EditType::Delete,
        item_type: "stop_time"@,
        item_id: s.id,
        item_data: Some(ItemDataView::StopTime(StopTimeView { live: false, ..s })),
    }
}

/// Deleting the only stop time of id `id` logs exactly one entry.
pub proof fn lemma_only_stop_time_deletion_log(
    app: AppDataView,
    id: Seq<char>,
    i0: int,
    j0: int,
    k0: int,
    m0: int,
)
    requires
        is_stop_time_position(app, i0, j0, k0, m0),
        app.agencies[i0].routes[j0].trips[k0].stops[m0].id == id,
        at_most_one_stop_time(app, id),
    ensures
        item_deleted(app, "stop_time"@, id).actions == app.actions.push(
            stop_time_deletion_entry(
                app.agencies[i0].routes[j0].trips[k0].stops[m0],
                app.actions.len(),
            ),
        ),
{
    lemma_kinds_differ();
    let kind = "stop_time"@;
    let su = app.agencies[i0].routes[j0].trips[k0].stops[m0];
    let e = |n: nat| stop_time_deletion_entry(su, n);
    let ag = app.agencies;
    let h_stop = |s: StopTimeView| s.id == id;
    let h_trip = |t: TripView| exists|m: int| 0 <= m < t.stops.len() && #[trigger] h_stop(t.stops[m]);
    let h_route = |r: RouteView| exists|k: int| 0 <= k < r.trips.len() && #[trigger] h_trip(r.trips[k]);
    let h_agency = |a: AgencyView| exists|j: int| 0 <= j < a.routes.len() && #[trigger] h_route(a.routes[j]);
    // within a trip, only the stop time of that id logs
    assert forall|i: int, j: int, k: int, l: Seq<ActionView>|
        0 <= i < ag.len() && 0 <= j < ag[i].routes.len() && 0 <= k < ag[i].routes[j].trips.len() implies #[trigger] map_log(
            ag[i].routes[j].trips[k].stops,
            l,
            stop_time_deleter(kind, id),
        ).1 == (if h_trip(ag[i].routes[j].trips[k]) {
            l.push(e(l.len()))
        } else {
            l
        }) by {
        let t = ag[i].routes[j].trips[k];
        assert forall|l2: Seq<ActionView>, m: int|
            0 <= m < t.stops.len() && h_stop(t.stops[m]) implies (#[trigger] stop_time_deleter(kind, id)(t.stops[m], l2)).1
            == l2.push(e(l2.len())) by {
            assert(is_stop_time_position(app, i, j, k, m));
            assert(ag[i].routes[j].trips[k].stops[m].id == id);
        }
        assert forall|m1: int, m2: int|
            0 <= m1 < t.stops.len() && 0 <= m2 < t.stops.len() && #[trigger] h_stop(t.stops[m1]) && #[trigger] h_stop(t.stops[m2]) implies m1 == m2 by {
            assert(is_stop_time_position(app, i, j, k, m1));
            assert(is_stop_time_position(app, i, j, k, m2));
            assert(ag[i].routes[j].trips[k].stops[m1].id == id);
            assert(ag[i].routes[j].trips[k].stops[m2].id == id);
        }
        lemma_map_log_single(t.stops, l, stop_time_deleter(kind, id), h_stop, e);
    }
    // within a route, only the trip holding that stop time logs
    assert forall|i: int, j: int, l: Seq<ActionView>|
        0 <= i < ag.len() && 0 <= j < ag[i].routes.len() implies #[trigger] map_log(
            ag[i].routes[j].trips,
            l,
            trip_deleter(kind, id),
        ).1 == (if h_route(ag[i].routes[j]) {
            l.push(e(l.len()))
        } else {
            l
        }) by {
        let r = ag[i].routes[j];
        assert forall|l2: Seq<ActionView>, k: int|
            0 <= k < r.trips.len() && !h_trip(r.trips[k]) implies (#[trigger] trip_deleter(kind, id)(r.trips[k], l2)).1
            == l2 by {
            assert(map_log(ag[i].routes[j].trips[k].stops, l2, stop_time_deleter(kind, id)).1 == l2);
        }
        assert forall|l2: Seq<ActionView>, k: int|
            0 <= k < r.trips.len() && h_trip(r.trips[k]) implies (#[trigger] trip_deleter(kind, id)(r.trips[k], l2)).1
            == l2.push(e(l2.len())) by {
            assert(map_log(ag[i].routes[j].trips[k].stops, l2, stop_time_deleter(kind, id)).1 == l2.push(e(l2.len())));
        }
        assert forall|k1: int, k2: int|
            0 <= k1 < r.trips.len() && 0 <= k2 < r.trips.len() && #[trigger] h_trip(r.trips[k1]) && #[trigger] h_trip(r.trips[k2]) implies k1 == k2 by {
            let m1 = choose|m: int| 0 <= m < r.trips[k1].stops.len() && #[trigger] h_stop(r.trips[k1].stops[m]);
            let m2 = choose|m: int| 0 <= m < r.trips[k2].stops.len() && #[trigger] h_stop(r.trips[k2].stops[m]);
            assert(is_stop_time_position(app, i, j, k1, m1));
            assert(is_stop_time_position(app, i, j, k2, m2));
            assert(ag[i].routes[j].trips[k1].stops[m1].id == id);
            assert(ag[i].routes[j].trips[k2].stops[m2].id == id);
        }
        lemma_map_log_single(r.trips, l, trip_deleter(kind, id), h_trip, e);
    }
    // within an agency, only the route holding that stop time logs
    assert forall|i: int, l: Seq<ActionView>| 0 <= i < ag.len() implies #[trigger] map_log(
        ag[i].routes,
        l,
        route_deleter(kind, id),
    ).1 == (if h_agency(ag[i]) {
        l.push(e(l.len()))
    } else {
        l
    }) by {
        let a = ag[i];
        assert forall|l2: Seq<ActionView>, j: int|
            0 <= j < a.routes.len() && !h_route(a.routes[j]) implies (#[trigger] route_deleter(kind, id)(a.routes[j], l2)).1
            == l2 by {
            assert(map_log(ag[i].routes[j].trips, l2, trip_deleter(kind, id)).1 == l2);
        }
        assert forall|l2: Seq<ActionView>, j: int|
            0 <= j < a.routes.len() && h_route(a.routes[j]) implies (#[trigger] route_deleter(kind, id)(a.routes[j], l2)).1
            == l2.push(e(l2.len())) by {
            assert(map_log(ag[i].routes[j].trips, l2, trip_deleter(kind, id)).1 == l2.push(e(l2.len())));
        }
        assert forall|j1: int, j2: int|
            0 <= j1 < a.routes.len() && 0 <= j2 < a.routes.len() && #[trigger] h_route(a.routes[j1]) && #[trigger] h_route(a.routes[j2]) implies j1 == j2 by {
            let k1 = choose|k: int| 0 <= k < a.routes[j1].trips.len() && #[trigger] h_trip(a.routes[j1].trips[k]);
            let k2 = choose|k: int| 0 <= k < a.routes[j2].trips.len() && #[trigger] h_trip(a.routes[j2].trips[k]);
            let m1 = choose|m: int| 0 <= m < a.routes[j1].trips[k1].stops.len() && #[trigger] h_stop(a.routes[j1].trips[k1].stops[m]);
            let m2 = choose|m: int| 0 <= m < a.routes[j2].trips[k2].stops.len() && #[trigger] h_stop(a.routes[j2].trips[k2].stops[m]);
            assert(is_stop_time_position(app, i, j1, k1, m1));
            assert(is_stop_time_position(app, i, j2, k2, m2));
            assert(ag[i].routes[j1].trips[k1].stops[m1].id == id);
            assert(ag[i].routes[j2].trips[k2].stops[m2].id == id);
        }
        lemma_map_log_single(a.routes, l, route_deleter(kind, id), h_route, e);
    }
    // over the agencies, only the agency holding that stop time logs
    assert forall|l2: Seq<ActionView>, i: int|
        0 <= i < ag.len() && !h_agency(ag[i]) implies (#[trigger] agency_deleter(kind, id)(ag[i], l2)).1 == l2 by {
        assert(map_log(ag[i].routes, l2, route_deleter(kind, id)).1 == l2);
    }
    assert forall|l2: Seq<ActionView>, i: int|
        0 <= i < ag.len() && h_agency(ag[i]) implies (#[trigger] agency_deleter(kind, id)(ag[i], l2)).1 == l2.push(e(l2.len())) by {
        assert(map_log(ag[i].routes, l2, route_deleter(kind, id)).1 == l2.push(e(l2.len())));
    }
    assert forall|i1: int, i2: int|
        0 <= i1 < ag.len() && 0 <= i2 < ag.len() && #[trigger] h_agency(ag[i1]) && #[trigger] h_agency(ag[i2]) implies i1 == i2 by {
        let j1 = choose|j: int| 0 <= j < ag[i1].routes.len() && #[trigger] h_route(ag[i1].routes[j]);
        let j2 = choose|j: int| 0 <= j < ag[i2].routes.len() && #[trigger] h_route(ag[i2].routes[j]);
        let k1 = choose|k: int| 0 <= k < ag[i1].routes[j1].trips.len() && #[trigger] h_trip(ag[i1].routes[j1].trips[k]);
        let k2 = choose|k: int| 0 <= k < ag[i2].routes[j2].trips.len() && #[trigger] h_trip(ag[i2].routes[j2].trips[k]);
        let m1 = choose|m: int| 0 <= m < ag[i1].routes[j1].trips[k1].stops.len() && #[trigger] h_stop(ag[i1].routes[j1].trips[k1].stops[m]);
        let m2 = choose|m: int| 0 <= m < ag[i2].routes[j2].trips[k2].stops.len() && #[trigger] h_stop(ag[i2].routes[j2].trips[k2].stops[m]);
        assert(is_stop_time_position(app, i1, j1, k1, m1));
        assert(is_stop_time_position(app, i2, j2, k2, m2));
        assert(ag[i1].routes[j1].trips[k1].stops[m1].id == id);
        assert(ag[i2].routes[j2].trips[k2].stops[m2].id == id);
    }
    lemma_map_log_single(ag, app.actions, agency_deleter(kind, id), h_agency, e);
    assert(h_stop(ag[i0].routes[j0].trips[k0].stops[m0]));
    assert(h_trip(ag[i0].routes[j0].trips[k0]));
    assert(h_route(ag[i0].routes[j0]));
    assert(h_agency(ag[i0]));
}

/// Deleting the only stop time of an id, when it is live, and then undoing
/// the entry that the deletion logged gives back the editor's whole state,
/// log included, when every entry's id is its position.
pub proof fn lemma_stop_time_delete_then_undo_restores_all(app: AppDataView, id: Seq<char>)
    requires
        app_has_stop_time(app, id),
        at_most_one_stop_time(app, id),
        stop_times_of_id_live(app, id),
        ids_are_positions(app.actions),
    ensures
        action_undone(item_deleted(app, "stop_time"@, id), app.actions.len()) == app,
{
    let (i0, j0, k0, m0) = choose|i: int, j: int, k: int, m: int|
        0 <= i < app.agencies.len() && 0 <= j < app.agencies[i].routes.len() && 0 <= k
            < app.agencies[i].routes[j].trips.len() && 0 <= m
            < app.agencies[i].routes[j].trips[k].stops.len()
            && (#[trigger] app.agencies[i].routes[j].trips[k].stops[m]).id == id;
    assert(is_stop_time_position(app, i0, j0, k0, m0));
    lemma_only_stop_time_deletion_log(app, id, i0, j0, k0, m0);
    lemma_stop_time_delete_then_undo(app, id);
    let entry = stop_time_deletion_entry(
        app.agencies[i0].routes[j0].trips[k0].stops[m0],
        app.actions.len(),
    );
    lemma_undo_appended(app.actions, entry);
    let undone = action_undone(item_deleted(app, "stop_time"@, id), app.actions.len());
    assert(undone.actions == app.actions);
    assert(undone.agencies == app.agencies);
}

} // verus!
