use im::Vector;
use vstd::prelude::*;

use crate::log::{lemma_map_log_take, lemma_map_update, logged, map_log, record};
use crate::model::{
    Action, ActionView, AgencyView, AppData, AppDataView, EditType, ItemData, ItemDataView,
    MyAgency, MyRoute, MyStopTime, MyTrip, RouteView, StopTimeView, TripView,
};
use crate::text::same_text;
use crate::vector::{
    action_views, agencies_in, agencies_len, agencies_set, agency_views, route_views, routes_in,
    routes_len, routes_set, stop_time_views, stop_times_in, stop_times_len, stop_times_set,
    trip_views, trips_in, trips_len, trips_set,
};

verus! {

/// Deleting the item `(kind, id)` at a stop time: a stop time of that id is
/// marked deleted and the deletion logged.
pub open spec fn stop_time_deleted(
    kind: Seq<char>,
    id: Seq<char>,
    s: StopTimeView,
    log: Seq<ActionView>,
) -> (StopTimeView, Seq<ActionView>) {
    if kind == "stop_time"@ && s.id == id {
        let gone = StopTimeView { live: false, ..s };
        (gone, logged(log, EditType::Delete, "stop_time"@, s.id, ItemDataView::StopTime(gone)))
    } else {
        (s, log)
    }
}

/// `stop_time_deleted` for the item `(kind, id)`, as a function.
pub open spec fn stop_time_deleter(kind: Seq<char>, id: Seq<char>) -> spec_fn(
    StopTimeView,
    Seq<ActionView>,
) -> (StopTimeView, Seq<ActionView>) {
    |s: StopTimeView, log: Seq<ActionView>| stop_time_deleted(kind, id, s, log)
}

/// Deleting `(kind, id)` at a trip: a trip of that id is marked deleted and
/// the deletion logged; any other trip passes the deletion on to its stop
/// times.
pub open spec fn trip_deleted(
    kind: Seq<char>,
    id: Seq<char>,
    t: TripView,
    log: Seq<ActionView>,
) -> (TripView, Seq<ActionView>) {
    if kind == "trip"@ && t.id == id {
        let gone = TripView { live: false, ..t };
        (gone, logged(log, EditType::Delete, "trip"@, t.id, ItemDataView::Trip(gone)))
    } else {
        let inner = map_log(t.stops, log, stop_time_deleter(kind, id));
        (TripView { stops: inner.0, ..t }, inner.1)
    }
}

/// `trip_deleted` for the item `(kind, id)`, as a function.
pub open spec fn trip_deleter(kind: Seq<char>, id: Seq<char>) -> spec_fn(
    TripView,
    Seq<ActionView>,
) -> (TripView, Seq<ActionView>) {
    |t: TripView, log: Seq<ActionView>| trip_deleted(kind, id, t, log)
}

/// Deleting `(kind, id)` at a route: a route of that id is marked deleted
/// and the deletion logged; any other route passes the deletion on to its
/// trips.
pub open spec fn route_deleted(
    kind: Seq<char>,
    id: Seq<char>,
    r: RouteView,
    log: Seq<ActionView>,
) -> (RouteView, Seq<ActionView>) {
    if kind == "route"@ && r.id == id {
        let gone = RouteView { live: false, ..r };
        (gone, logged(log, EditType::Delete, "route"@, r.id, ItemDataView::Route(gone)))
    } else {
        let inner = map_log(r.trips, log, trip_deleter(kind, id));
        (RouteView { trips: inner.0, ..r }, inner.1)
    }
}

/// `route_deleted` for the item `(kind, id)`, as a function.
pub open spec fn route_deleter(kind: Seq<char>, id: Seq<char>) -> spec_fn(
    RouteView,
    Seq<ActionView>,
) -> (RouteView, Seq<ActionView>) {
    |r: RouteView, log: Seq<ActionView>| route_deleted(kind, id, r, log)
}

/// Deleting `(kind, id)` at an agency: agencies themselves are not deleted;
/// the deletion passes on to the routes.
pub open spec fn agency_deleted(
    kind: Seq<char>,
    id: Seq<char>,
    a: AgencyView,
    log: Seq<ActionView>,
) -> (AgencyView, Seq<ActionView>) {
    let inner = map_log(a.routes, log, route_deleter(kind, id));
    (AgencyView { routes: inner.0, ..a }, inner.1)
}

/// `agency_deleted` for the item `(kind, id)`, as a function.
pub open spec fn agency_deleter(kind: Seq<char>, id: Seq<char>) -> spec_fn(
    AgencyView,
    Seq<ActionView>,
) -> (AgencyView, Seq<ActionView>) {
    |a: AgencyView, log: Seq<ActionView>| agency_deleted(kind, id, a, log)
}

/// The editor's state after deleting the item `(kind, id)`: every route,
/// trip or stop time of that kind and id, in the order agency, route, trip,
/// stop time, is marked deleted and gets a `Delete` entry in the log. A
/// deleted route or trip is not searched further.
pub open spec fn item_deleted(app: AppDataView, kind: Seq<char>, id: Seq<char>) -> AppDataView {
    let walk = map_log(app.agencies, app.actions, agency_deleter(kind, id));
    AppDataView { agencies: walk.0, actions: walk.1, ..app }
}

impl MyStopTime {
    /// Marks this stop time deleted, and logs it, when it is the item
    /// `(kind, id)`.
    pub fn delete_matching(&mut self, kind: &str, id: &str, actions: &mut Vector<Action>)
        ensures
            (final(self)@, action_views(*final(actions))) == stop_time_deleted(
                kind@,
                id@,
                old(self)@,
                action_views(*old(actions)),
            ),
    {
        if same_text(kind, "stop_time") && same_text(self.id.as_str(), id) {
            self.live = false;
            let snapshot = ItemData::StopTime(self.clone());
            record(actions, EditType::Delete, "stop_time", self.id.clone(), snapshot);
        }
    }
}

impl MyTrip {
    /// Marks this trip deleted, and logs it, when it is the item `(kind, id)`;
    /// otherwise passes the deletion on to its stop times.
    pub fn delete_matching(&mut self, kind: &str, id: &str, actions: &mut Vector<Action>)
        ensures
            (final(self)@, action_views(*final(actions))) == trip_deleted(
                kind@,
                id@,
                old(self)@,
                action_views(*old(actions)),
            ),
    {
        if same_text(kind, "trip") && same_text(self.id.as_str(), id) {
            self.live = false;
            let snapshot = ItemData::Trip(self.clone());
            record(actions, EditType::Delete, "trip", self.id.clone(), snapshot);
        } else {
            delete_in_stop_times(&mut self.stops, kind, id, actions);
        }
    }
}

impl MyRoute {
    /// Marks this route deleted, and logs it, when it is the item `(kind, id)`;
    /// otherwise passes the deletion on to its trips.
    pub fn delete_matching(&mut self, kind: &str, id: &str, actions: &mut Vector<Action>)
        ensures
            (final(self)@, action_views(*final(actions))) == route_deleted(
                kind@,
                id@,
                old(self)@,
                action_views(*old(actions)),
            ),
    {
        if same_text(kind, "route") && same_text(self.id.as_str(), id) {
            self.live = false;
            let snapshot = ItemData::Route(self.clone());
            record(actions, EditType::Delete, "route", self.id.clone(), snapshot);
        } else {
            delete_in_trips(&mut self.trips, kind, id, actions);
        }
    }
}

impl MyAgency {
    /// Passes the deletion of `(kind, id)` on to the routes.
    pub fn delete_matching(&mut self, kind: &str, id: &str, actions: &mut Vector<Action>)
        ensures
            (final(self)@, action_views(*final(actions))) == agency_deleted(
                kind@,
                id@,
                old(self)@,
                action_views(*old(actions)),
            ),
    {
        delete_in_routes(&mut self.routes, kind, id, actions);
    }
}

impl AppData {
    /// Deletes the item `(kind, id)`: see `item_deleted`.
    pub fn delete_item(&mut self, kind: &str, id: &str)
        ensures
            final(self)@ == item_deleted(old(self)@, kind@, id@),
            final(self).edits == old(self).edits,
    {
        delete_in_agencies(&mut self.agencies, kind, id, &mut self.actions);
    }
}

/// Passes the deletion of `(kind, id)` to each stop time in turn.
pub fn delete_in_stop_times(
    stops: &mut Vector<MyStopTime>,
    kind: &str,
    id: &str,
    actions: &mut Vector<Action>,
)
    ensures
        (stop_time_views(*final(stops)), action_views(*final(actions))) == map_log(
            stop_time_views(*old(stops)),
            action_views(*old(actions)),
            stop_time_deleter(kind@, id@),
        ),
{
    let ghost items0 = stop_time_views(*stops);
    let ghost log0 = action_views(*actions);
    let ghost f = stop_time_deleter(kind@, id@);
    let n = stop_times_len(stops);
    let mut i: usize = 0;
    while i < n
        invariant
            0 <= i <= n,
            n == stop_times_in(*stops).len(),
            n == items0.len(),
            f == stop_time_deleter(kind@, id@),
            forall|j: int| i <= j < n ==> #[trigger] stop_time_views(*stops)[j] == items0[j],
            map_log(items0.take(i as int), log0, f) == (
                stop_time_views(*stops).take(i as int),
                action_views(*actions),
            ),
        decreases n - i,
    {
        let ghost before = stop_times_in(*stops);
        let ghost before_views = stop_time_views(*stops);
        assert(stop_time_views(*stops)[i as int] == items0[i as int]);
        let mut item = stop_times_set(stops, i, MyStopTime::empty());
        assert(item@ == before_views[i as int]);
        item.delete_matching(kind, id, actions);
        let ghost changed = item@;
        stop_times_set(stops, i, item);
        proof {
            lemma_map_log_take(items0, log0, f, i as int);
            assert(stop_times_in(*stops) =~= before.update(i as int, item));
            lemma_map_update(before, i as int, item, |x: MyStopTime| x@);
            assert(stop_time_views(*stops) =~= before_views.update(i as int, changed));
            assert(stop_time_views(*stops).take(i + 1) =~= stop_time_views(*stops).take(i as int).push(changed));
            assert(stop_time_views(*stops).take(i as int) =~= before_views.take(i as int));
        }
        i = i + 1;
    }
    proof {
        assert(items0.take(n as int) =~= items0);
        assert(stop_time_views(*stops).take(n as int) =~= stop_time_views(*stops));
    }
}

/// Passes the deletion of `(kind, id)` to each trip in turn.
pub fn delete_in_trips(
    trips: &mut Vector<MyTrip>,
    kind: &str,
    id: &str,
    actions: &mut Vector<Action>,
)
    ensures
        (trip_views(*final(trips)), action_views(*final(actions))) == map_log(
            trip_views(*old(trips)),
            action_views(*old(actions)),
            trip_deleter(kind@, id@),
        ),
{
    let ghost items0 = trip_views(*trips);
    let ghost log0 = action_views(*actions);
    let ghost f = trip_deleter(kind@, id@);
    let n = trips_len(trips);
    let mut i: usize = 0;
    while i < n
        invariant
            0 <= i <= n,
            n == trips_in(*trips).len(),
            n == items0.len(),
            f == trip_deleter(kind@, id@),
            forall|j: int| i <= j < n ==> #[trigger] trip_views(*trips)[j] == items0[j],
            map_log(items0.take(i as int), log0, f) == (
                trip_views(*trips).take(i as int),
                action_views(*actions),
            ),
        decreases n - i,
    {
        let ghost before = trips_in(*trips);
        let ghost before_views = trip_views(*trips);
        assert(trip_views(*trips)[i as int] == items0[i as int]);
        let mut item = trips_set(trips, i, MyTrip::empty());
        assert(item@ == before_views[i as int]);
        item.delete_matching(kind, id, actions);
        let ghost changed = item@;
        trips_set(trips, i, item);
        proof {
            lemma_map_log_take(items0, log0, f, i as int);
            assert(trips_in(*trips) =~= before.update(i as int, item));
            lemma_map_update(before, i as int, item, |x: MyTrip| x@);
            assert(trip_views(*trips) =~= before_views.update(i as int, changed));
            assert(trip_views(*trips).take(i + 1) =~= trip_views(*trips).take(i as int).push(changed));
            assert(trip_views(*trips).take(i as int) =~= before_views.take(i as int));
        }
        i = i + 1;
    }
    proof {
        assert(items0.take(n as int) =~= items0);
        assert(trip_views(*trips).take(n as int) =~= trip_views(*trips));
    }
}

/// Passes the deletion of `(kind, id)` to each route in turn.
pub fn delete_in_routes(
    routes: &mut Vector<MyRoute>,
    kind: &str,
    id: &str,
    actions: &mut Vector<Action>,
)
    ensures
        (route_views(*final(routes)), action_views(*final(actions))) == map_log(
            route_views(*old(routes)),
            action_views(*old(actions)),
            route_deleter(kind@, id@),
        ),
{
    let ghost items0 = route_views(*routes);
    let ghost log0 = action_views(*actions);
    let ghost f = route_deleter(kind@, id@);
    let n = routes_len(routes);
    let mut i: usize = 0;
    while i < n
        invariant
            0 <= i <= n,
            n == routes_in(*routes).len(),
            n == items0.len(),
            f == route_deleter(kind@, id@),
            forall|j: int| i <= j < n ==> #[trigger] route_views(*routes)[j] == items0[j],
            map_log(items0.take(i as int), log0, f) == (
                route_views(*routes).take(i as int),
                action_views(*actions),
            ),
        decreases n - i,
    {
        let ghost before = routes_in(*routes);
        let ghost before_views = route_views(*routes);
        assert(route_views(*routes)[i as int] == items0[i as int]);
        let mut item = routes_set(routes, i, MyRoute::empty());
        assert(item@ == before_views[i as int]);
        item.delete_matching(kind, id, actions);
        let ghost changed = item@;
        routes_set(routes, i, item);
        proof {
            lemma_map_log_take(items0, log0, f, i as int);
            assert(routes_in(*routes) =~= before.update(i as int, item));
            lemma_map_update(before, i as int, item, |x: MyRoute| x@);
            assert(route_views(*routes) =~= before_views.update(i as int, changed));
            assert(route_views(*routes).take(i + 1) =~= route_views(*routes).take(i as int).push(changed));
            assert(route_views(*routes).take(i as int) =~= before_views.take(i as int));
        }
        i = i + 1;
    }
    proof {
        assert(items0.take(n as int) =~= items0);
        assert(route_views(*routes).take(n as int) =~= route_views(*routes));
    }
}

/// Passes the deletion of `(kind, id)` to each agency in turn.
pub fn delete_in_agencies(
    agencies: &mut Vector<MyAgency>,
    kind: &str,
    id: &str,
    actions: &mut Vector<Action>,
)
    ensures
        (agency_views(*final(agencies)), action_views(*final(actions))) == map_log(
            agency_views(*old(agencies)),
            action_views(*old(actions)),
            agency_deleter(kind@, id@),
        ),
{
    let ghost items0 = agency_views(*agencies);
    let ghost log0 = action_views(*actions);
    let ghost f = agency_deleter(kind@, id@);
    let n = agencies_len(agencies);
    let mut i: usize = 0;
    while i < n
        invariant
            0 <= i <= n,
            n == agencies_in(*agencies).len(),
            n == items0.len(),
            f == agency_deleter(kind@, id@),
            forall|j: int| i <= j < n ==> #[trigger] agency_views(*agencies)[j] == items0[j],
            map_log(items0.take(i as int), log0, f) == (
                agency_views(*agencies).take(i as int),
                action_views(*actions),
            ),
        decreases n - i,
    {
        let ghost before = agencies_in(*agencies);
        let ghost before_views = agency_views(*agencies);
        assert(agency_views(*agencies)[i as int] == items0[i as int]);
        let mut item = agencies_set(agencies, i, MyAgency::empty());
        assert(item@ == before_views[i as int]);
        item.delete_matching(kind, id, actions);
        let ghost changed = item@;
        agencies_set(agencies, i, item);
        proof {
            lemma_map_log_take(items0, log0, f, i as int);
            assert(agencies_in(*agencies) =~= before.update(i as int, item));
            lemma_map_update(before, i as int, item, |x: MyAgency| x@);
            assert(agency_views(*agencies) =~= before_views.update(i as int, changed));
            assert(agency_views(*agencies).take(i + 1) =~= agency_views(*agencies).take(i as int).push(changed));
            assert(agency_views(*agencies).take(i as int) =~= before_views.take(i as int));
        }
        i = i + 1;
    }
    proof {
        assert(items0.take(n as int) =~= items0);
        assert(agency_views(*agencies).take(n as int) =~= agency_views(*agencies));
    }
}

} // verus!
