use im::Vector;
use vstd::prelude::*;

use crate::log::{lemma_map_log_take, lemma_map_update, logged, map_log, record};
use crate::model::{
    Action, ActionView, AgencyView, AppData, AppDataView, EditType, ItemData, ItemDataView,
    MyAgency, MyContinuousPickupDropOff, MyRoute, MyTrip, RouteView, StopTimeView, TripView,
};
use crate::text::{decimal, decimal_text, same_text};
use crate::vector::{
    action_views, agencies_in, agencies_len, agencies_set, agency_views, route_views, routes_in,
    routes_len, routes_push, routes_set, stop_time_views, stop_times_new, trip_views, trips_in, trips_new,
    trips_len, trips_push,
};

verus! {

/// The id given to the `n`-th child of the item `parent`: the parent's id,
/// a hyphen and `n` in decimal.
pub open spec fn child_id(parent: Seq<char>, n: nat) -> Seq<char> {
    parent + "-"@ + decimal(n)
}

/// The route that `new_child` adds to an agency: live, marked new, empty,
/// owned by the agency.
pub open spec fn new_route(a: AgencyView) -> RouteView {
    RouteView {
        id: child_id(a.id, a.routes.len()),
        short_name: Seq::empty(),
        long_name: Seq::empty(),
        desc: None,
        url: None,
        agency_id: Some(a.id),
        order: None,
        continuous_pickup: MyContinuousPickupDropOff::NotAvailable,
        selected: false,
        expanded: false,
        live: true,
        new: true,
        trips: Seq::empty(),
    }
}

/// The trip that `new_child` adds to a route: live and empty.
pub open spec fn new_trip(r: RouteView) -> TripView {
    TripView {
        id: child_id(r.id, r.trips.len()),
        name: Seq::empty(),
        trip_headsign: Seq::empty(),
        selected: false,
        expanded: false,
        live: true,
        stops: Seq::empty(),
    }
}

/// Adding a child to the item `(kind, parent_id)` at a route: that route
/// gets a new trip, logged as a `Create` of a trip with the route's snapshot.
pub open spec fn route_child_added(
    kind: Seq<char>,
    parent_id: Seq<char>,
    r: RouteView,
    log: Seq<ActionView>,
) -> (RouteView, Seq<ActionView>) {
    if kind == "route"@ && r.id == parent_id {
        let grown = RouteView { trips: r.trips.push(new_trip(r)), ..r };
        (grown, logged(log, EditType::Create, "trip"@, r.id, ItemDataView::Route(grown)))
    } else {
        (r, log)
    }
}

/// `route_child_added` for the item `(kind, parent_id)`, as a function.
pub open spec fn route_child_adder(kind: Seq<char>, parent_id: Seq<char>) -> spec_fn(
    RouteView,
    Seq<ActionView>,
) -> (RouteView, Seq<ActionView>) {
    |r: RouteView, log: Seq<ActionView>| route_child_added(kind, parent_id, r, log)
}

/// Adding a child at an agency: that agency gets a new route, logged as a
/// `Create` of a route with the agency's snapshot; any other agency passes
/// the request on to its routes.
pub open spec fn agency_child_added(
    kind: Seq<char>,
    parent_id: Seq<char>,
    a: AgencyView,
    log: Seq<ActionView>,
) -> (AgencyView, Seq<ActionView>) {
    if kind == "agency"@ && a.id == parent_id {
        let grown = AgencyView { routes: a.routes.push(new_route(a)), ..a };
        (grown, logged(log, EditType::Create, "route"@, a.id, ItemDataView::Agency(grown)))
    } else {
        let inner = map_log(a.routes, log, route_child_adder(kind, parent_id));
        (AgencyView { routes: inner.0, ..a }, inner.1)
    }
}

/// `agency_child_added` for the item `(kind, parent_id)`, as a function.
pub open spec fn agency_child_adder(kind: Seq<char>, parent_id: Seq<char>) -> spec_fn(
    AgencyView,
    Seq<ActionView>,
) -> (AgencyView, Seq<ActionView>) {
    |a: AgencyView, log: Seq<ActionView>| agency_child_added(kind, parent_id, a, log)
}

/// The editor's state after a new child was asked for the item
/// `(kind, parent_id)`: every agency or route of that kind and id, in order,
/// gets a new child and a `Create` entry in the log.
pub open spec fn child_added(app: AppDataView, kind: Seq<char>, parent_id: Seq<char>) -> AppDataView {
    let walk = map_log(app.agencies, app.actions, agency_child_adder(kind, parent_id));
    AppDataView { agencies: walk.0, actions: walk.1, ..app }
}

/// The id of the `n`-th child of the item of id `parent`.
pub fn make_child_id(parent: &String, n: usize) -> (r: String)
    ensures
        r@ == child_id(parent@, n as nat),
{
    let mut id = parent.clone();
    id.append("-");
    let number = decimal_text(n as u64);
    id.append(number.as_str());
    id
}

impl MyAgency {
    /// Adds a new route to this agency (see `new_route`).
    pub fn new_child(&mut self)
        ensures
            final(self)@ == (AgencyView { routes: old(self)@.routes.push(new_route(old(self)@)), ..old(self)@ }),
    {
        let n = routes_len(&self.routes);
        let route = MyRoute {
            id: make_child_id(&self.id, n),
            short_name: String::new(),
            long_name: String::new(),
            desc: None,
            url: None,
            agency_id: Some(self.id.clone()),
            order: None,
            continuous_pickup: MyContinuousPickupDropOff::NotAvailable,
            selected: false,
            expanded: false,
            live: true,
            new: true,
            trips: trips_new(),
        };
        assert(trip_views(route.trips) =~= Seq::<TripView>::empty());
        assert(route@ == new_route(self@));
        let ghost before = routes_in(self.routes);
        routes_push(&mut self.routes, route);
        assert(route_views(self.routes) =~= before.map_values(|x: MyRoute| x@).push(route@));
    }

    /// Adds a child, and logs it, when this agency is the item
    /// `(kind, parent_id)`; otherwise passes the request on to its routes.
    pub fn add_child_matching(&mut self, kind: &str, parent_id: &str, actions: &mut Vector<Action>)
        ensures
            (final(self)@, action_views(*final(actions))) == agency_child_added(
                kind@,
                parent_id@,
                old(self)@,
                action_views(*old(actions)),
            ),
    {
        if same_text(kind, "agency") && same_text(self.id.as_str(), parent_id) {
            self.new_child();
            let snapshot = ItemData::Agency(self.clone());
            record(actions, EditType::Create, "route", self.id.clone(), snapshot);
        } else {
            add_child_in_routes(&mut self.routes, kind, parent_id, actions);
        }
    }
}

impl MyRoute {
    /// Adds a new trip to this route (see `new_trip`).
    pub fn new_child(&mut self)
        ensures
            final(self)@ == (RouteView { trips: old(self)@.trips.push(new_trip(old(self)@)), ..old(self)@ }),
    {
        let n = trips_len(&self.trips);
        let trip = MyTrip {
            id: make_child_id(&self.id, n),
            name: String::new(),
            trip_headsign: String::new(),
            selected: false,
            expanded: false,
            live: true,
            stops: stop_times_new(),
        };
        assert(stop_time_views(trip.stops) =~= Seq::<StopTimeView>::empty());
        assert(trip@ == new_trip(self@));
        let ghost before = trips_in(self.trips);
        trips_push(&mut self.trips, trip);
        assert(trip_views(self.trips) =~= before.map_values(|x: MyTrip| x@).push(trip@));
    }

    /// Adds a child, and logs it, when this route is the item
    /// `(kind, parent_id)`.
    pub fn add_child_matching(&mut self, kind: &str, parent_id: &str, actions: &mut Vector<Action>)
        ensures
            (final(self)@, action_views(*final(actions))) == route_child_added(
                kind@,
                parent_id@,
                old(self)@,
                action_views(*old(actions)),
            ),
    {
        if same_text(kind, "route") && same_text(self.id.as_str(), parent_id) {
            self.new_child();
            let snapshot = ItemData::Route(self.clone());
            record(actions, EditType::Create, "trip", self.id.clone(), snapshot);
        }
    }
}

impl AppData {
    /// Adds a child to the item `(kind, parent_id)`: see `child_added`.
    pub fn add_child(&mut self, kind: &str, parent_id: &str)
        ensures
            final(self)@ == child_added(old(self)@, kind@, parent_id@),
            final(self).edits == old(self).edits,
    {
        add_child_in_agencies(&mut self.agencies, kind, parent_id, &mut self.actions);
    }
}

/// Passes the request for a child of `(kind, parent_id)` to each route in turn.
pub fn add_child_in_routes(
    routes: &mut Vector<MyRoute>,
    kind: &str,
    parent_id: &str,
    actions: &mut Vector<Action>,
)
    ensures
        (route_views(*final(routes)), action_views(*final(actions))) == map_log(
            route_views(*old(routes)),
            action_views(*old(actions)),
            route_child_adder(kind@, parent_id@),
        ),
{
    let ghost items0 = route_views(*routes);
    let ghost log0 = action_views(*actions);
    let ghost f = route_child_adder(kind@, parent_id@);
    let n = routes_len(routes);
    let mut i: usize = 0;
    while i < n
        invariant
            0 <= i <= n,
            n == routes_in(*routes).len(),
            n == items0.len(),
            f == route_child_adder(kind@, parent_id@),
            forall|j: int| i <= j < n ==> #[trigger] route_views(*routes)[j] == items0[j],
            map_log(items0.take(i as int), log0, f) == (
                route_views(*routes).take(i as int),
                action_views(*actions),
            ),
        decreases n - i,
    {
        let ghost before = routes_in(*routes);
        let ghost before_views = route_views(*routes);
        assert(route_views(*routes)[i as int] == items0[i as int]);
        let mut item = routes_set(routes, i, MyRoute::empty());
        assert(item@ == before_views[i as int]);
        item.add_child_matching(kind, parent_id, actions);
        let ghost changed = item@;
        routes_set(routes, i, item);
        proof {
            lemma_map_log_take(items0, log0, f, i as int);
            assert(routes_in(*routes) =~= before.update(i as int, item));
            lemma_map_update(before, i as int, item, |x: MyRoute| x@);
            assert(route_views(*routes) =~= before_views.update(i as int, changed));
            assert(route_views(*routes).take(i + 1) =~= route_views(*routes).take(i as int).push(changed));
            assert(route_views(*routes).take(i as int) =~= before_views.take(i as int));
        }
        i = i + 1;
    }
    proof {
        assert(items0.take(n as int) =~= items0);
        assert(route_views(*routes).take(n as int) =~= route_views(*routes));
    }
}

/// Passes the request for a child of `(kind, parent_id)` to each agency in turn.
pub fn add_child_in_agencies(
    agencies: &mut Vector<MyAgency>,
    kind: &str,
    parent_id: &str,
    actions: &mut Vector<Action>,
)
    ensures
        (agency_views(*final(agencies)), action_views(*final(actions))) == map_log(
            agency_views(*old(agencies)),
            action_views(*old(actions)),
            agency_child_adder(kind@, parent_id@),
        ),
{
    let ghost items0 = agency_views(*agencies);
    let ghost log0 = action_views(*actions);
    let ghost f = agency_child_adder(kind@, parent_id@);
    let n = agencies_len(agencies);
    let mut i: usize = 0;
    while i < n
        invariant
            0 <= i <= n,
            n == agencies_in(*agencies).len(),
            n == items0.len(),
            f == agency_child_adder(kind@, parent_id@),
            forall|j: int| i <= j < n ==> #[trigger] agency_views(*agencies)[j] == items0[j],
            map_log(items0.take(i as int), log0, f) == (
                agency_views(*agencies).take(i as int),
                action_views(*actions),
            ),
        decreases n - i,
    {
        let ghost before = agencies_in(*agencies);
        let ghost before_views = agency_views(*agencies);
        assert(agency_views(*agencies)[i as int] == items0[i as int]);
        let mut item = agencies_set(agencies, i, MyAgency::empty());
        assert(item@ == before_views[i as int]);
        item.add_child_matching(kind, parent_id, actions);
        let ghost changed = item@;
        agencies_set(agencies, i, item);
        proof {
            lemma_map_log_take(items0, log0, f, i as int);
            assert(agencies_in(*agencies) =~= before.update(i as int, item));
            lemma_map_update(before, i as int, item, |x: MyAgency| x@);
            assert(agency_views(*agencies) =~= before_views.update(i as int, changed));
            assert(agency_views(*agencies).take(i + 1) =~= agency_views(*agencies).take(i as int).push(changed));
            assert(agency_views(*agencies).take(i as int) =~= before_views.take(i as int));
        }
        i = i + 1;
    }
    proof {
        assert(items0.take(n as int) =~= items0);
        assert(agency_views(*agencies).take(n as int) =~= agency_views(*agencies));
    }
}

} // verus!
