use im::Vector;
use vstd::prelude::*;

use crate::log::lemma_map_update;
use crate::model::{
    Action, ActionView, AgencyView, AppData, AppDataView, MyAgency, MyRoute, MyStopTime, MyTrip,
    RouteView, StopTimeView, TripView,
};
use crate::text::same_text;
use crate::vector::{
    action_views, actions_get, actions_in, actions_len, actions_new, actions_push, agencies_in,
    agencies_len, agencies_set, agency_views, route_views, routes_in, routes_len, routes_set,
    stop_time_views, stop_times_in, stop_times_len, stop_times_set, trip_views, trips_in,
    trips_len, trips_set,
};

verus! {

/// Undoing an entry about the item `(kind, id)` at a stop time: a stop time
/// of that id is no longer deleted.
pub open spec fn stop_time_restored(kind: Seq<char>, id: Seq<char>, s: StopTimeView) -> StopTimeView {
    if kind == "stop_time"@ && s.id == id {
        StopTimeView { live: true, ..s }
    } else {
        s
    }
}

/// `stop_time_restored` for the item `(kind, id)`, as a function.
pub open spec fn stop_time_restorer(kind: Seq<char>, id: Seq<char>) -> spec_fn(StopTimeView) -> StopTimeView {
    |s: StopTimeView| stop_time_restored(kind, id, s)
}

/// Undoing at a trip: a trip of that id is no longer deleted, and its stop
/// times are looked at in turn.
pub open spec fn trip_restored(kind: Seq<char>, id: Seq<char>, t: TripView) -> TripView {
    TripView {
        live: if kind == "trip"@ && t.id == id {
            true
        } else {
            t.live
        },
        stops: t.stops.map_values(stop_time_restorer(kind, id)),
        ..t
    }
}

/// `trip_restored` for the item `(kind, id)`, as a function.
pub open spec fn trip_restorer(kind: Seq<char>, id: Seq<char>) -> spec_fn(TripView) -> TripView {
    |t: TripView| trip_restored(kind, id, t)
}

/// Undoing at a route: routes stay as they are; their trips are looked at.
pub open spec fn route_restored(kind: Seq<char>, id: Seq<char>, r: RouteView) -> RouteView {
    RouteView { trips: r.trips.map_values(trip_restorer(kind, id)), ..r }
}

/// `route_restored` for the item `(kind, id)`, as a function.
pub open spec fn route_restorer(kind: Seq<char>, id: Seq<char>) -> spec_fn(RouteView) -> RouteView {
    |r: RouteView| route_restored(kind, id, r)
}

/// Undoing at an agency: its routes are looked at.
pub open spec fn agency_restored(kind: Seq<char>, id: Seq<char>, a: AgencyView) -> AgencyView {
    AgencyView { routes: a.routes.map_values(route_restorer(kind, id)), ..a }
}

/// `agency_restored` for the item `(kind, id)`, as a function.
pub open spec fn agency_restorer(kind: Seq<char>, id: Seq<char>) -> spec_fn(AgencyView) -> AgencyView {
    |a: AgencyView| agency_restored(kind, id, a)
}

/// Whether a log entry has an id other than `id`.
pub open spec fn other_than(id: nat) -> spec_fn(ActionView) -> bool {
    |a: ActionView| a.id != id
}

/// The editor's state after undoing the log entry at `position`: when the
/// entry is about a trip or a stop time, every trip or stop time of its id
/// is no longer deleted (routes and agencies are not restored), and every
/// entry whose id equals `position` leaves the log.
pub open spec fn action_undone(app: AppDataView, position: nat) -> AppDataView {
    let entry = app.actions[position as int];
    AppDataView {
        agencies: app.agencies.map_values(agency_restorer(entry.item_type, entry.item_id)),
        actions: app.actions.filter(other_than(position)),
        ..app
    }
}

impl MyStopTime {
    /// Marks this stop time not deleted when it is the item `(kind, id)`.
    pub fn restore_matching(&mut self, kind: &str, id: &str)
        ensures
            final(self)@ == stop_time_restored(kind@, id@, old(self)@),
    {
        if same_text(kind, "stop_time") && same_text(self.id.as_str(), id) {
            self.live = true;
        }
    }
}

impl MyTrip {
    /// Marks this trip not deleted when it is the item `(kind, id)`, and
    /// passes the undoing on to its stop times.
    pub fn restore_matching(&mut self, kind: &str, id: &str)
        ensures
            final(self)@ == trip_restored(kind@, id@, old(self)@),
    {
        if same_text(kind, "trip") && same_text(self.id.as_str(), id) {
            self.live = true;
        }
        restore_in_stop_times(&mut self.stops, kind, id);
    }
}

impl MyRoute {
    /// Passes the undoing on to the trips.
    pub fn restore_matching(&mut self, kind: &str, id: &str)
        ensures
            final(self)@ == route_restored(kind@, id@, old(self)@),
    {
        restore_in_trips(&mut self.trips, kind, id);
    }
}

impl MyAgency {
    /// Passes the undoing on to the routes.
    pub fn restore_matching(&mut self, kind: &str, id: &str)
        ensures
            final(self)@ == agency_restored(kind@, id@, old(self)@),
    {
        restore_in_routes(&mut self.routes, kind, id);
    }
}

/// `s.take(i + 1)` filtered, from `s.take(i)` filtered.
pub proof fn lemma_filter_take(s: Seq<ActionView>, p: spec_fn(ActionView) -> bool, i: int)
    requires
        0 <= i < s.len(),
    ensures
        s.take(i + 1).filter(p) == (if p(s[i]) {
            s.take(i).filter(p).push(s[i])
        } else {
            s.take(i).filter(p)
        }),
{
    reveal(Seq::filter);
    assert(s.take(i + 1).drop_last() =~= s.take(i));
}

/// The log without the entries whose id is `id`, in order.
pub fn without_entry(actions: &Vector<Action>, id: usize) -> (r: Vector<Action>)
    ensures
        action_views(r) == action_views(*actions).filter(other_than(id as nat)),
{
    let ghost all = action_views(*actions);
    let ghost p = other_than(id as nat);
    let mut kept = actions_new();
    let n = actions_len(actions);
    let mut i: usize = 0;
    while i < n
        invariant
            0 <= i <= n,
            n == actions_in(*actions).len(),
            all == action_views(*actions),
            p == other_than(id as nat),
            action_views(kept) == all.take(i as int).filter(p),
        decreases n - i,
    {
        let entry = actions_get(actions, i);
        proof {
            lemma_filter_take(all, p, i as int);
            assert(entry@ == all[i as int]);
        }
        if entry.id != id {
            let ghost before = actions_in(kept);
            let copy = entry.clone();
            actions_push(&mut kept, copy);
            assert(action_views(kept) =~= before.map_values(|x: Action| x@).push(copy@));
        }
        i = i + 1;
    }
    assert(all.take(n as int) =~= all);
    kept
}

impl AppData {
    /// Undoes the log entry at `position`: see `action_undone`.
    pub fn undo_action(&mut self, position: usize)
        requires
            position < old(self)@.actions.len(),
        ensures
            final(self)@ == action_undone(old(self)@, position as nat),
            final(self).edits == old(self).edits,
    {
        let entry = actions_get(&self.actions, position);
        assert(entry@ == self@.actions[position as int]);
        let kind = entry.item_type.clone();
        let item_id = entry.item_id.clone();
        restore_in_agencies(&mut self.agencies, kind.as_str(), item_id.as_str());
        self.actions = without_entry(&self.actions, position);
    }
}

/// Passes the undoing of `(kind, id)` to each stop time.
pub fn restore_in_stop_times(
    stops: &mut Vector<MyStopTime>,
    kind: &str,
    id: &str,
)
    ensures
        stop_time_views(*final(stops)) == stop_time_views(*old(stops)).map_values(stop_time_restorer(kind@, id@)),
{
    let ghost items0 = stop_time_views(*stops);
    let ghost f = stop_time_restorer(kind@, id@);
    let n = stop_times_len(stops);
    let mut i: usize = 0;
    while i < n
        invariant
            0 <= i <= n,
            n == stop_times_in(*stops).len(),
            n == items0.len(),
            f == stop_time_restorer(kind@, id@),
            forall|j: int| 0 <= j < i ==> #[trigger] stop_time_views(*stops)[j] == f(items0[j]),
            forall|j: int| i <= j < n ==> #[trigger] stop_time_views(*stops)[j] == items0[j],
        decreases n - i,
    {
        let ghost before = stop_times_in(*stops);
        let ghost before_views = stop_time_views(*stops);
        assert(stop_time_views(*stops)[i as int] == items0[i as int]);
        let mut item = stop_times_set(stops, i, MyStopTime::empty());
        assert(item@ == before_views[i as int]);
        item.restore_matching(kind, id);
        let ghost changed = item@;
        stop_times_set(stops, i, item);
        proof {
            assert(stop_times_in(*stops) =~= before.update(i as int, item));
            lemma_map_update(before, i as int, item, |x: MyStopTime| x@);
            assert(stop_time_views(*stops) =~= before_views.update(i as int, changed));
        }
        i = i + 1;
    }
    assert(stop_time_views(*stops) =~= items0.map_values(f));
}

/// Passes the undoing of `(kind, id)` to each trip.
pub fn restore_in_trips(
    trips: &mut Vector<MyTrip>,
    kind: &str,
    id: &str,
)
    ensures
        trip_views(*final(trips)) == trip_views(*old(trips)).map_values(trip_restorer(kind@, id@)),
{
    let ghost items0 = trip_views(*trips);
    let ghost f = trip_restorer(kind@, id@);
    let n = trips_len(trips);
    let mut i: usize = 0;
    while i < n
        invariant
            0 <= i <= n,
            n == trips_in(*trips).len(),
            n == items0.len(),
            f == trip_restorer(kind@, id@),
            forall|j: int| 0 <= j < i ==> #[trigger] trip_views(*trips)[j] == f(items0[j]),
            forall|j: int| i <= j < n ==> #[trigger] trip_views(*trips)[j] == items0[j],
        decreases n - i,
    {
        let ghost before = trips_in(*trips);
        let ghost before_views = trip_views(*trips);
        assert(trip_views(*trips)[i as int] == items0[i as int]);
        let mut item = trips_set(trips, i, MyTrip::empty());
        assert(item@ == before_views[i as int]);
        item.restore_matching(kind, id);
        let ghost changed = item@;
        trips_set(trips, i, item);
        proof {
            assert(trips_in(*trips) =~= before.update(i as int, item));
            lemma_map_update(before, i as int, item, |x: MyTrip| x@);
            assert(trip_views(*trips) =~= before_views.update(i as int, changed));
        }
        i = i + 1;
    }
    assert(trip_views(*trips) =~= items0.map_values(f));
}

/// Passes the undoing of `(kind, id)` to each route.
pub fn restore_in_routes(
    routes: &mut Vector<MyRoute>,
    kind: &str,
    id: &str,
)
    ensures
        route_views(*final(routes)) == route_views(*old(routes)).map_values(route_restorer(kind@, id@)),
{
    let ghost items0 = route_views(*routes);
    let ghost f = route_restorer(kind@, id@);
    let n = routes_len(routes);
    let mut i: usize = 0;
    while i < n
        invariant
            0 <= i <= n,
            n == routes_in(*routes).len(),
            n == items0.len(),
            f == route_restorer(kind@, id@),
            forall|j: int| 0 <= j < i ==> #[trigger] route_views(*routes)[j] == f(items0[j]),
            forall|j: int| i <= j < n ==> #[trigger] route_views(*routes)[j] == items0[j],
        decreases n - i,
    {
        let ghost before = routes_in(*routes);
        let ghost before_views = route_views(*routes);
        assert(route_views(*routes)[i as int] == items0[i as int]);
        let mut item = routes_set(routes, i, MyRoute::empty());
        assert(item@ == before_views[i as int]);
        item.restore_matching(kind, id);
        let ghost changed = item@;
        routes_set(routes, i, item);
        proof {
            assert(routes_in(*routes) =~= before.update(i as int, item));
            lemma_map_update(before, i as int, item, |x: MyRoute| x@);
            assert(route_views(*routes) =~= before_views.update(i as int, changed));
        }
        i = i + 1;
    }
    assert(route_views(*routes) =~= items0.map_values(f));
}

/// Passes the undoing of `(kind, id)` to each agency.
pub fn restore_in_agencies(
    agencies: &mut Vector<MyAgency>,
    kind: &str,
    id: &str,
)
    ensures
        agency_views(*final(agencies)) == agency_views(*old(agencies)).map_values(agency_restorer(kind@, id@)),
{
    let ghost items0 = agency_views(*agencies);
    let ghost f = agency_restorer(kind@, id@);
    let n = agencies_len(agencies);
    let mut i: usize = 0;
    while i < n
        invariant
            0 <= i <= n,
            n == agencies_in(*agencies).len(),
            n == items0.len(),
            f == agency_restorer(kind@, id@),
            forall|j: int| 0 <= j < i ==> #[trigger] agency_views(*agencies)[j] == f(items0[j]),
            forall|j: int| i <= j < n ==> #[trigger] agency_views(*agencies)[j] == items0[j],
        decreases n - i,
    {
        let ghost before = agencies_in(*agencies);
        let ghost before_views = agency_views(*agencies);
        assert(agency_views(*agencies)[i as int] == items0[i as int]);
        let mut item = agencies_set(agencies, i, MyAgency::empty());
        assert(item@ == before_views[i as int]);
        item.restore_matching(kind, id);
        let ghost changed = item@;
        agencies_set(agencies, i, item);
        proof {
            assert(agencies_in(*agencies) =~= before.update(i as int, item));
            lemma_map_update(before, i as int, item, |x: MyAgency| x@);
            assert(agency_views(*agencies) =~= before_views.update(i as int, changed));
        }
        i = i + 1;
    }
    assert(agency_views(*agencies) =~= items0.map_values(f));
}

} // verus!
