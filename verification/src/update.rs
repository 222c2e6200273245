use im::Vector;
use vstd::prelude::*;

use crate::log::{logged, record};
use crate::model::{
    Action, ActionView, AgencyView, AppData, AppDataView, EditType, ItemData, ItemDataView,
    MyAgency, MyRoute, MyTrip, RouteView, TripView,
};
use crate::text::same_text;
use crate::vector::{
    action_views, actions_get, actions_in, actions_len, actions_set, agencies_get, agencies_in,
    agencies_len, agency_views, route_views, routes_get, routes_in, routes_len, trip_views,
    trips_get, trips_in, trips_len,
};
use crate::log::lemma_map_update;

verus! {

/// The last entry of the log, if any, carries a snapshot.
pub open spec fn last_carries_data(log: Seq<ActionView>) -> bool {
    log.len() == 0 || log.last().item_data is Some
}

/// Whether a trip has the id `id`.
pub open spec fn trip_has_id(t: TripView, id: Seq<char>) -> bool {
    t.id == id
}

/// Whether a route has a trip of id `id`.
pub open spec fn route_has_trip(r: RouteView, id: Seq<char>) -> bool {
    exists|k: int| 0 <= k < r.trips.len() && trip_has_id(#[trigger] r.trips[k], id)
}

/// Whether an agency has a trip of id `id`.
pub open spec fn agency_has_trip(a: AgencyView, id: Seq<char>) -> bool {
    exists|j: int| 0 <= j < a.routes.len() && route_has_trip(#[trigger] a.routes[j], id)
}

/// Whether the editor holds a trip of id `id`.
pub open spec fn app_has_trip(app: AppDataView, id: Seq<char>) -> bool {
    exists|i: int| 0 <= i < app.agencies.len() && agency_has_trip(#[trigger] app.agencies[i], id)
}

/// Logging an update of the trip `id` at trip `t`: when `t` is that trip,
/// the last entry of the log takes the new snapshot if it is an `Update`
/// of an item of the same id; otherwise an `Update` entry is appended.
pub open spec fn trip_update_logged(id: Seq<char>, log: Seq<ActionView>, t: TripView) -> Seq<ActionView> {
    if t.id != id {
        log
    } else if log.len() > 0 && log.last().item_data.unwrap().id() == t.id && log.last().edit_type
        == EditType::Update {
        log.update(log.len() - 1, ActionView { item_data: Some(ItemDataView::Trip(t)), ..log.last() })
    } else {
        logged(log, EditType::Update, "trip"@, t.id, ItemDataView::Trip(t))
    }
}

/// `trip_update_logged` for the trip `id`, as a function.
pub open spec fn trip_update_logger(id: Seq<char>) -> spec_fn(Seq<ActionView>, TripView) -> Seq<ActionView> {
    |log: Seq<ActionView>, t: TripView| trip_update_logged(id, log, t)
}

/// Logging the updates of the trip `id` over a route's trips, in order.
pub open spec fn route_update_logger(id: Seq<char>) -> spec_fn(Seq<ActionView>, RouteView) -> Seq<ActionView> {
    |log: Seq<ActionView>, r: RouteView| r.trips.fold_left(log, trip_update_logger(id))
}

/// Logging the updates of the trip `id` over an agency's routes, in order.
pub open spec fn agency_update_logger(id: Seq<char>) -> spec_fn(Seq<ActionView>, AgencyView) -> Seq<ActionView> {
    |log: Seq<ActionView>, a: AgencyView| a.routes.fold_left(log, route_update_logger(id))
}

/// The editor's state after an update of the item `(kind, id)` was
/// reported: for a trip, every trip of that id, in order, is logged as
/// `trip_update_logged` says; nothing else changes.
pub open spec fn trip_update_recorded(app: AppDataView, kind: Seq<char>, id: Seq<char>) -> AppDataView {
    if kind == "trip"@ {
        AppDataView { actions: app.agencies.fold_left(app.actions, agency_update_logger(id)), ..app }
    } else {
        app
    }
}

/// Logging the update cannot fail: either the log's last entry carries a
/// snapshot, or no trip of that id exists.
pub open spec fn update_can_be_logged(app: AppDataView, kind: Seq<char>, id: Seq<char>) -> bool {
    kind == "trip"@ ==> (last_carries_data(app.actions) || !app_has_trip(app, id))
}

impl MyTrip {
    /// Logs an update of this trip when its id is `id`.
    pub fn record_update(&self, id: &str, actions: &mut Vector<Action>)
        requires
            last_carries_data(action_views(*old(actions))) || !trip_has_id(self@, id@),
        ensures
            action_views(*final(actions)) == trip_update_logger(id@)(action_views(*old(actions)), self@),
            last_carries_data(action_views(*old(actions))) ==> last_carries_data(
                action_views(*final(actions)),
            ),
            !trip_has_id(self@, id@) ==> action_views(*final(actions)) == action_views(*old(actions)),
    {
        if same_text(self.id.as_str(), id) {
            let n = actions_len(actions);
            let mut coalesce = false;
            if n > 0 {
                let last = actions_get(actions, n - 1);
                assert(last@ == action_views(*actions)[n - 1]);
                match &last.item_data {
                    Some(d) => {
                        coalesce = d.id() == self.id && last.edit_type == EditType::Update;
                    },
                    None => {},
                }
            }
            if coalesce {
                let ghost before = actions_in(*actions);
                let mut entry = actions_get(actions, n - 1).clone();
                entry.item_data = Some(ItemData::Trip(self.clone()));
                actions_set(actions, n - 1, entry);
                proof {
                    lemma_map_update(before, n - 1, entry, |x: Action| x@);
                }
            } else {
                record(actions, EditType::Update, "trip", self.id.clone(), ItemData::Trip(self.clone()));
            }
        }
    }
}

impl MyRoute {
    /// Logs an update of each trip of id `id` of this route.
    pub fn record_update(&self, id: &str, actions: &mut Vector<Action>)
        requires
            last_carries_data(action_views(*old(actions))) || !route_has_trip(self@, id@),
        ensures
            action_views(*final(actions)) == route_update_logger(id@)(action_views(*old(actions)), self@),
            last_carries_data(action_views(*old(actions))) ==> last_carries_data(
                action_views(*final(actions)),
            ),
            !route_has_trip(self@, id@) ==> action_views(*final(actions)) == action_views(*old(actions)),
    {
        record_update_in_trips(&self.trips, id, actions);
    }
}

impl MyAgency {
    /// Logs an update of each trip of id `id` of this agency.
    pub fn record_update(&self, id: &str, actions: &mut Vector<Action>)
        requires
            last_carries_data(action_views(*old(actions))) || !agency_has_trip(self@, id@),
        ensures
            action_views(*final(actions)) == agency_update_logger(id@)(action_views(*old(actions)), self@),
            last_carries_data(action_views(*old(actions))) ==> last_carries_data(
                action_views(*final(actions)),
            ),
            !agency_has_trip(self@, id@) ==> action_views(*final(actions)) == action_views(*old(actions)),
    {
        record_update_in_routes(&self.routes, id, actions);
    }
}

impl AppData {
    /// Reports an update of the item `(kind, id)`: see `trip_update_recorded`.
    pub fn record_trip_update(&mut self, kind: &str, id: &str)
        requires
            update_can_be_logged(old(self)@, kind@, id@),
        ensures
            final(self)@ == trip_update_recorded(old(self)@, kind@, id@),
            final(self).edits == old(self).edits,
    {
        if same_text(kind, "trip") {
            proof {
                if !last_carries_data(self@.actions) {
                    assert forall|j: int| 0 <= j < agency_views(self.agencies).len() implies !agency_has_trip(
                        #[trigger] agency_views(self.agencies)[j],
                        id@,
                    ) by {
                        assert(self@.agencies[j] == agency_views(self.agencies)[j]);
                    }
                }
            }
            record_update_in_agencies(&self.agencies, id, &mut self.actions);
        }
    }
}

/// Logs an update of each trip of id `id`, in order.
pub fn record_update_in_trips(trips: &Vector<MyTrip>, id: &str, actions: &mut Vector<Action>)
    requires
        last_carries_data(action_views(*old(actions))) || forall|j: int|
            0 <= j < trip_views(*trips).len() ==> !trip_has_id(#[trigger] trip_views(*trips)[j], id@),
    ensures
        action_views(*final(actions)) == trip_views(*trips).fold_left(
            action_views(*old(actions)),
            trip_update_logger(id@),
        ),
        last_carries_data(action_views(*old(actions))) ==> last_carries_data(
            action_views(*final(actions)),
        ),
        (forall|j: int| 0 <= j < trip_views(*trips).len() ==> !trip_has_id(#[trigger] trip_views(*trips)[j], id@))
            ==> action_views(*final(actions)) == action_views(*old(actions)),
{
    let ghost items = trip_views(*trips);
    let ghost log0 = action_views(*actions);
    let ghost f = trip_update_logger(id@);
    let n = trips_len(trips);
    let mut i: usize = 0;
    while i < n
        invariant
            0 <= i <= n,
            n == items.len(),
            n == trips_in(*trips).len(),
            items == trip_views(*trips),
            f == trip_update_logger(id@),
            action_views(*actions) == items.take(i as int).fold_left(log0, f),
            last_carries_data(action_views(*actions)) || action_views(*actions) == log0,
            (forall|j: int| 0 <= j < i ==> !trip_has_id(#[trigger] items[j], id@)) ==> action_views(*actions)
                == log0,
            last_carries_data(log0) || forall|j: int| 0 <= j < n ==> !trip_has_id(#[trigger] items[j], id@),
        decreases n - i,
    {
        let item = trips_get(trips, i);
        assert(item@ == items[i as int]);
        let ghost before = action_views(*actions);
        item.record_update(id, actions);
        proof {
            assert(items.take(i + 1).drop_last() =~= items.take(i as int));
            if forall|j: int| 0 <= j < i + 1 ==> !trip_has_id(#[trigger] items[j], id@) {
                assert(!trip_has_id(items[i as int], id@));
                assert(forall|j: int| 0 <= j < i ==> !trip_has_id(#[trigger] items[j], id@));
            }
        }
        i = i + 1;
    }
    assert(items.take(n as int) =~= items);
}

/// Logs an update of each trip of id `id` in each route, in order.
pub fn record_update_in_routes(routes: &Vector<MyRoute>, id: &str, actions: &mut Vector<Action>)
    requires
        last_carries_data(action_views(*old(actions))) || forall|j: int|
            0 <= j < route_views(*routes).len() ==> !route_has_trip(#[trigger] route_views(*routes)[j], id@),
    ensures
        action_views(*final(actions)) == route_views(*routes).fold_left(
            action_views(*old(actions)),
            route_update_logger(id@),
        ),
        last_carries_data(action_views(*old(actions))) ==> last_carries_data(
            action_views(*final(actions)),
        ),
        (forall|j: int| 0 <= j < route_views(*routes).len() ==> !route_has_trip(#[trigger] route_views(*routes)[j], id@))
            ==> action_views(*final(actions)) == action_views(*old(actions)),
{
    let ghost items = route_views(*routes);
    let ghost log0 = action_views(*actions);
    let ghost f = route_update_logger(id@);
    let n = routes_len(routes);
    let mut i: usize = 0;
    while i < n
        invariant
            0 <= i <= n,
            n == items.len(),
            n == routes_in(*routes).len(),
            items == route_views(*routes),
            f == route_update_logger(id@),
            action_views(*actions) == items.take(i as int).fold_left(log0, f),
            last_carries_data(action_views(*actions)) || action_views(*actions) == log0,
            (forall|j: int| 0 <= j < i ==> !route_has_trip(#[trigger] items[j], id@)) ==> action_views(*actions)
                == log0,
            last_carries_data(log0) || forall|j: int| 0 <= j < n ==> !route_has_trip(#[trigger] items[j], id@),
        decreases n - i,
    {
        let item = routes_get(routes, i);
        assert(item@ == items[i as int]);
        let ghost before = action_views(*actions);
        item.record_update(id, actions);
        proof {
            assert(items.take(i + 1).drop_last() =~= items.take(i as int));
            if forall|j: int| 0 <= j < i + 1 ==> !route_has_trip(#[trigger] items[j], id@) {
                assert(!route_has_trip(items[i as int], id@));
                assert(forall|j: int| 0 <= j < i ==> !route_has_trip(#[trigger] items[j], id@));
            }
        }
        i = i + 1;
    }
    assert(items.take(n as int) =~= items);
}

/// Logs an update of each trip of id `id` in each agency, in order.
pub fn record_update_in_agencies(agencies: &Vector<MyAgency>, id: &str, actions: &mut Vector<Action>)
    requires
        last_carries_data(action_views(*old(actions))) || forall|j: int|
            0 <= j < agency_views(*agencies).len() ==> !agency_has_trip(#[trigger] agency_views(*agencies)[j], id@),
    ensures
        action_views(*final(actions)) == agency_views(*agencies).fold_left(
            action_views(*old(actions)),
            agency_update_logger(id@),
        ),
        last_carries_data(action_views(*old(actions))) ==> last_carries_data(
            action_views(*final(actions)),
        ),
        (forall|j: int| 0 <= j < agency_views(*agencies).len() ==> !agency_has_trip(#[trigger] agency_views(*agencies)[j], id@))
            ==> action_views(*final(actions)) == action_views(*old(actions)),
{
    let ghost items = agency_views(*agencies);
    let ghost log0 = action_views(*actions);
    let ghost f = agency_update_logger(id@);
    let n = agencies_len(agencies);
    let mut i: usize = 0;
    while i < n
        invariant
            0 <= i <= n,
            n == items.len(),
            n == agencies_in(*agencies).len(),
            items == agency_views(*agencies),
            f == agency_update_logger(id@),
            action_views(*actions) == items.take(i as int).fold_left(log0, f),
            last_carries_data(action_views(*actions)) || action_views(*actions) == log0,
            (forall|j: int| 0 <= j < i ==> !agency_has_trip(#[trigger] items[j], id@)) ==> action_views(*actions)
                == log0,
            last_carries_data(log0) || forall|j: int| 0 <= j < n ==> !agency_has_trip(#[trigger] items[j], id@),
        decreases n - i,
    {
        let item = agencies_get(agencies, i);
        assert(item@ == items[i as int]);
        let ghost before = action_views(*actions);
        item.record_update(id, actions);
        proof {
            assert(items.take(i + 1).drop_last() =~= items.take(i as int));
            if forall|j: int| 0 <= j < i + 1 ==> !agency_has_trip(#[trigger] items[j], id@) {
                assert(!agency_has_trip(items[i as int], id@));
                assert(forall|j: int| 0 <= j < i ==> !agency_has_trip(#[trigger] items[j], id@));
            }
        }
        i = i + 1;
    }
    assert(items.take(n as int) =~= items);
}

impl MyRoute {
    /// Whether this route has a trip of id `id`.
    pub fn has_trip(&self, id: &str) -> (r: bool)
        ensures
            r == route_has_trip(self@, id@),
    {
        let ghost items = trip_views(self.trips);
        let n = trips_len(&self.trips);
        let mut k: usize = 0;
        while k < n
            invariant
                0 <= k <= n,
                n == items.len(),
                n == trips_in(self.trips).len(),
                items == trip_views(self.trips),
                forall|m: int| 0 <= m < k ==> !trip_has_id(#[trigger] items[m], id@),
            decreases n - k,
        {
            let trip = trips_get(&self.trips, k);
            assert(trip@ == items[k as int]);
            if same_text(trip.id.as_str(), id) {
                assert(trip_has_id(self@.trips[k as int], id@));
                return true;
            }
            k = k + 1;
        }
        false
    }
}

impl MyAgency {
    /// Whether this agency has a trip of id `id`.
    pub fn has_trip(&self, id: &str) -> (r: bool)
        ensures
            r == agency_has_trip(self@, id@),
    {
        let ghost items = route_views(self.routes);
        let n = routes_len(&self.routes);
        let mut j: usize = 0;
        while j < n
            invariant
                0 <= j <= n,
                n == items.len(),
                n == routes_in(self.routes).len(),
                items == route_views(self.routes),
                forall|m: int| 0 <= m < j ==> !route_has_trip(#[trigger] items[m], id@),
            decreases n - j,
        {
            let route = routes_get(&self.routes, j);
            assert(route@ == items[j as int]);
            if route.has_trip(id) {
                assert(route_has_trip(self@.routes[j as int], id@));
                return true;
            }
            j = j + 1;
        }
        false
    }
}

impl AppData {
    /// Whether the editor holds a trip of id `id`.
    pub fn has_trip(&self, id: &str) -> (r: bool)
        ensures
            r == app_has_trip(self@, id@),
    {
        let ghost items = agency_views(self.agencies);
        let n = agencies_len(&self.agencies);
        let mut i: usize = 0;
        while i < n
            invariant
                0 <= i <= n,
                n == items.len(),
                n == agencies_in(self.agencies).len(),
                items == agency_views(self.agencies),
                forall|m: int| 0 <= m < i ==> !agency_has_trip(#[trigger] items[m], id@),
            decreases n - i,
        {
            let agency = agencies_get(&self.agencies, i);
            assert(agency@ == items[i as int]);
            if agency.has_trip(id) {
                assert(agency_has_trip(self@.agencies[i as int], id@));
                return true;
            }
            i = i + 1;
        }
        false
    }

    /// Whether reporting an edit of the item `(kind, id)` can be logged (see
    /// `update_can_be_logged`).
    pub fn update_can_be_logged(&self, kind: &str, id: &str) -> (r: bool)
        ensures
            r == update_can_be_logged(self@, kind@, id@),
    {
        if !same_text(kind, "trip") {
            return true;
        }
        let n = actions_len(&self.actions);
        if n == 0 {
            return true;
        }
        let last = actions_get(&self.actions, n - 1);
        assert(last@ == self@.actions[n - 1]);
        match &last.item_data {
            Some(_) => true,
            None => !self.has_trip(id),
        }
    }
}

} // verus!
