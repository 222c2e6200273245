use im::Vector;
use vstd::prelude::*;

use crate::command::Command;
use crate::log::lemma_map_update;
use crate::model::{
    AgencyView, AppData, AppDataView, MyAgency, MyContinuousPickupDropOff, MyRoute, MyStopTime,
    MyTrip, RouteView, StopTimeView, TripView,
};
use crate::vector::{
    agencies_in, agencies_len, agencies_set, agency_views, route_views, routes_in, routes_len,
    routes_set, stop_time_views, stop_times_in, stop_times_len, stop_times_set, trip_views,
    trips_in, trips_len, trips_set,
};

verus! {

/// A stop time with its selection set to `value`.
pub open spec fn stop_time_selector(value: bool) -> spec_fn(StopTimeView) -> StopTimeView {
    |s: StopTimeView| StopTimeView { selected: value, ..s }
}

/// A trip with its selection set to `value`.
pub open spec fn trip_selector(value: bool) -> spec_fn(TripView) -> TripView {
    |t: TripView| TripView { selected: value, ..t }
}

/// A route with its selection set to `value`.
pub open spec fn route_selector(value: bool) -> spec_fn(RouteView) -> RouteView {
    |r: RouteView| RouteView { selected: value, ..r }
}

/// An agency with its selection set to `value`.
pub open spec fn agency_selector(value: bool) -> spec_fn(AgencyView) -> AgencyView {
    |a: AgencyView| AgencyView { selected: value, ..a }
}

/// Whether a command asks to delete the item `(kind, id)`.
pub open spec fn deletes(cmd: Command, kind: Seq<char>, id: Seq<char>) -> bool {
    cmd matches Command::ItemDelete(k, i) && k@ == kind && i@ == id
}

/// Whether a command asks for a new child of the item `(kind, id)`.
pub open spec fn asks_child(cmd: Command, kind: Seq<char>, id: Seq<char>) -> bool {
    cmd matches Command::ItemNewChild(k, i) && k@ == kind && i@ == id
}

/// Whether a command reports an edit of the item `(kind, id)`.
pub open spec fn reports_update(cmd: Command, kind: Seq<char>, id: Seq<char>) -> bool {
    cmd matches Command::ItemUpdate(k, i) && k@ == kind && i@ == id
}

/// A trip as its check box leaves it (see `MyTrip::toggle_selected`).
pub open spec fn trip_toggled(t: TripView) -> TripView {
    TripView {
        selected: !t.selected,
        stops: t.stops.map_values(stop_time_selector(!t.selected)),
        ..t
    }
}

/// The trip's check box flips the trip's selection, gives every stop time
/// the new selection and changes nothing else; after it every stop time has
/// the trip's selection, and clicking it twice gives the trip its selection
/// back.
pub proof fn lemma_toggle(t: TripView)
    ensures
        trip_toggled(t).selected == !t.selected,
        trip_toggled(t).stops.len() == t.stops.len(),
        forall|i: int| 0 <= i < t.stops.len() ==> (#[trigger] trip_toggled(t).stops[i]) == (StopTimeView {
            selected: !t.selected,
            ..t.stops[i]
        }),
        (TripView { selected: t.selected, stops: t.stops, ..trip_toggled(t) }) == t,
        forall|i: int| 0 <= i < t.stops.len() ==> (#[trigger] trip_toggled(t).stops[i]).selected
            == trip_toggled(t).selected,
        trip_toggled(trip_toggled(t)).selected == t.selected,
        trip_toggled(trip_toggled(t)).stops.len() == t.stops.len(),
        forall|i: int| 0 <= i < t.stops.len() ==> (#[trigger] trip_toggled(trip_toggled(t)).stops[i]).selected
            == t.selected,
{
}

/// "Select all" and "deselect all" leave every stop time of a trip with the
/// chosen selection and change nothing else of them.
pub proof fn lemma_select_all(t: TripView, value: bool)
    ensures
        t.stops.map_values(stop_time_selector(value)).len() == t.stops.len(),
        forall|i: int| 0 <= i < t.stops.len() ==> (#[trigger] t.stops.map_values(stop_time_selector(value))[i]).selected
            == value,
        forall|i: int| 0 <= i < t.stops.len() ==> (#[trigger] t.stops.map_values(stop_time_selector(value))[i])
            == (StopTimeView { selected: value, ..t.stops[i] }),
{
}

/// Each selector leaves the item with the chosen selection, whatever it was
/// before, and changes nothing else of it.
pub proof fn lemma_selectors(value: bool, s: StopTimeView, t: TripView, r: RouteView, a: AgencyView)
    ensures
        stop_time_selector(value)(s).selected == value,
        trip_selector(value)(t).selected == value,
        route_selector(value)(r).selected == value,
        agency_selector(value)(a).selected == value,
        (StopTimeView { selected: s.selected, ..stop_time_selector(value)(s) }) == s,
        (TripView { selected: t.selected, ..trip_selector(value)(t) }) == t,
        (RouteView { selected: r.selected, ..route_selector(value)(r) }) == r,
        (AgencyView { selected: a.selected, ..agency_selector(value)(a) }) == a,
        stop_time_selector(value)(stop_time_selector(!value)(s)) == stop_time_selector(value)(s),
        trip_selector(value)(trip_selector(!value)(t)) == trip_selector(value)(t),
        route_selector(value)(route_selector(!value)(r)) == route_selector(value)(r),
        agency_selector(value)(agency_selector(!value)(a)) == agency_selector(value)(a),
{
}

/// "Select all" and "deselect all" on a route leave every trip with the
/// chosen selection, whatever it was before, and change nothing else of them.
pub proof fn lemma_route_select_all(r: RouteView, value: bool)
    ensures
        r.trips.map_values(trip_selector(value)).len() == r.trips.len(),
        forall|i: int| 0 <= i < r.trips.len() ==> (#[trigger] r.trips.map_values(trip_selector(value))[i]).selected
            == value,
        forall|i: int| 0 <= i < r.trips.len() ==> (#[trigger] r.trips.map_values(trip_selector(value))[i])
            == (TripView { selected: value, ..r.trips[i] }),
{
}

/// "Select all" and "deselect all" on an agency leave every route with the
/// chosen selection, whatever it was before, and change nothing else of them.
pub proof fn lemma_agency_select_all(a: AgencyView, value: bool)
    ensures
        a.routes.map_values(route_selector(value)).len() == a.routes.len(),
        forall|i: int| 0 <= i < a.routes.len() ==> (#[trigger] a.routes.map_values(route_selector(value))[i]).selected
            == value,
        forall|i: int| 0 <= i < a.routes.len() ==> (#[trigger] a.routes.map_values(route_selector(value))[i])
            == (RouteView { selected: value, ..a.routes[i] }),
{
}

/// "Select all" and "deselect all" on the editor leave every agency with
/// the chosen selection, whatever it was before, and change nothing else of
/// them.
pub proof fn lemma_editor_select_all(app: AppDataView, value: bool)
    ensures
        app.agencies.map_values(agency_selector(value)).len() == app.agencies.len(),
        forall|i: int| 0 <= i < app.agencies.len() ==> (#[trigger] app.agencies.map_values(agency_selector(value))[i]).selected
            == value,
        forall|i: int| 0 <= i < app.agencies.len() ==> (#[trigger] app.agencies.map_values(agency_selector(value))[i])
            == (AgencyView { selected: value, ..app.agencies[i] }),
{
}

impl MyStopTime {
    /// The kind of item this is.
    pub fn item_type(&self) -> (r: String)
        ensures
            r@ == "stop_time"@,
    {
        String::from_str("stop_time")
    }

    /// The id of this stop time.
    pub fn id(&self) -> (r: String)
        ensures
            r@ == self@.id,
    {
        self.id.clone()
    }

    /// The command that the stop time's delete button sends.
    pub fn delete_command(&self) -> (r: Command)
        ensures
            deletes(r, "stop_time"@, self@.id),
    {
        Command::ItemDelete(self.item_type(), self.id())
    }

    /// Sets whether this stop time is selected.
    pub fn set_selected(&mut self, value: bool)
        ensures
            final(self)@ == stop_time_selector(value)(old(self)@),
            final(self)@.selected == value,
            final(self)@ == (StopTimeView { selected: value, ..old(self)@ }),
    {
        self.selected = value;
    }

    /// Whether the stop time is shown in its trip's list: deleted ones are
    /// not.
    pub fn shown(&self) -> (r: bool)
        ensures
            r == self@.live,
    {
        self.live
    }
}

impl MyTrip {
    /// The kind of item this is.
    pub fn item_type(&self) -> (r: String)
        ensures
            r@ == "trip"@,
    {
        String::from_str("trip")
    }

    /// The id of this trip.
    pub fn id(&self) -> (r: String)
        ensures
            r@ == self@.id,
    {
        self.id.clone()
    }

    /// The command that the trip's delete button sends.
    pub fn delete_command(&self) -> (r: Command)
        ensures
            deletes(r, "trip"@, self@.id),
    {
        Command::ItemDelete(self.item_type(), self.id())
    }

    /// The command that the trip's "new child" button sends.
    pub fn new_child_command(&self) -> (r: Command)
        ensures
            asks_child(r, "trip"@, self@.id),
    {
        Command::ItemNewChild(self.item_type(), self.id())
    }

    /// Sets whether this trip is selected.
    pub fn set_selected(&mut self, value: bool)
        ensures
            final(self)@ == trip_selector(value)(old(self)@),
            final(self)@.selected == value,
            final(self)@ == (TripView { selected: value, ..old(self)@ }),
    {
        self.selected = value;
    }

    /// "Select all" / "deselect all": sets the selection of every stop time.
    pub fn update_all(&mut self, value: bool)
        ensures
            final(self)@ == (TripView {
                stops: old(self)@.stops.map_values(stop_time_selector(value)),
                ..old(self)@
            }),
            final(self)@.stops.len() == old(self)@.stops.len(),
            forall|i: int| 0 <= i < old(self)@.stops.len() ==> (#[trigger] final(self)@.stops[i]).selected == value,
            forall|i: int| 0 <= i < old(self)@.stops.len() ==> #[trigger] final(self)@.stops[i] == (StopTimeView {
                selected: value,
                ..old(self)@.stops[i]
            }),
    {
        select_in_stop_times(&mut self.stops, value);
    }

    /// The trip's check box: flips the trip's selection and gives every
    /// stop time the new selection.
    pub fn toggle_selected(&mut self)
        ensures
            final(self)@ == trip_toggled(old(self)@),
            final(self)@.selected == !old(self)@.selected,
            final(self)@.stops.len() == old(self)@.stops.len(),
            forall|i: int| 0 <= i < old(self)@.stops.len() ==> #[trigger] final(self)@.stops[i] == (StopTimeView {
                selected: !old(self)@.selected,
                ..old(self)@.stops[i]
            }),
    {
        if self.selected {
            self.selected = false;
            select_in_stop_times(&mut self.stops, false);
        } else {
            self.selected = true;
            select_in_stop_times(&mut self.stops, true);
        }
    }

    /// Whether the trip is shown in its route's list: deleted ones are not.
    pub fn shown(&self) -> (r: bool)
        ensures
            r == self@.live,
    {
        self.live
    }

    /// The command that an edit of the trip's headsign sends, if any: an
    /// update of this trip when the headsign changed and the trip is the
    /// same.
    pub fn headsign_update(old_data: &MyTrip, data: &MyTrip) -> (r: Option<Command>)
        ensures
            r is Some <==> (old_data@.trip_headsign != data@.trip_headsign && old_data@.id
                == data@.id),
            r matches Some(cmd) ==> reports_update(cmd, "trip"@, data@.id),
    {
        if !(old_data.trip_headsign == data.trip_headsign) && old_data.id == data.id {
            Some(Command::ItemUpdate(data.item_type(), data.id()))
        } else {
            None
        }
    }
}

impl MyRoute {
    /// The kind of item this is.
    pub fn item_type(&self) -> (r: String)
        ensures
            r@ == "route"@,
    {
        String::from_str("route")
    }

    /// The id of this route.
    pub fn id(&self) -> (r: String)
        ensures
            r@ == self@.id,
    {
        self.id.clone()
    }

    /// The command that the route's delete button sends.
    pub fn delete_command(&self) -> (r: Command)
        ensures
            deletes(r, "route"@, self@.id),
    {
        Command::ItemDelete(self.item_type(), self.id())
    }

    /// The command that the route's "new child" button sends.
    pub fn new_child_command(&self) -> (r: Command)
        ensures
            asks_child(r, "route"@, self@.id),
    {
        Command::ItemNewChild(self.item_type(), self.id())
    }

    /// Sets whether this route is selected.
    pub fn set_selected(&mut self, value: bool)
        ensures
            final(self)@ == route_selector(value)(old(self)@),
            final(self)@.selected == value,
            final(self)@ == (RouteView { selected: value, ..old(self)@ }),
    {
        self.selected = value;
    }

    /// "Select all" / "deselect all": sets the selection of every trip.
    pub fn update_all(&mut self, value: bool)
        ensures
            final(self)@ == (RouteView {
                trips: old(self)@.trips.map_values(trip_selector(value)),
                ..old(self)@
            }),
            final(self)@.trips.len() == old(self)@.trips.len(),
            forall|i: int| 0 <= i < old(self)@.trips.len() ==> (#[trigger] final(self)@.trips[i]).selected == value,
            forall|i: int| 0 <= i < old(self)@.trips.len() ==> #[trigger] final(self)@.trips[i] == (TripView {
                selected: value,
                ..old(self)@.trips[i]
            }),
    {
        select_in_trips(&mut self.trips, value);
    }

    /// Whether the route is shown in its agency's list: all routes are
    /// shown when deleted ones are to be shown, else only live ones.
    pub fn shown(&self, show_deleted: bool) -> (r: bool)
        ensures
            r == (show_deleted || self@.live),
    {
        show_deleted || (!show_deleted && self.live)
    }
}

impl MyAgency {
    /// The kind of item this is.
    pub fn item_type(&self) -> (r: String)
        ensures
            r@ == "agency"@,
    {
        String::from_str("agency")
    }

    /// The id of this agency.
    pub fn id(&self) -> (r: String)
        ensures
            r@ == self@.id,
    {
        self.id.clone()
    }

    /// The command that the agency's delete button sends.
    pub fn delete_command(&self) -> (r: Command)
        ensures
            deletes(r, "agency"@, self@.id),
    {
        Command::ItemDelete(self.item_type(), self.id())
    }

    /// The command that the agency's "new child" button sends.
    pub fn new_child_command(&self) -> (r: Command)
        ensures
            asks_child(r, "agency"@, self@.id),
    {
        Command::ItemNewChild(self.item_type(), self.id())
    }

    /// Sets whether this agency is selected.
    pub fn set_selected(&mut self, value: bool)
        ensures
            final(self)@ == agency_selector(value)(old(self)@),
            final(self)@.selected == value,
            final(self)@ == (AgencyView { selected: value, ..old(self)@ }),
    {
        self.selected = value;
    }

    /// "Select all" / "deselect all": sets the selection of every route.
    pub fn update_all(&mut self, value: bool)
        ensures
            final(self)@ == (AgencyView {
                routes: old(self)@.routes.map_values(route_selector(value)),
                ..old(self)@
            }),
            final(self)@.routes.len() == old(self)@.routes.len(),
            forall|i: int| 0 <= i < old(self)@.routes.len() ==> (#[trigger] final(self)@.routes[i]).selected == value,
            forall|i: int| 0 <= i < old(self)@.routes.len() ==> #[trigger] final(self)@.routes[i] == (RouteView {
                selected: value,
                ..old(self)@.routes[i]
            }),
    {
        select_in_routes(&mut self.routes, value);
    }
}

impl AppData {
    /// "Select all" / "deselect all": sets the selection of every agency.
    pub fn update_all(&mut self, value: bool)
        ensures
            final(self)@ == (AppDataView {
                agencies: old(self)@.agencies.map_values(agency_selector(value)),
                ..old(self)@
            }),
            final(self)@.agencies.len() == old(self)@.agencies.len(),
            forall|i: int| 0 <= i < old(self)@.agencies.len() ==> (#[trigger] final(self)@.agencies[i]).selected == value,
            forall|i: int| 0 <= i < old(self)@.agencies.len() ==> #[trigger] final(self)@.agencies[i] == (AgencyView {
                selected: value,
                ..old(self)@.agencies[i]
            }),
            final(self).edits == old(self).edits,
    {
        select_in_agencies(&mut self.agencies, value);
    }
}

impl MyContinuousPickupDropOff {
    /// The choices that the route's radio group offers, with their labels.
    pub fn radio_vec() -> (r: Vec<(String, MyContinuousPickupDropOff)>)
        ensures
            r@.len() == 4,
            r@[0].0@ == "Continuous"@ && r@[0].1 == MyContinuousPickupDropOff::Continuous,
            r@[1].0@ == "Not available"@ && r@[1].1 == MyContinuousPickupDropOff::NotAvailable,
            r@[2].0@ == "Arrange by phone"@ && r@[2].1 == MyContinuousPickupDropOff::ArrangeByPhone,
            r@[3].0@ == "Coordinate with driver"@ && r@[3].1
                == MyContinuousPickupDropOff::CoordinateWithDriver,
    {
        let mut r = Vec::new();
        r.push((String::from_str("Continuous"), MyContinuousPickupDropOff::Continuous));
        r.push((String::from_str("Not available"), MyContinuousPickupDropOff::NotAvailable));
        r.push((String::from_str("Arrange by phone"), MyContinuousPickupDropOff::ArrangeByPhone));
        r.push(
            (
                String::from_str("Coordinate with driver"),
                MyContinuousPickupDropOff::CoordinateWithDriver,
            ),
        );
        r
    }
}

/// Sets the selection of each stop time to `value`.
pub fn select_in_stop_times(
    stops: &mut Vector<MyStopTime>,
    value: bool,
)
    ensures
        stop_time_views(*final(stops)) == stop_time_views(*old(stops)).map_values(stop_time_selector(value)),
{
    let ghost items0 = stop_time_views(*stops);
    let ghost f = stop_time_selector(value);
    let n = stop_times_len(stops);
    let mut i: usize = 0;
    while i < n
        invariant
            0 <= i <= n,
            n == stop_times_in(*stops).len(),
            n == items0.len(),
            f == stop_time_selector(value),
            forall|j: int| 0 <= j < i ==> #[trigger] stop_time_views(*stops)[j] == f(items0[j]),
            forall|j: int| i <= j < n ==> #[trigger] stop_time_views(*stops)[j] == items0[j],
        decreases n - i,
    {
        let ghost before = stop_times_in(*stops);
        let ghost before_views = stop_time_views(*stops);
        assert(stop_time_views(*stops)[i as int] == items0[i as int]);
        let mut item = stop_times_set(stops, i, MyStopTime::empty());
        assert(item@ == before_views[i as int]);
        item.set_selected(value);
        let ghost changed = item@;
        stop_times_set(stops, i, item);
        proof {
            assert(stop_times_in(*stops) =~= before.update(i as int, item));
            lemma_map_update(before, i as int, item, |x: MyStopTime| x@);
            assert(stop_time_views(*stops) =~= before_views.update(i as int, changed));
        }
        i = i + 1;
    }
    assert(stop_time_views(*stops) =~= items0.map_values(f));
}

/// Sets the selection of each trip to `value`.
pub fn select_in_trips(
    trips: &mut Vector<MyTrip>,
    value: bool,
)
    ensures
        trip_views(*final(trips)) == trip_views(*old(trips)).map_values(trip_selector(value)),
{
    let ghost items0 = trip_views(*trips);
    let ghost f = trip_selector(value);
    let n = trips_len(trips);
    let mut i: usize = 0;
    while i < n
        invariant
            0 <= i <= n,
            n == trips_in(*trips).len(),
            n == items0.len(),
            f == trip_selector(value),
            forall|j: int| 0 <= j < i ==> #[trigger] trip_views(*trips)[j] == f(items0[j]),
            forall|j: int| i <= j < n ==> #[trigger] trip_views(*trips)[j] == items0[j],
        decreases n - i,
    {
        let ghost before = trips_in(*trips);
        let ghost before_views = trip_views(*trips);
        assert(trip_views(*trips)[i as int] == items0[i as int]);
        let mut item = trips_set(trips, i, MyTrip::empty());
        assert(item@ == before_views[i as int]);
        item.set_selected(value);
        let ghost changed = item@;
        trips_set(trips, i, item);
        proof {
            assert(trips_in(*trips) =~= before.update(i as int, item));
            lemma_map_update(before, i as int, item, |x: MyTrip| x@);
            assert(trip_views(*trips) =~= before_views.update(i as int, changed));
        }
        i = i + 1;
    }
    assert(trip_views(*trips) =~= items0.map_values(f));
}

/// Sets the selection of each route to `value`.
pub fn select_in_routes(
    routes: &mut Vector<MyRoute>,
    value: bool,
)
    ensures
        route_views(*final(routes)) == route_views(*old(routes)).map_values(route_selector(value)),
{
    let ghost items0 = route_views(*routes);
    let ghost f = route_selector(value);
    let n = routes_len(routes);
    let mut i: usize = 0;
    while i < n
        invariant
            0 <= i <= n,
            n == routes_in(*routes).len(),
            n == items0.len(),
            f == route_selector(value),
            forall|j: int| 0 <= j < i ==> #[trigger] route_views(*routes)[j] == f(items0[j]),
            forall|j: int| i <= j < n ==> #[trigger] route_views(*routes)[j] == items0[j],
        decreases n - i,
    {
        let ghost before = routes_in(*routes);
        let ghost before_views = route_views(*routes);
        assert(route_views(*routes)[i as int] == items0[i as int]);
        let mut item = routes_set(routes, i, MyRoute::empty());
        assert(item@ == before_views[i as int]);
        item.set_selected(value);
        let ghost changed = item@;
        routes_set(routes, i, item);
        proof {
            assert(routes_in(*routes) =~= before.update(i as int, item));
            lemma_map_update(before, i as int, item, |x: MyRoute| x@);
            assert(route_views(*routes) =~= before_views.update(i as int, changed));
        }
        i = i + 1;
    }
    assert(route_views(*routes) =~= items0.map_values(f));
}

/// Sets the selection of each agency to `value`.
pub fn select_in_agencies(
    agencies: &mut Vector<MyAgency>,
    value: bool,
)
    ensures
        agency_views(*final(agencies)) == agency_views(*old(agencies)).map_values(agency_selector(value)),
{
    let ghost items0 = agency_views(*agencies);
    let ghost f = agency_selector(value);
    let n = agencies_len(agencies);
    let mut i: usize = 0;
    while i < n
        invariant
            0 <= i <= n,
            n == agencies_in(*agencies).len(),
            n == items0.len(),
            f == agency_selector(value),
            forall|j: int| 0 <= j < i ==> #[trigger] agency_views(*agencies)[j] == f(items0[j]),
            forall|j: int| i <= j < n ==> #[trigger] agency_views(*agencies)[j] == items0[j],
        decreases n - i,
    {
        let ghost before = agencies_in(*agencies);
        let ghost before_views = agency_views(*agencies);
        assert(agency_views(*agencies)[i as int] == items0[i as int]);
        let mut item = agencies_set(agencies, i, MyAgency::empty());
        assert(item@ == before_views[i as int]);
        item.set_selected(value);
        let ghost changed = item@;
        agencies_set(agencies, i, item);
        proof {
            assert(agencies_in(*agencies) =~= before.update(i as int, item));
            lemma_map_update(before, i as int, item, |x: MyAgency| x@);
            assert(agency_views(*agencies) =~= before_views.update(i as int, changed));
        }
        i = i + 1;
    }
    assert(agency_views(*agencies) =~= items0.map_values(f));
}

} // verus!
