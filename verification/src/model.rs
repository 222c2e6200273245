use im::Vector;
use vstd::prelude::*;

use crate::vector::{
    action_views, agency_views, route_views, stop_time_views, trip_views, routes_clone,
    stop_times_clone, trips_clone, stop_times_new, trips_new, routes_new,
};

verus! {

/// Whether a rider can board or alight anywhere along a route, as GTFS names it.
#[derive(Clone, Copy, PartialEq, Eq, Structural, Debug)]
pub enum MyContinuousPickupDropOff {
    Continuous,
    NotAvailable,
    ArrangeByPhone,
    CoordinateWithDriver,
    Unknown(i16),
}

/// A stop time of a trip, as the editor shows it.
pub struct MyStopTime {
    pub id: String,
    pub name: String,
    pub arrival_time: Option<u32>,
    pub selected: bool,
    pub live: bool,
}

/// What a stop time holds, as mathematical values.
pub struct StopTimeView {
    pub id: Seq<char>,
    pub name: Seq<char>,
    pub arrival_time: Option<u32>,
    pub selected: bool,
    pub live: bool,
}

impl View for MyStopTime {
    type V = StopTimeView;

    open spec fn view(&self) -> StopTimeView {
        StopTimeView {
            id: self.id@,
            name: self.name@,
            arrival_time: self.arrival_time,
            selected: self.selected,
            live: self.live,
        }
    }
}

impl Clone for MyStopTime {
    fn clone(&self) -> (r: Self)
        ensures
            r@ == self@,
    {
        MyStopTime {
            id: self.id.clone(),
            name: self.name.clone(),
            arrival_time: self.arrival_time,
            selected: self.selected,
            live: self.live,
        }
    }
}

/// A trip with its stop times.
pub struct MyTrip {
    pub id: String,
    pub name: String,
    pub trip_headsign: String,
    pub selected: bool,
    pub expanded: bool,
    pub live: bool,
    pub stops: Vector<MyStopTime>,
}

/// What a trip holds, as mathematical values.
pub struct TripView {
    pub id: Seq<char>,
    pub name: Seq<char>,
    pub trip_headsign: Seq<char>,
    pub selected: bool,
    pub expanded: bool,
    pub live: bool,
    pub stops: Seq<StopTimeView>,
}

impl View for MyTrip {
    type V = TripView;

    open spec fn view(&self) -> TripView {
        TripView {
            id: self.id@,
            name: self.name@,
            trip_headsign: self.trip_headsign@,
            selected: self.selected,
            expanded: self.expanded,
            live: self.live,
            stops: stop_time_views(self.stops),
        }
    }
}

impl Clone for MyTrip {
    fn clone(&self) -> (r: Self)
        ensures
            r@ == self@,
    {
        MyTrip {
            id: self.id.clone(),
            name: self.name.clone(),
            trip_headsign: self.trip_headsign.clone(),
            selected: self.selected,
            expanded: self.expanded,
            live: self.live,
            stops: stop_times_clone(&self.stops),
        }
    }
}

/// A route with its trips.
pub struct MyRoute {
    pub id: String,
    pub short_name: String,
    pub long_name: String,
    pub desc: Option<String>,
    pub url: Option<String>,
    pub agency_id: Option<String>,
    pub order: Option<u32>,
    pub continuous_pickup: MyContinuousPickupDropOff,
    pub selected: bool,
    pub expanded: bool,
    pub live: bool,
    pub new: bool,
    pub trips: Vector<MyTrip>,
}

/// The view of an optional text.
pub open spec fn opt_text(s: Option<String>) -> Option<Seq<char>> {
    match s {
        Some(t) => Some(t@),
        None => None,
    }
}

/// What a route holds, as mathematical values.
pub struct RouteView {
    pub id: Seq<char>,
    pub short_name: Seq<char>,
    pub long_name: Seq<char>,
    pub desc: Option<Seq<char>>,
    pub url: Option<Seq<char>>,
    pub agency_id: Option<Seq<char>>,
    pub order: Option<u32>,
    pub continuous_pickup: MyContinuousPickupDropOff,
    pub selected: bool,
    pub expanded: bool,
    pub live: bool,
    pub new: bool,
    pub trips: Seq<TripView>,
}

impl View for MyRoute {
    type V = RouteView;

    open spec fn view(&self) -> RouteView {
        RouteView {
            id: self.id@,
            short_name: self.short_name@,
            long_name: self.long_name@,
            desc: opt_text(self.desc),
            url: opt_text(self.url),
            agency_id: opt_text(self.agency_id),
            order: self.order,
            continuous_pickup: self.continuous_pickup,
            selected: self.selected,
            expanded: self.expanded,
            live: self.live,
            new: self.new,
            trips: trip_views(self.trips),
        }
    }
}

/// A copy of an optional text.
pub fn clone_opt_text(s: &Option<String>) -> (r: Option<String>)
    ensures
        opt_text(r) == opt_text(*s),
{
    match s {
        Some(t) => Some(t.clone()),
        None => None,
    }
}

impl Clone for MyRoute {
    fn clone(&self) -> (r: Self)
        ensures
            r@ == self@,
    {
        MyRoute {
            id: self.id.clone(),
            short_name: self.short_name.clone(),
            long_name: self.long_name.clone(),
            desc: clone_opt_text(&self.desc),
            url: clone_opt_text(&self.url),
            agency_id: clone_opt_text(&self.agency_id),
            order: self.order,
            continuous_pickup: self.continuous_pickup,
            selected: self.selected,
            expanded: self.expanded,
            live: self.live,
            new: self.new,
            trips: trips_clone(&self.trips),
        }
    }
}

/// A transit agency with its routes.
pub struct MyAgency {
    pub id: String,
    pub name: String,
    pub selected: bool,
    pub expanded: bool,
    pub show_deleted: bool,
    pub routes: Vector<MyRoute>,
}

/// What an agency holds, as mathematical values.
pub struct AgencyView {
    pub id: Seq<char>,
    pub name: Seq<char>,
    pub selected: bool,
    pub expanded: bool,
    pub show_deleted: bool,
    pub routes: Seq<RouteView>,
}

impl View for MyAgency {
    type V = AgencyView;

    open spec fn view(&self) -> AgencyView {
        AgencyView {
            id: self.id@,
            name: self.name@,
            selected: self.selected,
            expanded: self.expanded,
            show_deleted: self.show_deleted,
            routes: route_views(self.routes),
        }
    }
}

impl Clone for MyAgency {
    fn clone(&self) -> (r: Self)
        ensures
            r@ == self@,
    {
        MyAgency {
            id: self.id.clone(),
            name: self.name.clone(),
            selected: self.selected,
            expanded: self.expanded,
            show_deleted: self.show_deleted,
            routes: routes_clone(&self.routes),
        }
    }
}

/// What an action did to an item.
#[derive(Clone, Copy, PartialEq, Eq, Structural, Debug)]
pub enum EditType {
    Create,
    Update,
    Delete,
}

/// A snapshot of the item that an action touched.
pub enum ItemData {
    Agency(MyAgency),
    Route(MyRoute),
    Trip(MyTrip),
    StopTime(MyStopTime),
}

/// What a snapshot holds, as mathematical values.
pub enum ItemDataView {
    Agency(AgencyView),
    Route(RouteView),
    Trip(TripView),
    StopTime(StopTimeView),
}

impl View for ItemData {
    type V = ItemDataView;

    open spec fn view(&self) -> ItemDataView {
        match self {
            ItemData::Agency(a) => ItemDataView::Agency(a@),
            ItemData::Route(r) => ItemDataView::Route(r@),
            ItemData::Trip(t) => ItemDataView::Trip(t@),
            ItemData::StopTime(s) => ItemDataView::StopTime(s@),
        }
    }
}

impl ItemDataView {
    /// The id of the item in the snapshot.
    pub open spec fn id(self) -> Seq<char> {
        match self {
            ItemDataView::Agency(a) => a.id,
            ItemDataView::Route(r) => r.id,
            ItemDataView::Trip(t) => t.id,
            ItemDataView::StopTime(s) => s.id,
        }
    }
}

impl Clone for ItemData {
    fn clone(&self) -> (r: Self)
        ensures
            r@ == self@,
    {
        match self {
            ItemData::Agency(a) => ItemData::Agency(a.clone()),
            ItemData::Route(x) => ItemData::Route(x.clone()),
            ItemData::Trip(t) => ItemData::Trip(t.clone()),
            ItemData::StopTime(s) => ItemData::StopTime(s.clone()),
        }
    }
}

impl ItemData {
    /// The id of the item in the snapshot.
    pub fn id(&self) -> (r: String)
        ensures
            r@ == self@.id(),
    {
        match self {
            ItemData::Agency(a) => a.id.clone(),
            ItemData::Route(x) => x.id.clone(),
            ItemData::Trip(t) => t.id.clone(),
            ItemData::StopTime(s) => s.id.clone(),
        }
    }
}

/// The view of an optional snapshot.
pub open spec fn opt_data(d: Option<ItemData>) -> Option<ItemDataView> {
    match d {
        Some(x) => Some(x@),
        None => None,
    }
}

/// An entry of the editor's log of actions.
pub struct Action {
    pub id: usize,
    pub edit_type: EditType,
    pub item_type: String,
    pub item_id: String,
    pub item_data: Option<ItemData>,
}

/// What a log entry holds, as mathematical values.
pub struct ActionView {
    pub id: nat,
    pub edit_type: EditType,
    pub item_type: Seq<char>,
    pub item_id: Seq<char>,
    pub item_data: Option<ItemDataView>,
}

impl View for Action {
    type V = ActionView;

    open spec fn view(&self) -> ActionView {
        ActionView {
            id: self.id as nat,
            edit_type: self.edit_type,
            item_type: self.item_type@,
            item_id: self.item_id@,
            item_data: opt_data(self.item_data),
        }
    }
}

impl Clone for Action {
    fn clone(&self) -> (r: Self)
        ensures
            r@ == self@,
    {
        Action {
            id: self.id,
            edit_type: self.edit_type,
            item_type: self.item_type.clone(),
            item_id: self.item_id.clone(),
            item_data: match &self.item_data {
                Some(d) => Some(d.clone()),
                None => None,
            },
        }
    }
}

/// An entry of the editor's list of edits; the editor shows these and
/// nothing in it changes them.
pub struct Edit {
    pub id: usize,
    pub edit_type: EditType,
    pub item_type: String,
    pub item_id: String,
    pub item_data: Option<ItemData>,
}

impl Clone for Edit {
    fn clone(&self) -> (r: Self)
        ensures
            r.id == self.id,
            r.edit_type == self.edit_type,
            r.item_type@ == self.item_type@,
            r.item_id@ == self.item_id@,
            opt_data(r.item_data) == opt_data(self.item_data),
    {
        Edit {
            id: self.id,
            edit_type: self.edit_type,
            item_type: self.item_type.clone(),
            item_id: self.item_id.clone(),
            item_data: match &self.item_data {
                Some(d) => Some(d.clone()),
                None => None,
            },
        }
    }
}

/// The whole state of the editor.
pub struct AppData {
    pub agencies: Vector<MyAgency>,
    pub actions: Vector<Action>,
    pub edits: Vector<Edit>,
    pub show_deleted: bool,
    pub show_edits: bool,
    pub show_actions: bool,
    pub expanded: bool,
}

/// What the editor's state holds, as mathematical values (the list of
/// edits aside).
pub struct AppDataView {
    pub agencies: Seq<AgencyView>,
    pub actions: Seq<ActionView>,
    pub show_deleted: bool,
    pub show_edits: bool,
    pub show_actions: bool,
    pub expanded: bool,
}

impl View for AppData {
    type V = AppDataView;

    open spec fn view(&self) -> AppDataView {
        AppDataView {
            agencies: agency_views(self.agencies),
            actions: action_views(self.actions),
            show_deleted: self.show_deleted,
            show_edits: self.show_edits,
            show_actions: self.show_actions,
            expanded: self.expanded,
        }
    }
}

} // verus!

verus! {

impl MyStopTime {
    /// A stop time with empty texts, not selected, not deleted.
    pub fn empty() -> (r: Self)
        ensures
            r@ == (StopTimeView {
                id: Seq::empty(),
                name: Seq::empty(),
                arrival_time: None,
                selected: false,
                live: true,
            }),
    {
        MyStopTime {
            id: String::new(),
            name: String::new(),
            arrival_time: None,
            selected: false,
            live: true,
        }
    }
}

} // verus!

verus! {

impl MyTrip {
    /// A trip with empty texts and no stop times, not selected, not deleted.
    pub fn empty() -> (r: Self)
        ensures
            r@ == (TripView {
                id: Seq::empty(),
                name: Seq::empty(),
                trip_headsign: Seq::empty(),
                selected: false,
                expanded: false,
                live: true,
                stops: Seq::empty(),
            }),
    {
        let r = MyTrip {
            id: String::new(),
            name: String::new(),
            trip_headsign: String::new(),
            selected: false,
            expanded: false,
            live: true,
            stops: stop_times_new(),
        };
        assert(stop_time_views(r.stops) =~= Seq::<StopTimeView>::empty());
        r
    }
}

impl MyRoute {
    /// A route with empty texts and no trips, not selected, not deleted.
    pub fn empty() -> (r: Self)
        ensures
            r@ == (RouteView {
                id: Seq::empty(),
                short_name: Seq::empty(),
                long_name: Seq::empty(),
                desc: None,
                url: None,
                agency_id: None,
                order: None,
                continuous_pickup: MyContinuousPickupDropOff::NotAvailable,
                selected: false,
                expanded: false,
                live: true,
                new: false,
                trips: Seq::empty(),
            }),
    {
        let r = MyRoute {
            id: String::new(),
            short_name: String::new(),
            long_name: String::new(),
            desc: None,
            url: None,
            agency_id: None,
            order: None,
            continuous_pickup: MyContinuousPickupDropOff::NotAvailable,
            selected: false,
            expanded: false,
            live: true,
            new: false,
            trips: trips_new(),
        };
        assert(trip_views(r.trips) =~= Seq::<TripView>::empty());
        r
    }
}

impl MyAgency {
    /// An agency with empty texts and no routes.
    pub fn empty() -> (r: Self)
        ensures
            r@ == (AgencyView {
                id: Seq::empty(),
                name: Seq::empty(),
                selected: false,
                expanded: false,
                show_deleted: false,
                routes: Seq::empty(),
            }),
    {
        let r = MyAgency {
            id: String::new(),
            name: String::new(),
            selected: false,
            expanded: false,
            show_deleted: false,
            routes: routes_new(),
        };
        assert(route_views(r.routes) =~= Seq::<RouteView>::empty());
        r
    }
}

} // verus!
