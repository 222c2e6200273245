use im::Vector;
use vstd::prelude::*;

use crate::model::{
    Action, ActionView, AgencyView, MyAgency, MyRoute, MyStopTime, MyTrip, RouteView,
    StopTimeView, TripView,
};

verus! {

/// The persistent vector of `im`, which the editor's data model is built from.
#[verifier::external_type_specification]
#[verifier::external_body]
#[verifier::reject_recursive_types(A)]
pub struct ExVector<A>(Vector<A>);

/// The stop times that a vector holds, in order.
pub uninterp spec fn stop_times_in(v: Vector<MyStopTime>) -> Seq<MyStopTime>;

/// The views of the stop times that a vector holds, in order.
pub open spec fn stop_time_views(v: Vector<MyStopTime>) -> Seq<StopTimeView> {
    stop_times_in(v).map_values(|x: MyStopTime| x@)
}

/// `Vector::new`: an empty vector of stop times.
#[verifier::external_body]
pub(crate) fn stop_times_new() -> (r: Vector<MyStopTime>)
    ensures
        stop_times_in(r) == Seq::<MyStopTime>::empty(),
{
    Vector::new()
}

/// `Vector::len`: the number of stop times held.
#[verifier::external_body]
pub(crate) fn stop_times_len(v: &Vector<MyStopTime>) -> (r: usize)
    ensures
        r == stop_times_in(*v).len(),
{
    v.len()
}

/// `Vector::set`: puts `x` at `i` and hands back what stood there (it panics
/// past the end, which `requires` rules out).
#[verifier::external_body]
pub(crate) fn stop_times_set(v: &mut Vector<MyStopTime>, i: usize, x: MyStopTime) -> (r: MyStopTime)
    requires
        i < stop_times_in(*old(v)).len(),
    ensures
        stop_times_in(*final(v)) == stop_times_in(*old(v)).update(i as int, x),
        r == stop_times_in(*old(v))[i as int],
{
    v.set(i, x)
}

/// `Vector::clone`: a vector of the same stop times in the same order; `im`
/// shares the tree and, for a small vector, copies the elements with
/// `MyStopTime::clone`, which keeps each element's view.
#[verifier::external_body]
pub(crate) fn stop_times_clone(v: &Vector<MyStopTime>) -> (r: Vector<MyStopTime>)
    ensures
        stop_time_views(r) == stop_time_views(*v),
{
    v.clone()
}

/// The trips that a vector holds, in order.
pub uninterp spec fn trips_in(v: Vector<MyTrip>) -> Seq<MyTrip>;

/// The views of the trips that a vector holds, in order.
pub open spec fn trip_views(v: Vector<MyTrip>) -> Seq<TripView> {
    trips_in(v).map_values(|x: MyTrip| x@)
}

/// `Vector::new`: an empty vector of trips.
#[verifier::external_body]
pub(crate) fn trips_new() -> (r: Vector<MyTrip>)
    ensures
        trips_in(r) == Seq::<MyTrip>::empty(),
{
    Vector::new()
}

/// `Vector::len`: the number of trips held.
#[verifier::external_body]
pub(crate) fn trips_len(v: &Vector<MyTrip>) -> (r: usize)
    ensures
        r == trips_in(*v).len(),
{
    v.len()
}

/// `Index::index` of `Vector`: the element at `i` (it panics past the end,
/// which `requires` rules out).
#[verifier::external_body]
pub(crate) fn trips_get(v: &Vector<MyTrip>, i: usize) -> (r: &MyTrip)
    requires
        i < trips_in(*v).len(),
    ensures
        *r == trips_in(*v)[i as int],
{
    &v[i]
}

/// `Vector::set`: puts `x` at `i` and hands back what stood there (it panics
/// past the end, which `requires` rules out).
#[verifier::external_body]
pub(crate) fn trips_set(v: &mut Vector<MyTrip>, i: usize, x: MyTrip) -> (r: MyTrip)
    requires
        i < trips_in(*old(v)).len(),
    ensures
        trips_in(*final(v)) == trips_in(*old(v)).update(i as int, x),
        r == trips_in(*old(v))[i as int],
{
    v.set(i, x)
}

/// `Vector::push_back`: appends `x` at the end.
#[verifier::external_body]
pub(crate) fn trips_push(v: &mut Vector<MyTrip>, x: MyTrip)
    ensures
        trips_in(*final(v)) == trips_in(*old(v)).push(x),
{
    v.push_back(x)
}

/// `Vector::clone`: a vector of the same trips in the same order; `im`
/// shares the tree and, for a small vector, copies the elements with
/// `MyTrip::clone`, which keeps each element's view.
#[verifier::external_body]
pub(crate) fn trips_clone(v: &Vector<MyTrip>) -> (r: Vector<MyTrip>)
    ensures
        trip_views(r) == trip_views(*v),
{
    v.clone()
}

/// The routes that a vector holds, in order.
pub uninterp spec fn routes_in(v: Vector<MyRoute>) -> Seq<MyRoute>;

/// The views of the routes that a vector holds, in order.
pub open spec fn route_views(v: Vector<MyRoute>) -> Seq<RouteView> {
    routes_in(v).map_values(|x: MyRoute| x@)
}

/// `Vector::new`: an empty vector of routes.
#[verifier::external_body]
pub(crate) fn routes_new() -> (r: Vector<MyRoute>)
    ensures
        routes_in(r) == Seq::<MyRoute>::empty(),
{
    Vector::new()
}

/// `Vector::len`: the number of routes held.
#[verifier::external_body]
pub(crate) fn routes_len(v: &Vector<MyRoute>) -> (r: usize)
    ensures
        r == routes_in(*v).len(),
{
    v.len()
}

/// `Index::index` of `Vector`: the element at `i` (it panics past the end,
/// which `requires` rules out).
#[verifier::external_body]
pub(crate) fn routes_get(v: &Vector<MyRoute>, i: usize) -> (r: &MyRoute)
    requires
        i < routes_in(*v).len(),
    ensures
        *r == routes_in(*v)[i as int],
{
    &v[i]
}

/// `Vector::set`: puts `x` at `i` and hands back what stood there (it panics
/// past the end, which `requires` rules out).
#[verifier::external_body]
pub(crate) fn routes_set(v: &mut Vector<MyRoute>, i: usize, x: MyRoute) -> (r: MyRoute)
    requires
        i < routes_in(*old(v)).len(),
    ensures
        routes_in(*final(v)) == routes_in(*old(v)).update(i as int, x),
        r == routes_in(*old(v))[i as int],
{
    v.set(i, x)
}

/// `Vector::push_back`: appends `x` at the end.
#[verifier::external_body]
pub(crate) fn routes_push(v: &mut Vector<MyRoute>, x: MyRoute)
    ensures
        routes_in(*final(v)) == routes_in(*old(v)).push(x),
{
    v.push_back(x)
}

/// `Vector::clone`: a vector of the same routes in the same order; `im`
/// shares the tree and, for a small vector, copies the elements with
/// `MyRoute::clone`, which keeps each element's view.
#[verifier::external_body]
pub(crate) fn routes_clone(v: &Vector<MyRoute>) -> (r: Vector<MyRoute>)
    ensures
        route_views(r) == route_views(*v),
{
    v.clone()
}

/// The agencies that a vector holds, in order.
pub uninterp spec fn agencies_in(v: Vector<MyAgency>) -> Seq<MyAgency>;

/// The views of the agencies that a vector holds, in order.
pub open spec fn agency_views(v: Vector<MyAgency>) -> Seq<AgencyView> {
    agencies_in(v).map_values(|x: MyAgency| x@)
}

/// `Vector::len`: the number of agencies held.
#[verifier::external_body]
pub(crate) fn agencies_len(v: &Vector<MyAgency>) -> (r: usize)
    ensures
        r == agencies_in(*v).len(),
{
    v.len()
}

/// `Index::index` of `Vector`: the element at `i` (it panics past the end,
/// which `requires` rules out).
#[verifier::external_body]
pub(crate) fn agencies_get(v: &Vector<MyAgency>, i: usize) -> (r: &MyAgency)
    requires
        i < agencies_in(*v).len(),
    ensures
        *r == agencies_in(*v)[i as int],
{
    &v[i]
}

/// `Vector::set`: puts `x` at `i` and hands back what stood there (it panics
/// past the end, which `requires` rules out).
#[verifier::external_body]
pub(crate) fn agencies_set(v: &mut Vector<MyAgency>, i: usize, x: MyAgency) -> (r: MyAgency)
    requires
        i < agencies_in(*old(v)).len(),
    ensures
        agencies_in(*final(v)) == agencies_in(*old(v)).update(i as int, x),
        r == agencies_in(*old(v))[i as int],
{
    v.set(i, x)
}

/// The actions that a vector holds, in order.
pub uninterp spec fn actions_in(v: Vector<Action>) -> Seq<Action>;

/// The views of the actions that a vector holds, in order.
pub open spec fn action_views(v: Vector<Action>) -> Seq<ActionView> {
    actions_in(v).map_values(|x: Action| x@)
}

/// `Vector::new`: an empty vector of actions.
#[verifier::external_body]
pub(crate) fn actions_new() -> (r: Vector<Action>)
    ensures
        actions_in(r) == Seq::<Action>::empty(),
{
    Vector::new()
}

/// `Vector::len`: the number of actions held.
#[verifier::external_body]
pub(crate) fn actions_len(v: &Vector<Action>) -> (r: usize)
    ensures
        r == actions_in(*v).len(),
{
    v.len()
}

/// `Index::index` of `Vector`: the element at `i` (it panics past the end,
/// which `requires` rules out).
#[verifier::external_body]
pub(crate) fn actions_get(v: &Vector<Action>, i: usize) -> (r: &Action)
    requires
        i < actions_in(*v).len(),
    ensures
        *r == actions_in(*v)[i as int],
{
    &v[i]
}

/// `Vector::set`: puts `x` at `i` and hands back what stood there (it panics
/// past the end, which `requires` rules out).
#[verifier::external_body]
pub(crate) fn actions_set(v: &mut Vector<Action>, i: usize, x: Action) -> (r: Action)
    requires
        i < actions_in(*old(v)).len(),
    ensures
        actions_in(*final(v)) == actions_in(*old(v)).update(i as int, x),
        r == actions_in(*old(v))[i as int],
{
    v.set(i, x)
}

/// `Vector::push_back`: appends `x` at the end.
#[verifier::external_body]
pub(crate) fn actions_push(v: &mut Vector<Action>, x: Action)
    ensures
        actions_in(*final(v)) == actions_in(*old(v)).push(x),
{
    v.push_back(x)
}

} // verus!
