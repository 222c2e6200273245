use vstd::prelude::*;

use crate::laws::{lemma_fold_keeps, lemma_fold_reaches};
use crate::model::{ActionView, AgencyView, AppDataView, EditType, ItemDataView, RouteView, TripView};
use crate::update::{
    agency_has_trip, agency_update_logger, app_has_trip, route_has_trip, route_update_logger,
    trip_has_id, trip_update_logger, trip_update_recorded,
};

verus! {

/// The last entry of the log is an `Update` of the item of id `id`.
pub open spec fn last_is_update_of(log: Seq<ActionView>, id: Seq<char>) -> bool {
    &&& log.len() > 0
    &&& log.last().edit_type == EditType::Update
    &&& log.last().item_data is Some
    &&& log.last().item_data->0.id() == id
}

/// Lifts what each trip step keeps, and reaches at a trip of id `id`, to
/// the walk over all trips of the editor.
pub proof fn lemma_update_walk(app: AppDataView, id: Seq<char>, p: spec_fn(Seq<ActionView>) -> bool)
    requires
        forall|l: Seq<ActionView>, t: TripView| p(l) ==> p(#[trigger] trip_update_logger(id)(l, t)),
    ensures
        p(app.actions) ==> p(app.agencies.fold_left(app.actions, agency_update_logger(id))),
        (forall|l: Seq<ActionView>, t: TripView| trip_has_id(t, id) ==> p(#[trigger] trip_update_logger(id)(l, t)))
            && app_has_trip(app, id) ==> p(app.agencies.fold_left(app.actions, agency_update_logger(id))),
{
    assert forall|l: Seq<ActionView>, r: RouteView| p(l) implies p(#[trigger] route_update_logger(id)(l, r)) by {
        lemma_fold_keeps(r.trips, l, trip_update_logger(id), p);
    }
    assert forall|l: Seq<ActionView>, a: AgencyView| p(l) implies p(#[trigger] agency_update_logger(id)(l, a)) by {
        lemma_fold_keeps(a.routes, l, route_update_logger(id), p);
    }
    if p(app.actions) {
        lemma_fold_keeps(app.agencies, app.actions, agency_update_logger(id), p);
    }
    if (forall|l: Seq<ActionView>, t: TripView| trip_has_id(t, id) ==> p(#[trigger] trip_update_logger(id)(l, t)))
        && app_has_trip(app, id) {
        let h_trip = |t: TripView| trip_has_id(t, id);
        let h_route = |r: RouteView| route_has_trip(r, id);
        let h_agency = |a: AgencyView| agency_has_trip(a, id);
        assert forall|l: Seq<ActionView>, t: TripView| h_trip(t) implies p(#[trigger] trip_update_logger(id)(l, t)) by {
            assert(trip_has_id(t, id));
        }
        assert forall|l: Seq<ActionView>, r: RouteView| h_route(r) implies p(#[trigger] route_update_logger(id)(l, r)) by {
            let k = choose|k: int| 0 <= k < r.trips.len() && trip_has_id(#[trigger] r.trips[k], id);
            assert(h_trip(r.trips[k]));
            lemma_fold_reaches(r.trips, l, trip_update_logger(id), p, h_trip);
        }
        assert forall|l: Seq<ActionView>, a: AgencyView| h_agency(a) implies p(#[trigger] agency_update_logger(id)(l, a)) by {
            let k = choose|k: int| 0 <= k < a.routes.len() && route_has_trip(#[trigger] a.routes[k], id);
            assert(h_route(a.routes[k]));
            lemma_fold_reaches(a.routes, l, route_update_logger(id), p, h_route);
        }
        let k = choose|k: int| 0 <= k < app.agencies.len() && agency_has_trip(#[trigger] app.agencies[k], id);
        assert(h_agency(app.agencies[k]));
        lemma_fold_reaches(app.agencies, app.actions, agency_update_logger(id), p, h_agency);
    }
}

/// Reporting an edit of a trip twice logs no more than reporting it once:
/// the first report adds at most one entry, the second adds none (it
/// replaces the snapshot in the last entry). The trips are not changed.
pub proof fn lemma_repeated_update_coalesces(app: AppDataView, id: Seq<char>)
    requires
        app_has_trip(app, id),
    ensures
        trip_update_recorded(app, "trip"@, id).actions.len() <= app.actions.len() + 1,
        trip_update_recorded(trip_update_recorded(app, "trip"@, id), "trip"@, id).actions.len()
            == trip_update_recorded(app, "trip"@, id).actions.len(),
        trip_update_recorded(app, "trip"@, id).agencies == app.agencies,
{
    let once = trip_update_recorded(app, "trip"@, id);
    let n0 = app.actions.len();
    let last_update = |l: Seq<ActionView>| last_is_update_of(l, id);
    assert forall|l: Seq<ActionView>, t: TripView| last_update(l) implies last_update(
        #[trigger] trip_update_logger(id)(l, t),
    ) by {}
    assert forall|l: Seq<ActionView>, t: TripView| trip_has_id(t, id) implies last_update(
        #[trigger] trip_update_logger(id)(l, t),
    ) by {}
    lemma_update_walk(app, id, last_update);
    let grows_once = |l: Seq<ActionView>| l.len() == n0 || (l.len() == n0 + 1 && last_is_update_of(l, id));
    assert forall|l: Seq<ActionView>, t: TripView| grows_once(l) implies grows_once(
        #[trigger] trip_update_logger(id)(l, t),
    ) by {}
    lemma_update_walk(app, id, grows_once);
    let n1 = once.actions.len();
    let settled = |l: Seq<ActionView>| l.len() == n1 && last_is_update_of(l, id);
    assert forall|l: Seq<ActionView>, t: TripView| settled(l) implies settled(
        #[trigger] trip_update_logger(id)(l, t),
    ) by {}
    lemma_update_walk(once, id, settled);
}

/// A fold whose step keeps `p` at each of the folded items keeps `p`.
pub proof fn lemma_fold_keeps_at<A>(
    items: Seq<A>,
    log: Seq<ActionView>,
    f: spec_fn(Seq<ActionView>, A) -> Seq<ActionView>,
    p: spec_fn(Seq<ActionView>) -> bool,
)
    requires
        forall|l: Seq<ActionView>, k: int| 0 <= k < items.len() && p(l) ==> p(#[trigger] f(l, items[k])),
        p(log),
    ensures
        p(items.fold_left(log, f)),
    decreases items.len(),
{
    if items.len() > 0 {
        let init = items.drop_last();
        assert forall|l: Seq<ActionView>, k: int| 0 <= k < init.len() && p(l) implies p(#[trigger] f(l, init[k])) by {
            assert(init[k] == items[k]);
            assert(p(f(l, items[k])));
        }
        lemma_fold_keeps_at(init, log, f, p);
        assert(p(f(init.fold_left(log, f), items[items.len() - 1])));
    }
}

/// A fold whose step keeps `p` at each folded item, and reaches `p` at a
/// folded item that satisfies `h`, reaches `p` when such an item is there.
pub proof fn lemma_fold_reaches_at<A>(
    items: Seq<A>,
    log: Seq<ActionView>,
    f: spec_fn(Seq<ActionView>, A) -> Seq<ActionView>,
    p: spec_fn(Seq<ActionView>) -> bool,
    h: spec_fn(A) -> bool,
)
    requires
        forall|l: Seq<ActionView>, k: int| 0 <= k < items.len() && p(l) ==> p(#[trigger] f(l, items[k])),
        forall|l: Seq<ActionView>, k: int| 0 <= k < items.len() && h(items[k]) ==> p(#[trigger] f(l, items[k])),
        exists|k: int| 0 <= k < items.len() && #[trigger] h(items[k]),
    ensures
        p(items.fold_left(log, f)),
    decreases items.len(),
{
    let k = choose|k: int| 0 <= k < items.len() && #[trigger] h(items[k]);
    let init = items.drop_last();
    if k == items.len() - 1 {
        assert(p(f(init.fold_left(log, f), items[items.len() - 1])));
    } else {
        assert(init[k] == items[k]);
        assert(h(init[k]));
        assert forall|l: Seq<ActionView>, m: int| 0 <= m < init.len() && p(l) implies p(#[trigger] f(l, init[m])) by {
            assert(init[m] == items[m]);
            assert(p(f(l, items[m])));
        }
        assert forall|l: Seq<ActionView>, m: int| 0 <= m < init.len() && h(init[m]) implies p(#[trigger] f(l, init[m])) by {
            assert(init[m] == items[m]);
            assert(p(f(l, items[m])));
        }
        lemma_fold_reaches_at(init, log, f, p, h);
        assert(p(f(init.fold_left(log, f), items[items.len() - 1])));
    }
}

/// `(i, j, k)` is the position of a trip of the editor.
pub open spec fn is_trip_position(app: AppDataView, i: int, j: int, k: int) -> bool {
    0 <= i < app.agencies.len() && 0 <= j < app.agencies[i].routes.len() && 0 <= k
        < app.agencies[i].routes[j].trips.len()
}

/// Lifts what each step keeps, and reaches at a trip of id `id`, at the
/// trips of the editor to the walk over all of them.
pub proof fn lemma_update_walk_at(app: AppDataView, id: Seq<char>, p: spec_fn(Seq<ActionView>) -> bool)
    requires
        forall|l: Seq<ActionView>, i: int, j: int, k: int|
            is_trip_position(app, i, j, k) && p(l) ==> p(
                #[trigger] trip_update_logger(id)(l, app.agencies[i].routes[j].trips[k]),
            ),
    ensures
        p(app.actions) ==> p(app.agencies.fold_left(app.actions, agency_update_logger(id))),
        (forall|l: Seq<ActionView>, i: int, j: int, k: int|
            is_trip_position(app, i, j, k) && trip_has_id(app.agencies[i].routes[j].trips[k], id) ==> p(
                #[trigger] trip_update_logger(id)(l, app.agencies[i].routes[j].trips[k]),
            )) && app_has_trip(app, id) ==> p(
            app.agencies.fold_left(app.actions, agency_update_logger(id)),
        ),
{
    let ag = app.agencies;
    assert forall|l: Seq<ActionView>, i: int, j: int|
        0 <= i < ag.len() && 0 <= j < ag[i].routes.len() && p(l) implies p(
            #[trigger] route_update_logger(id)(l, ag[i].routes[j]),
        ) by {
        let r = ag[i].routes[j];
        assert forall|l2: Seq<ActionView>, k: int| 0 <= k < r.trips.len() && p(l2) implies p(
            #[trigger] trip_update_logger(id)(l2, r.trips[k]),
        ) by {
            assert(is_trip_position(app, i, j, k));
        }
        lemma_fold_keeps_at(r.trips, l, trip_update_logger(id), p);
    }
    assert forall|l: Seq<ActionView>, i: int| 0 <= i < ag.len() && p(l) implies p(
        #[trigger] agency_update_logger(id)(l, ag[i]),
    ) by {
        let a = ag[i];
        assert forall|l2: Seq<ActionView>, j: int| 0 <= j < a.routes.len() && p(l2) implies p(
            #[trigger] route_update_logger(id)(l2, a.routes[j]),
        ) by {}
        lemma_fold_keeps_at(a.routes, l, route_update_logger(id), p);
    }
    if p(app.actions) {
        lemma_fold_keeps_at(ag, app.actions, agency_update_logger(id), p);
    }
    if (forall|l: Seq<ActionView>, i: int, j: int, k: int|
        is_trip_position(app, i, j, k) && trip_has_id(app.agencies[i].routes[j].trips[k], id) ==> p(
            #[trigger] trip_update_logger(id)(l, app.agencies[i].routes[j].trips[k]),
        )) && app_has_trip(app, id) {
        let h_trip = |t: TripView| trip_has_id(t, id);
        let h_route = |r: RouteView| route_has_trip(r, id);
        let h_agency = |a: AgencyView| agency_has_trip(a, id);
        assert forall|l: Seq<ActionView>, i: int, j: int|
            0 <= i < ag.len() && 0 <= j < ag[i].routes.len() && h_route(ag[i].routes[j]) implies p(
                #[trigger] route_update_logger(id)(l, ag[i].routes[j]),
            ) by {
            let r = ag[i].routes[j];
            assert forall|l2: Seq<ActionView>, k: int| 0 <= k < r.trips.len() && p(l2) implies p(
                #[trigger] trip_update_logger(id)(l2, r.trips[k]),
            ) by {
                assert(is_trip_position(app, i, j, k));
            }
            assert forall|l2: Seq<ActionView>, k: int| 0 <= k < r.trips.len() && h_trip(r.trips[k]) implies p(
                #[trigger] trip_update_logger(id)(l2, r.trips[k]),
            ) by {
                assert(is_trip_position(app, i, j, k));
            }
            let k = choose|k: int| 0 <= k < r.trips.len() && trip_has_id(#[trigger] r.trips[k], id);
            assert(h_trip(r.trips[k]));
            lemma_fold_reaches_at(r.trips, l, trip_update_logger(id), p, h_trip);
        }
        assert forall|l: Seq<ActionView>, i: int| 0 <= i < ag.len() && h_agency(ag[i]) implies p(
            #[trigger] agency_update_logger(id)(l, ag[i]),
        ) by {
            let a = ag[i];
            assert forall|l2: Seq<ActionView>, j: int| 0 <= j < a.routes.len() && p(l2) implies p(
                #[trigger] route_update_logger(id)(l2, a.routes[j]),
            ) by {}
            assert forall|l2: Seq<ActionView>, j: int| 0 <= j < a.routes.len() && h_route(a.routes[j]) implies p(
                #[trigger] route_update_logger(id)(l2, a.routes[j]),
            ) by {}
            let j = choose|j: int| 0 <= j < a.routes.len() && route_has_trip(#[trigger] a.routes[j], id);
            assert(h_route(a.routes[j]));
            lemma_fold_reaches_at(a.routes, l, route_update_logger(id), p, h_route);
        }
        let i = choose|i: int| 0 <= i < ag.len() && agency_has_trip(#[trigger] ag[i], id);
        assert(h_agency(ag[i]));
        lemma_fold_reaches_at(ag, app.actions, agency_update_logger(id), p, h_agency);
    }
}

/// All trips of id `id` are the same trip (as when there is exactly one).
pub open spec fn trips_of_id_agree(app: AppDataView, id: Seq<char>) -> bool {
    forall|i1: int, j1: int, k1: int, i2: int, j2: int, k2: int|
        is_trip_position(app, i1, j1, k1) && is_trip_position(app, i2, j2, k2)
            && (#[trigger] app.agencies[i1].routes[j1].trips[k1]).id == id
            && (#[trigger] app.agencies[i2].routes[j2].trips[k2]).id == id
            ==> app.agencies[i1].routes[j1].trips[k1] == app.agencies[i2].routes[j2].trips[k2]
}

/// Reporting the same edit of a trip a second time leaves the editor's
/// state as the first report left it, log included: the second report only
/// puts an equal snapshot in the last entry. This holds when all trips of
/// that id are the same trip, as when there is exactly one.
pub proof fn lemma_repeated_update_settles(app: AppDataView, id: Seq<char>)
    requires
        app_has_trip(app, id),
        trips_of_id_agree(app, id),
    ensures
        trip_update_recorded(trip_update_recorded(app, "trip"@, id), "trip"@, id)
            == trip_update_recorded(app, "trip"@, id),
{
    let i0 = choose|i: int| 0 <= i < app.agencies.len() && agency_has_trip(#[trigger] app.agencies[i], id);
    let a0 = app.agencies[i0];
    let j0 = choose|j: int| 0 <= j < a0.routes.len() && route_has_trip(#[trigger] a0.routes[j], id);
    let r0 = a0.routes[j0];
    let k0 = choose|k: int| 0 <= k < r0.trips.len() && trip_has_id(#[trigger] r0.trips[k], id);
    let tu = r0.trips[k0];
    assert(is_trip_position(app, i0, j0, k0));
    let once = trip_update_recorded(app, "trip"@, id);
    let snapshot_is_tu = |l: Seq<ActionView>|
        last_is_update_of(l, id) && l.last().item_data == Some(ItemDataView::Trip(tu));
    assert forall|l: Seq<ActionView>, i: int, j: int, k: int|
        is_trip_position(app, i, j, k) && trip_has_id(app.agencies[i].routes[j].trips[k], id) implies snapshot_is_tu(
            #[trigger] trip_update_logger(id)(l, app.agencies[i].routes[j].trips[k]),
        ) by {
        assert(app.agencies[i].routes[j].trips[k] == app.agencies[i0].routes[j0].trips[k0]);
    }
    assert forall|l: Seq<ActionView>, i: int, j: int, k: int|
        is_trip_position(app, i, j, k) && snapshot_is_tu(l) implies snapshot_is_tu(
            #[trigger] trip_update_logger(id)(l, app.agencies[i].routes[j].trips[k]),
        ) by {
        if trip_has_id(app.agencies[i].routes[j].trips[k], id) {
            assert(app.agencies[i].routes[j].trips[k] == app.agencies[i0].routes[j0].trips[k0]);
        }
    }
    lemma_update_walk_at(app, id, snapshot_is_tu);
    let first = once.actions;
    assert(snapshot_is_tu(first));
    let unchanged = |l: Seq<ActionView>| l == first;
    assert(once.agencies == app.agencies);
    assert forall|l: Seq<ActionView>, i: int, j: int, k: int|
        is_trip_position(once, i, j, k) && unchanged(l) implies unchanged(
            #[trigger] trip_update_logger(id)(l, once.agencies[i].routes[j].trips[k]),
        ) by {
        let t = once.agencies[i].routes[j].trips[k];
        if trip_has_id(t, id) {
            assert(is_trip_position(app, i, j, k));
            assert(t == tu);
            assert(first.update(first.len() - 1, ActionView { item_data: Some(ItemDataView::Trip(t)), ..first.last() }) =~= first);
        }
    }
    lemma_update_walk_at(once, id, unchanged);
}

} // verus!
