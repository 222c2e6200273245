use vstd::prelude::*;

use crate::command::{command_effect, Command};
use crate::delete::{
    agency_deleter, item_deleted, route_deleter, stop_time_deleter, trip_deleter,
};
use crate::log::{logged, map_log};
use crate::model::{ActionView, AgencyView, AppDataView, EditType, ItemDataView, RouteView, StopTimeView, TripView};
use crate::newchild::{agency_child_adder, child_added, route_child_adder};
use crate::undo::other_than;
use crate::coalesce::lemma_update_walk;
use crate::update::{
    agency_update_logger, last_carries_data, route_update_logger, trip_update_logger,
    trip_update_recorded, update_can_be_logged,
};

verus! {

/// `new` is `log` with entries appended at its end, each of which satisfies
/// `q` at its position.
pub open spec fn appends(
    log: Seq<ActionView>,
    new: Seq<ActionView>,
    q: spec_fn(int, ActionView) -> bool,
) -> bool {
    &&& log.len() <= new.len()
    &&& new.take(log.len() as int) == log
    &&& forall|k: int| log.len() <= k < new.len() ==> q(k, #[trigger] new[k])
}

/// Appending twice is appending.
pub proof fn lemma_appends_trans(
    a: Seq<ActionView>,
    b: Seq<ActionView>,
    c: Seq<ActionView>,
    q: spec_fn(int, ActionView) -> bool,
)
    requires
        appends(a, b, q),
        appends(b, c, q),
    ensures
        appends(a, c, q),
{
    assert(c.take(a.len() as int) =~= c.take(b.len() as int).take(a.len() as int));
    assert forall|k: int| a.len() <= k < c.len() implies q(k, #[trigger] c[k]) by {
        if k < b.len() {
            assert(c[k] == c.take(b.len() as int)[k]);
        }
    }
}

/// A walk whose every step only appends such entries only appends such
/// entries.
pub proof fn lemma_map_log_appends<A>(
    items: Seq<A>,
    log: Seq<ActionView>,
    f: spec_fn(A, Seq<ActionView>) -> (A, Seq<ActionView>),
    q: spec_fn(int, ActionView) -> bool,
)
    requires
        forall|x: A, l: Seq<ActionView>| appends(l, (#[trigger] f(x, l)).1, q),
    ensures
        appends(log, map_log(items, log, f).1, q),
    decreases items.len(),
{
    if items.len() == 0 {
        assert(log.take(log.len() as int) =~= log);
    } else {
        lemma_map_log_appends(items.drop_last(), log, f, q);
        let before = map_log(items.drop_last(), log, f);
        assert(appends(before.1, f(items.last(), before.1).1, q));
        lemma_appends_trans(log, before.1, f(items.last(), before.1).1, q);
    }
}

/// A walk whose every step changes an item as `g` does changes the items as
/// `g` does.
pub proof fn lemma_map_log_as_map<A>(
    items: Seq<A>,
    log: Seq<ActionView>,
    f: spec_fn(A, Seq<ActionView>) -> (A, Seq<ActionView>),
    g: spec_fn(A) -> A,
)
    requires
        forall|x: A, l: Seq<ActionView>| (#[trigger] f(x, l)).0 == g(x),
    ensures
        map_log(items, log, f).0 == items.map_values(g),
    decreases items.len(),
{
    if items.len() > 0 {
        lemma_map_log_as_map(items.drop_last(), log, f, g);
        assert(items.map_values(g) =~= items.drop_last().map_values(g).push(g(items.last())));
    }
}

/// A walk whose steps never shorten the log, and lengthen it at an item
/// that satisfies `h`, lengthens the log when such an item is there.
pub proof fn lemma_map_log_grows<A>(
    items: Seq<A>,
    log: Seq<ActionView>,
    f: spec_fn(A, Seq<ActionView>) -> (A, Seq<ActionView>),
    h: spec_fn(A) -> bool,
)
    requires
        forall|x: A, l: Seq<ActionView>| l.len() <= (#[trigger] f(x, l)).1.len(),
        forall|x: A, l: Seq<ActionView>| h(x) ==> l.len() < (#[trigger] f(x, l)).1.len(),
    ensures
        log.len() <= map_log(items, log, f).1.len(),
        (exists|k: int| 0 <= k < items.len() && #[trigger] h(items[k])) ==> log.len() < map_log(
            items,
            log,
            f,
        ).1.len(),
    decreases items.len(),
{
    if items.len() > 0 {
        lemma_map_log_grows(items.drop_last(), log, f, h);
        let before = map_log(items.drop_last(), log, f);
        assert(before.1.len() <= f(items.last(), before.1).1.len());
        if exists|k: int| 0 <= k < items.len() && #[trigger] h(items[k]) {
            let k = choose|k: int| 0 <= k < items.len() && #[trigger] h(items[k]);
            if k < items.len() - 1 {
                assert(h(items.drop_last()[k]));
            } else {
                assert(h(items.last()));
            }
        }
    }
}

/// A fold whose every step keeps `p` keeps `p`.
pub proof fn lemma_fold_keeps<A>(
    items: Seq<A>,
    log: Seq<ActionView>,
    f: spec_fn(Seq<ActionView>, A) -> Seq<ActionView>,
    p: spec_fn(Seq<ActionView>) -> bool,
)
    requires
        forall|l: Seq<ActionView>, x: A| p(l) ==> p(#[trigger] f(l, x)),
        p(log),
    ensures
        p(items.fold_left(log, f)),
    decreases items.len(),
{
    if items.len() > 0 {
        lemma_fold_keeps(items.drop_last(), log, f, p);
    }
}

/// A fold whose every step keeps `p`, and reaches `p` at an item that
/// satisfies `h`, reaches `p` when such an item is there.
pub proof fn lemma_fold_reaches<A>(
    items: Seq<A>,
    log: Seq<ActionView>,
    f: spec_fn(Seq<ActionView>, A) -> Seq<ActionView>,
    p: spec_fn(Seq<ActionView>) -> bool,
    h: spec_fn(A) -> bool,
)
    requires
        forall|l: Seq<ActionView>, x: A| p(l) ==> p(#[trigger] f(l, x)),
        forall|l: Seq<ActionView>, x: A| h(x) ==> p(#[trigger] f(l, x)),
        exists|k: int| 0 <= k < items.len() && #[trigger] h(items[k]),
    ensures
        p(items.fold_left(log, f)),
    decreases items.len(),
{
    let k = choose|k: int| 0 <= k < items.len() && #[trigger] h(items[k]);
    if k == items.len() - 1 {
        assert(h(items.last()));
    } else {
        assert(h(items.drop_last()[k]));
        lemma_fold_reaches(items.drop_last(), log, f, p, h);
    }
}

/// Every entry of the log carries a snapshot of the item it touched.
pub open spec fn entries_carry_data(log: Seq<ActionView>) -> bool {
    forall|i: int| 0 <= i < log.len() ==> (#[trigger] log[i]).item_data is Some
}

/// An entry that records the deletion of the item `(kind, id)`, at its
/// position, with a snapshot.
pub open spec fn deletion_entry(kind: Seq<char>, id: Seq<char>) -> spec_fn(int, ActionView) -> bool {
    |k: int, e: ActionView|
        e.id == k && e.edit_type == EditType::Delete && e.item_type == kind && e.item_id == id
            && e.item_data is Some
}

/// An entry that records the creation of a child of the item of id
/// `parent_id`, at its position, with a snapshot.
pub open spec fn creation_entry(parent_id: Seq<char>) -> spec_fn(int, ActionView) -> bool {
    |k: int, e: ActionView|
        e.id == k && e.edit_type == EditType::Create && e.item_id == parent_id
            && e.item_data is Some
}

/// A log appends nothing to itself.
pub proof fn lemma_appends_refl(log: Seq<ActionView>, q: spec_fn(int, ActionView) -> bool)
    ensures
        appends(log, log, q),
{
    assert(log.take(log.len() as int) =~= log);
}

/// Logging one entry appends it.
pub proof fn lemma_logged_appends(
    log: Seq<ActionView>,
    e: EditType,
    t: Seq<char>,
    i: Seq<char>,
    d: ItemDataView,
    q: spec_fn(int, ActionView) -> bool,
)
    requires
        q(log.len() as int, logged(log, e, t, i, d).last()),
    ensures
        appends(log, logged(log, e, t, i, d), q),
{
    assert(logged(log, e, t, i, d).take(log.len() as int) =~= log);
}

/// Each step of deleting `(kind, id)` only appends entries recording it.
pub proof fn lemma_deleters_append(kind: Seq<char>, id: Seq<char>)
    ensures
        forall|x: StopTimeView, l: Seq<ActionView>|
            appends(l, (#[trigger] stop_time_deleter(kind, id)(x, l)).1, deletion_entry(kind, id)),
        forall|x: TripView, l: Seq<ActionView>|
            appends(l, (#[trigger] trip_deleter(kind, id)(x, l)).1, deletion_entry(kind, id)),
        forall|x: RouteView, l: Seq<ActionView>|
            appends(l, (#[trigger] route_deleter(kind, id)(x, l)).1, deletion_entry(kind, id)),
        forall|x: AgencyView, l: Seq<ActionView>|
            appends(l, (#[trigger] agency_deleter(kind, id)(x, l)).1, deletion_entry(kind, id)),
{
    let q = deletion_entry(kind, id);
    assert forall|x: StopTimeView, l: Seq<ActionView>|
        appends(l, (#[trigger] stop_time_deleter(kind, id)(x, l)).1, q) by {
        if kind == "stop_time"@ && x.id == id {
            lemma_logged_appends(l, EditType::Delete, "stop_time"@, x.id, ItemDataView::StopTime(StopTimeView { live: false, ..x }), q);
        } else {
            lemma_appends_refl(l, q);
        }
    }
    assert forall|x: TripView, l: Seq<ActionView>|
        appends(l, (#[trigger] trip_deleter(kind, id)(x, l)).1, q) by {
        if kind == "trip"@ && x.id == id {
            lemma_logged_appends(l, EditType::Delete, "trip"@, x.id, ItemDataView::Trip(TripView { live: false, ..x }), q);
        } else {
            lemma_map_log_appends(x.stops, l, stop_time_deleter(kind, id), q);
        }
    }
    assert forall|x: RouteView, l: Seq<ActionView>|
        appends(l, (#[trigger] route_deleter(kind, id)(x, l)).1, q) by {
        if kind == "route"@ && x.id == id {
            lemma_logged_appends(l, EditType::Delete, "route"@, x.id, ItemDataView::Route(RouteView { live: false, ..x }), q);
        } else {
            lemma_map_log_appends(x.trips, l, trip_deleter(kind, id), q);
        }
    }
    assert forall|x: AgencyView, l: Seq<ActionView>|
        appends(l, (#[trigger] agency_deleter(kind, id)(x, l)).1, q) by {
        lemma_map_log_appends(x.routes, l, route_deleter(kind, id), q);
    }
}

/// Deleting an item only appends entries to the log: each records the
/// deletion of that very item, carries a snapshot, and has its position as
/// its id.
pub proof fn lemma_deletion_appends(app: AppDataView, kind: Seq<char>, id: Seq<char>)
    ensures
        appends(app.actions, item_deleted(app, kind, id).actions, deletion_entry(kind, id)),
{
    lemma_deleters_append(kind, id);
    lemma_map_log_appends(app.agencies, app.actions, agency_deleter(kind, id), deletion_entry(kind, id));
}

/// Adding a child only appends entries to the log: each records the
/// creation of a child of that very item, carries a snapshot, and has its
/// position as its id.
pub proof fn lemma_child_appends(app: AppDataView, kind: Seq<char>, parent_id: Seq<char>)
    ensures
        appends(app.actions, child_added(app, kind, parent_id).actions, creation_entry(parent_id)),
{
    let q = creation_entry(parent_id);
    assert forall|x: RouteView, l: Seq<ActionView>|
        appends(l, (#[trigger] route_child_adder(kind, parent_id)(x, l)).1, q) by {
        if kind == "route"@ && x.id == parent_id {
            let grown = RouteView { trips: x.trips.push(crate::newchild::new_trip(x)), ..x };
            lemma_logged_appends(l, EditType::Create, "trip"@, x.id, ItemDataView::Route(grown), q);
        } else {
            lemma_appends_refl(l, q);
        }
    }
    assert forall|x: AgencyView, l: Seq<ActionView>|
        appends(l, (#[trigger] agency_child_adder(kind, parent_id)(x, l)).1, q) by {
        if kind == "agency"@ && x.id == parent_id {
            let grown = AgencyView { routes: x.routes.push(crate::newchild::new_route(x)), ..x };
            lemma_logged_appends(l, EditType::Create, "route"@, x.id, ItemDataView::Agency(grown), q);
        } else {
            lemma_map_log_appends(x.routes, l, route_child_adder(kind, parent_id), q);
        }
    }
    lemma_map_log_appends(app.agencies, app.actions, agency_child_adder(kind, parent_id), q);
}

/// Appending entries with snapshots keeps every entry carrying one.
pub proof fn lemma_appends_carry(
    log: Seq<ActionView>,
    new: Seq<ActionView>,
    q: spec_fn(int, ActionView) -> bool,
)
    requires
        appends(log, new, q),
        entries_carry_data(log),
        forall|k: int, e: ActionView| #[trigger] q(k, e) ==> e.item_data is Some,
    ensures
        entries_carry_data(new),
{
    assert forall|i: int| 0 <= i < new.len() implies (#[trigger] new[i]).item_data is Some by {
        if i < log.len() {
            assert(new[i] == new.take(log.len() as int)[i]);
        } else {
            assert(q(i, new[i]));
        }
    }
}

/// Logging the updates of trips keeps every entry carrying a snapshot.
pub proof fn lemma_update_keeps_carry(app: AppDataView, id: Seq<char>)
    requires
        entries_carry_data(app.actions),
    ensures
        entries_carry_data(app.agencies.fold_left(app.actions, agency_update_logger(id))),
{
    let p = |l: Seq<ActionView>| entries_carry_data(l);
    assert forall|l: Seq<ActionView>, t: TripView| p(l) implies p(#[trigger] trip_update_logger(id)(l, t)) by {
        let r = trip_update_logger(id)(l, t);
        assert forall|i: int| 0 <= i < r.len() implies (#[trigger] r[i]).item_data is Some by {
            if i < l.len() {
                assert(l[i].item_data is Some);
            }
        }
    }
    assert forall|l: Seq<ActionView>, r: RouteView| p(l) implies p(#[trigger] route_update_logger(id)(l, r)) by {
        lemma_fold_keeps(r.trips, l, trip_update_logger(id), p);
    }
    assert forall|l: Seq<ActionView>, a: AgencyView| p(l) implies p(#[trigger] agency_update_logger(id)(l, a)) by {
        lemma_fold_keeps(a.routes, l, route_update_logger(id), p);
    }
    lemma_fold_keeps(app.agencies, app.actions, agency_update_logger(id), p);
}

/// Filtering keeps what holds of every element.
pub proof fn lemma_filter_carry(log: Seq<ActionView>, keep: spec_fn(ActionView) -> bool)
    requires
        entries_carry_data(log),
    ensures
        entries_carry_data(log.filter(keep)),
    decreases log.len(),
{
    reveal(Seq::filter);
    if log.len() > 0 {
        lemma_filter_carry(log.drop_last(), keep);
    }
}

/// Every command keeps every entry of the log carrying a snapshot of the
/// item it touched (which the log's labels rely on).
pub proof fn lemma_commands_keep_snapshots(app: AppDataView, cmd: Command)
    requires
        entries_carry_data(app.actions),
    ensures
        entries_carry_data(command_effect(app, cmd).actions),
{
    match cmd {
        Command::ItemDelete(kind, id) => {
            lemma_deletion_appends(app, kind@, id@);
            lemma_appends_carry(app.actions, item_deleted(app, kind@, id@).actions, deletion_entry(kind@, id@));
        },
        Command::ItemUpdate(kind, id) => {
            lemma_update_keeps_carry(app, id@);
        },
        Command::ItemNewChild(kind, parent_id) => {
            lemma_child_appends(app, kind@, parent_id@);
            lemma_appends_carry(app.actions, child_added(app, kind@, parent_id@).actions, creation_entry(parent_id@));
        },
        Command::EditDelete(position) => {
            lemma_filter_carry(app.actions, other_than(position as nat));
        },
        Command::Other => {},
    }
}

/// Every entry's id is its position in the log.
pub open spec fn ids_are_positions(log: Seq<ActionView>) -> bool {
    forall|j: int| 0 <= j < log.len() ==> (#[trigger] log[j]).id == j
}

/// `new` is `old` with at most the snapshot of its last entry changed, and
/// `Update` entries of the trip `id` appended, with ids equal to positions.
pub open spec fn update_shape(old: Seq<ActionView>, new: Seq<ActionView>, id: Seq<char>) -> bool {
    &&& old.len() <= new.len()
    &&& forall|j: int| 0 <= j < old.len() - 1 ==> #[trigger] new[j] == old[j]
    &&& old.len() > 0 ==> new[old.len() - 1] == (ActionView {
        item_data: new[old.len() - 1].item_data,
        ..old.last()
    })
    &&& ids_are_positions(new)
    &&& forall|j: int|
        old.len() <= j < new.len() ==> {
            &&& (#[trigger] new[j]).edit_type == EditType::Update
            &&& new[j].item_type == "trip"@
            &&& new[j].item_id == id
            &&& new[j].item_data is Some
        }
}

/// Reporting an edit of a trip keeps every entry's id equal to its
/// position; it changes at most the snapshot of the last entry, and the
/// entries it appends are `Update`s of that trip with snapshots.
pub proof fn lemma_update_keeps_positions(app: AppDataView, id: Seq<char>)
    requires
        ids_are_positions(app.actions),
    ensures
        update_shape(app.actions, trip_update_recorded(app, "trip"@, id).actions, id),
{
    let old = app.actions;
    let p = |l: Seq<ActionView>| update_shape(old, l, id);
    assert forall|l: Seq<ActionView>, t: TripView| p(l) implies p(#[trigger] trip_update_logger(id)(l, t)) by {
        let r = trip_update_logger(id)(l, t);
        if t.id == id {
            if l.len() > 0 && l.last().item_data.unwrap().id() == t.id && l.last().edit_type
                == EditType::Update {
                assert(r == l.update(l.len() - 1, ActionView { item_data: Some(ItemDataView::Trip(t)), ..l.last() }));
                assert forall|j: int| 0 <= j < old.len() - 1 implies #[trigger] r[j] == old[j] by {
                    assert(l[j] == old[j]);
                }
                assert forall|j: int| 0 <= j < r.len() implies (#[trigger] r[j]).id == j by {
                    assert(l[j].id == j);
                }
                assert forall|j: int| old.len() <= j < r.len() implies {
                    &&& (#[trigger] r[j]).edit_type == EditType::Update
                    &&& r[j].item_type == "trip"@
                    &&& r[j].item_id == id
                    &&& r[j].item_data is Some
                } by {
                    assert(l[j].edit_type == EditType::Update);
                }
            } else {
                assert forall|j: int| 0 <= j < old.len() - 1 implies #[trigger] r[j] == old[j] by {
                    assert(l[j] == old[j]);
                }
                assert forall|j: int| 0 <= j < r.len() implies (#[trigger] r[j]).id == j by {
                    if j < l.len() {
                        assert(l[j].id == j);
                    }
                }
                assert forall|j: int| old.len() <= j < r.len() implies {
                    &&& (#[trigger] r[j]).edit_type == EditType::Update
                    &&& r[j].item_type == "trip"@
                    &&& r[j].item_id == id
                    &&& r[j].item_data is Some
                } by {
                    if j < l.len() {
                        assert(l[j].edit_type == EditType::Update);
                    }
                }
            }
        }
    }
    assert forall|j: int| 0 <= j < old.len() - 1 implies #[trigger] old[j] == old[j] by {}
    assert(p(old));
    lemma_update_walk(app, id, p);
}

/// When every entry carries a snapshot, reporting any edit can be logged:
/// the update never finds a last entry without one.
pub proof fn lemma_update_can_be_logged(app: AppDataView, kind: Seq<char>, id: Seq<char>)
    requires
        entries_carry_data(app.actions),
    ensures
        update_can_be_logged(app, kind, id),
{
    if app.actions.len() > 0 {
        assert(app.actions[app.actions.len() - 1].item_data is Some);
    }
    assert(last_carries_data(app.actions));
}

} // verus!
