use im::Vector;
use vstd::prelude::*;

use crate::model::{Action, ActionView, EditType, ItemData, ItemDataView};
use crate::vector::{action_views, actions_in, actions_len, actions_push};

verus! {

/// The log `log` with one more entry, whose id is its position.
pub open spec fn logged(
    log: Seq<ActionView>,
    edit_type: EditType,
    item_type: Seq<char>,
    item_id: Seq<char>,
    data: ItemDataView,
) -> Seq<ActionView> {
    log.push(
        ActionView {
            id: log.len(),
            edit_type: edit_type,
            item_type: item_type,
            item_id: item_id,
            item_data: Some(data),
        },
    )
}

/// Walks `items` in order with `f`, which may change each item and extend the
/// log; the result is the changed items and the final log.
pub open spec fn map_log<A>(
    items: Seq<A>,
    log: Seq<ActionView>,
    f: spec_fn(A, Seq<ActionView>) -> (A, Seq<ActionView>),
) -> (Seq<A>, Seq<ActionView>)
    decreases items.len(),
{
    if items.len() == 0 {
        (items, log)
    } else {
        let before = map_log(items.drop_last(), log, f);
        let last = f(items.last(), before.1);
        (before.0.push(last.0), last.1)
    }
}

/// One more step of `map_log`.
pub proof fn lemma_map_log_take<A>(
    items: Seq<A>,
    log: Seq<ActionView>,
    f: spec_fn(A, Seq<ActionView>) -> (A, Seq<ActionView>),
    i: int,
)
    requires
        0 <= i < items.len(),
    ensures
        map_log(items.take(i + 1), log, f) == ({
            let before = map_log(items.take(i), log, f);
            let step = f(items[i], before.1);
            (before.0.push(step.0), step.1)
        }),
{
    assert(items.take(i + 1).drop_last() =~= items.take(i));
}

/// Mapping commutes with replacing one element.
pub proof fn lemma_map_update<A, B>(s: Seq<A>, i: int, x: A, f: spec_fn(A) -> B)
    requires
        0 <= i < s.len(),
    ensures
        s.update(i, x).map_values(f) == s.map_values(f).update(i, f(x)),
{
    assert(s.update(i, x).map_values(f) =~= s.map_values(f).update(i, f(x)));
}

/// Appends an entry to the log, with the log's length as its id.
pub(crate) fn record(
    actions: &mut Vector<Action>,
    edit_type: EditType,
    item_type: &str,
    item_id: String,
    data: ItemData,
)
    ensures
        action_views(*final(actions)) == logged(
            action_views(*old(actions)),
            edit_type,
            item_type@,
            item_id@,
            data@,
        ),
{
    let id = actions_len(actions);
    let entry = Action {
        id: id,
        edit_type: edit_type,
        item_type: String::from_str(item_type),
        item_id: item_id,
        item_data: Some(data),
    };
    let ghost before = actions_in(*actions);
    actions_push(actions, entry);
    assert(action_views(*actions) =~= before.map_values(|x: Action| x@).push(entry@));
}

} // verus!
