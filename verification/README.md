# gtfs_editor

The editing logic of a desktop editor for GTFS transit feeds, verified with
Verus.

The editor shows a feed as agencies, their routes, the routes' trips and the
trips' stop times. Its widgets send commands: delete an item, report that a
trip was edited, add a child to an agency or a route, undo an entry of the
action log. `command::Delegate::command` applies them to the editor's state
and keeps the log; its contract is a function of the state and the command.

- `src/model.rs`: the data model and its mathematical views.
- `src/vector.rs`: the persistent vectors of `im` that the model is built from.
- `src/delete.rs`, `src/update.rs`, `src/newchild.rs`, `src/undo.rs`: the four
  commands; `src/command.rs`: the handler.
- `src/items.rs`, `src/lenses.rs`, `src/labels.rs`: what the widgets decide.
- `src/laws.rs`, `src/roundtrip.rs`, `src/coalesce.rs`: properties of the
  commands, proved.
- `app/`: the druid program around the library (loading a feed, the widgets).
