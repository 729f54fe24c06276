# todo_list

A terminal to-do list manager backed by SQLite. Lists hold items kept in order
through `next` links; an item may be indented under the closest top-level item
before it, completed, recurring, or scheduled.

- `src/` is the verified library (Verus): the item model and its invariants
  (`model`), rebuilding the order from the links (`order`), the edits of a list
  together with the database writes they make (`ops`, `statement`), what is
  shown of a list (`display`) and of all lists (`overview`), times and periods
  (`time`), bringing due recurrences and schedules up to date (`refresh`),
  reading user input (`text`, `command`), the list being worked on
  (`session`), the whole conversation with the user as a step function from
  state and answer to next state and actions (`dialog`), the properties
  that hold across edits (`laws`), and what the database writes do to the
  stored rows, with the proof that they leave the rows holding the list as the
  edit left it in memory (`storage`).
- `app/` is the program around it: it asks the questions and carries out the
  actions `dialog::step` returns (the SQLite connection, running the writes in
  transactions, local time, printing).
- `tests/` runs the library on concrete lists.
