//! The writes that an edit of a list makes to the database, as plain data.
//! Each variant stands for one SQL statement, run in order inside one
//! transaction by the program around the library.

use vstd::prelude::*;

verus! {

/// One write to the database.
#[derive(Debug, Clone, PartialEq, Eq)]
pub enum Statement {
    /// Marks the list as edited now:
    /// `update List set time_edited = unixepoch('now') where id like list_id`.
    TouchList { list_id: i32 },
    /// Adds an item without parent:
    /// `insert into Item(text, parent, next, list_id) values(text, NULL, next, list_id)`.
    InsertItem { text: String, next: Option<i32>, list_id: i32 },
    /// Makes the former last item of the list link to the new one:
    /// `update Item set next = new_id where next is null and id not like new_id and list_id like list_id`.
    LinkAtEnd { new_id: i32, list_id: i32 },
    /// Makes the item that linked to `next_id` link to the new one:
    /// `update Item set next = new_id where next like next_id and id not like new_id`.
    LinkBefore { new_id: i32, next_id: i32 },
    /// Replaces an item's text: `update Item set text = text where id like id`.
    SetText { id: i32, text: String },
    /// Makes the items linking to `from` link to `to`:
    /// `update Item set next = to where next like from` (with `from` NULL it
    /// matches no row).
    Redirect { from: Option<i32>, to: Option<i32> },
    /// Gives an item a new next item: `update Item set next = next where id like id`.
    SetNext { id: i32, next: Option<i32> },
    /// Removes an item: `delete from Item where id like id`.
    DeleteItem { id: i32 },
    /// Gives an item a new parent and next item:
    /// `update Item set parent = parent, next = next where id like id`.
    Place { id: i32, parent: Option<i32>, next: Option<i32> },
    /// Gives an item a new parent: `update Item set parent = parent where id like id`.
    SetParent { id: i32, parent: Option<i32> },
    /// Flips an item's completion: `update Item set complete = abs(complete - 1) where id like id`.
    ToggleComplete { id: i32 },
    /// Removes an item's recurrence: `delete from Recurrence where id like id`.
    DeleteRecurrence { id: i32 },
    /// Sets an item's recurrence, inserting or replacing it:
    /// `insert into Recurrence(id, period, time_last) values(..) on conflict(id) do update ..`.
    UpsertRecurrence { id: i32, period: i64, time_last: i64 },
    /// Sets an item's activation date, inserting or replacing it:
    /// `insert into Schedule(id, activation_date) values(..) on conflict(id) do update ..`.
    UpsertSchedule { id: i32, activation_date: i64 },
    /// Opens a recurring item again: `update Item set complete = FALSE where id like id`.
    ReopenItem { id: i32 },
    /// Moves the last time of an item's recurrence:
    /// `update Recurrence set time_last = time_last where id like id`.
    SetTimeLast { id: i32, time_last: i64 },
    /// Removes an item's activation date: `delete from Schedule where id like id`.
    DeleteSchedule { id: i32 },
    /// Flips whether the list hides its completed items:
    /// `update List set hide_complete = abs(hide_complete - 1) where id like list_id`.
    ToggleHideComplete { list_id: i32 },
}

} // verus!
