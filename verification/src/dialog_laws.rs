//! What the conversation promises over whole exchanges of questions and
//! answers: each law follows the session through the answers a user gives and
//! says what comes out, whatever the list and the answers are.

use vstd::prelude::*;

use crate::command::{ItemCommand, ListCommand, item_command_of, list_command_of};
use crate::dialog::{Action, DateUse, Input, Message, Mode, Prompt, SessionView, i32_of, period_part_of, step_of, usize_of};
use crate::display::{item_lines, print_fits};
use crate::model::{Item, List, Recurrence, ids, well_formed};
use crate::statement::Statement;
use crate::text::lowercase;
use crate::time::datetime_text_of;

verus! {

/// `print` shows the list the item commands work on: the lines of the working
/// copy of the list, with the items in order.
pub proof fn lemma_print_shows_working_list(s: SessionView, print: String, w: List)
    requires
        s.mode == Mode::ItemCommand,
        s.working == Some(w),
        item_command_of(lowercase(print@)) == ItemCommand::Print,
        print_fits(w, s.items),
    ensures
        step_of(s, Input::Line(print)).0.lines == item_lines(w, s.items),
        step_of(s, Input::Line(print)).1 == seq![Action::Show, Action::Ask(Prompt::ItemCommand)],
        step_of(s, Input::Line(print)).0.items == s.items,
{
}

/// After `hide` has been written, `print` shows the list with its completed
/// items hidden or shown the other way round than before: the flag that `hide`
/// flipped is the one that printing reads.
pub proof fn lemma_print_after_hide(s: SessionView, hide: String, print: String, w: List)
    requires
        s.mode == Mode::ItemCommand,
        s.working == Some(w),
        item_command_of(lowercase(hide@)) == ItemCommand::Hide,
        item_command_of(lowercase(print@)) == ItemCommand::Print,
        print_fits(List { hide_complete: !w.hide_complete, ..w }, s.items),
    ensures
        ({
            let s1 = step_of(s, Input::Line(hide)).0;
            let s2 = step_of(s1, Input::Written).0;
            let s3 = step_of(s2, Input::Line(print));
            &&& s3.0.lines == item_lines(List { hide_complete: !w.hide_complete, ..w }, s.items)
            &&& s3.1 == seq![Action::Show, Action::Ask(Prompt::ItemCommand)]
            &&& s3.0.working == Some(List { hide_complete: !w.hide_complete, ..w })
        }),
{
}

/// Adding an item: `add`, a position `p` within the list (or at its end), a
/// text, and the id the database gives the new item. The insert links the new
/// item to the item that was at `p` (to nothing only at the end), and the list
/// afterwards is still in link order with unique ids, with the new id at `p`
/// and every other item where it was, shifted past `p`.
pub proof fn lemma_add_answers(
    s: SessionView,
    command: String,
    position: String,
    text: String,
    p: usize,
    id: i32,
    w: List,
)
    requires
        s.mode == Mode::ItemCommand,
        s.working == Some(w),
        well_formed(s.items),
        item_command_of(lowercase(command@)) == ItemCommand::Add,
        usize_of(position@) == Some(p),
        p <= s.items.len(),
        !ids(s.items).contains(id),
    ensures
        ({
            let r1 = step_of(s, Input::Line(command));
            let r2 = step_of(r1.0, Input::Line(position));
            let r3 = step_of(r2.0, Input::Line(text));
            let r4 = step_of(r3.0, Input::Inserted(id));
            &&& r1.1 == seq![Action::Ask(Prompt::ItemPosition)]
            &&& r2.1 == seq![Action::Ask(Prompt::ItemText)]
            &&& r3.1 == seq![
                Action::Insert {
                    text,
                    next: if p < s.items.len() { Some(s.items[p as int].id) } else { None::<i32> },
                    list_id: w.id,
                },
            ]
            &&& r4.1 == seq![Action::Ask(Prompt::ItemCommand)]
            &&& well_formed(r4.0.items)
            &&& ids(r4.0.items) == ids(s.items).insert(p as int, id)
            &&& r4.0.items[p as int].text == text
        }),
{
    let next = if p < s.items.len() { Some(s.items[p as int].id) } else { None::<i32> };
    crate::laws::lemma_add_keeps_well_formed(s.items, p as int, text, next, id);
}

/// Archiving a list: `archive` and a list id. The program is asked to flip
/// whether that list is archived, and nothing else; the open list, when it is
/// that list, is flipped the same way, with its check boxes untouched.
pub proof fn lemma_archive_answers(s: SessionView, command: String, answer: String, id: i32)
    requires
        s.mode == Mode::ListCommand,
        list_command_of(lowercase(command@)) == ListCommand::Archive,
        i32_of(answer@) == Some(id),
    ensures
        ({
            let r1 = step_of(s, Input::Line(command));
            let r2 = step_of(r1.0, Input::Line(answer));
            &&& r1.1 == seq![Action::Ask(Prompt::ListId)]
            &&& r2.1 == seq![Action::ToggleArchived { id }]
            &&& r2.0.items == s.items
            &&& match (s.current, r2.0.current) {
                (Some(l), Some(l2)) => {
                    &&& l2.id == l.id
                    &&& l2.name == l.name
                    &&& l2.check_boxes == l.check_boxes
                    &&& l2.hide_complete == l.hide_complete
                    &&& l2.archived == (if l.id == id { !l.archived } else { l.archived })
                },
                (None, None) => true,
                _ => false,
            }
        }),
{
}

/// Switching a list's check boxes: `check_boxes` and a list id. The program is
/// asked to flip whether that list uses check boxes, and nothing else; the open
/// list, when it is that list, is flipped the same way, its archived flag
/// untouched.
pub proof fn lemma_check_boxes_answers(s: SessionView, command: String, answer: String, id: i32)
    requires
        s.mode == Mode::ListCommand,
        list_command_of(lowercase(command@)) == ListCommand::CheckBoxes,
        i32_of(answer@) == Some(id),
    ensures
        ({
            let r1 = step_of(s, Input::Line(command));
            let r2 = step_of(r1.0, Input::Line(answer));
            &&& r1.1 == seq![Action::Ask(Prompt::ListId)]
            &&& r2.1 == seq![Action::ToggleCheckBoxes { id }]
            &&& r2.0.items == s.items
            &&& match (s.current, r2.0.current) {
                (Some(l), Some(l2)) => {
                    &&& l2.id == l.id
                    &&& l2.name == l.name
                    &&& l2.archived == l.archived
                    &&& l2.hide_complete == l.hide_complete
                    &&& l2.check_boxes == (if l.id == id { !l.check_boxes } else { l.check_boxes })
                },
                (None, None) => true,
                _ => false,
            }
        }),
{
}

/// Typing a date and time, for a recurrence's start or a schedule: the parts
/// are asked in the order year, month, day, hour, minute, and the date and
/// time the session keeps is `YYYY-MM-DDTHH:MM:00` built from those answers in
/// that order.
pub proof fn lemma_date_answers(
    s: SessionView,
    purpose: DateUse,
    p: usize,
    year: String,
    month: String,
    day: String,
    hour: String,
    minute: String,
)
    requires
        s.mode == (Mode::DateParts { purpose, position: p }),
        s.answers.len() == 0,
    ensures
        ({
            let r1 = step_of(s, Input::Line(year));
            let r2 = step_of(r1.0, Input::Line(month));
            let r3 = step_of(r2.0, Input::Line(day));
            let r4 = step_of(r3.0, Input::Line(hour));
            let r5 = step_of(r4.0, Input::Line(minute));
            &&& r1.1 == seq![Action::Ask(Prompt::DatePart { purpose, part: 1 })]
            &&& r2.1 == seq![Action::Ask(Prompt::DatePart { purpose, part: 2 })]
            &&& r3.1 == seq![Action::Ask(Prompt::DatePart { purpose, part: 3 })]
            &&& r4.1 == seq![Action::Ask(Prompt::DatePart { purpose, part: 4 })]
            &&& r5.0.date_text == datetime_text_of(year@, month@, day@, hour@, minute@)
            &&& r5.0.answers.len() == 0
        }),
{
    let r1 = step_of(s, Input::Line(year));
    assert(r1.0.answers == seq![year]);
    let r2 = step_of(r1.0, Input::Line(month));
    assert(r2.0.answers == seq![year, month]);
    let r3 = step_of(r2.0, Input::Line(day));
    assert(r3.0.answers == seq![year, month, day]);
    let r4 = step_of(r3.0, Input::Line(hour));
    assert(r4.0.answers == seq![year, month, day, hour]);
    let a = r4.0.answers.push(minute);
    assert(a[0] == year && a[1] == month && a[2] == day && a[3] == hour && a[4] == minute);
}

/// The items are the same but at position `p`, where the item keeps its id,
/// links and parent.
pub open spec fn same_but_at(a: Seq<Item>, b: Seq<Item>, p: int) -> bool {
    &&& a.len() == b.len()
    &&& forall|k: int| 0 <= k < a.len() && k != p ==> #[trigger] a[k] == b[k]
    &&& a[p].id == b[p].id
    &&& a[p].next == b[p].next
    &&& a[p].parent == b[p].parent
}

/// Editing an item: `edit`, a position `p` in the list and a text. The item at
/// `p` gets the text, and nothing else changes; the writes set that item's
/// text; once written, the item prompt comes back with the items as edited.
pub proof fn lemma_edit_answers(s: SessionView, command: String, position: String, text: String, p: usize, w: List)
    requires
        s.mode == Mode::ItemCommand,
        s.working == Some(w),
        item_command_of(lowercase(command@)) == ItemCommand::Edit,
        usize_of(position@) == Some(p),
        p < s.items.len(),
    ensures
        ({
            let r1 = step_of(s, Input::Line(command));
            let r2 = step_of(r1.0, Input::Line(position));
            let r3 = step_of(r2.0, Input::Line(text));
            let r4 = step_of(r3.0, Input::Written);
            &&& r1.1 == seq![Action::Ask(Prompt::ItemPosition)]
            &&& r2.1 == seq![Action::Ask(Prompt::ItemText)]
            &&& r3.1 == seq![Action::Write]
            &&& same_but_at(s.items, r3.0.items, p as int)
            &&& r3.0.items[p as int].text == text
            &&& r3.0.items[p as int].complete == s.items[p as int].complete
            &&& r3.0.items[p as int].recurrence == s.items[p as int].recurrence
            &&& r3.0.items[p as int].schedule_date == s.items[p as int].schedule_date
            &&& r3.0.writes.contains(Statement::SetText { id: s.items[p as int].id, text })
            &&& r3.0.writes.contains(Statement::TouchList { list_id: w.id })
            &&& r4.1 == seq![Action::Ask(Prompt::ItemCommand)]
            &&& r4.0.items == r3.0.items
        }),
{
    let r3 = step_of(step_of(step_of(s, Input::Line(command)).0, Input::Line(position)).0, Input::Line(text));
    assert(r3.0.writes[2] == Statement::SetText { id: s.items[p as int].id, text });
    assert(r3.0.writes[0] == Statement::TouchList { list_id: w.id });
}

/// Marking an item: `mark` and a position `p` in the list. Only the item at
/// `p` changes, and only in being complete or not; the writes flip it.
pub proof fn lemma_mark_answers(s: SessionView, command: String, position: String, p: usize, w: List)
    requires
        s.mode == Mode::ItemCommand,
        s.working == Some(w),
        item_command_of(lowercase(command@)) == ItemCommand::Mark,
        usize_of(position@) == Some(p),
        p < s.items.len(),
    ensures
        ({
            let r1 = step_of(s, Input::Line(command));
            let r2 = step_of(r1.0, Input::Line(position));
            &&& r2.1 == seq![Action::Write]
            &&& same_but_at(s.items, r2.0.items, p as int)
            &&& r2.0.items[p as int].complete == !s.items[p as int].complete
            &&& r2.0.items[p as int].text == s.items[p as int].text
            &&& r2.0.items[p as int].recurrence == s.items[p as int].recurrence
            &&& r2.0.items[p as int].schedule_date == s.items[p as int].schedule_date
            &&& r2.0.writes.contains(Statement::ToggleComplete { id: s.items[p as int].id })
        }),
{
    let r2 = step_of(step_of(s, Input::Line(command)).0, Input::Line(position));
    assert(r2.0.writes[1] == Statement::ToggleComplete { id: s.items[p as int].id });
}

/// Deleting an item: `delete` and a position `p` in a well-formed list. The
/// list loses exactly that item's id and stays in link order with unique ids;
/// the writes delete that item.
pub proof fn lemma_delete_answers(s: SessionView, command: String, position: String, p: usize, w: List)
    requires
        s.mode == Mode::ItemCommand,
        s.working == Some(w),
        well_formed(s.items),
        item_command_of(lowercase(command@)) == ItemCommand::Delete,
        usize_of(position@) == Some(p),
        p < s.items.len(),
    ensures
        ({
            let r1 = step_of(s, Input::Line(command));
            let r2 = step_of(r1.0, Input::Line(position));
            &&& r2.1 == seq![Action::Write]
            &&& well_formed(r2.0.items)
            &&& ids(r2.0.items) == ids(s.items).remove(p as int)
            &&& r2.0.writes.contains(Statement::DeleteItem { id: s.items[p as int].id })
        }),
{
    crate::laws::lemma_delete_keeps_well_formed(s.items, p as int);
    let r2 = step_of(step_of(s, Input::Line(command)).0, Input::Line(position));
    assert(r2.0.writes[2] == Statement::DeleteItem { id: s.items[p as int].id });
}

/// Moving an item: `move`, a position `o` and a destination `n` in a
/// well-formed list. The item's id moves from `o` to `n`, every other id keeps
/// its order, and the list stays in link order with unique ids; a move onto
/// its own place changes and writes nothing.
pub proof fn lemma_move_answers(
    s: SessionView,
    command: String,
    from: String,
    to: String,
    o: usize,
    n: usize,
    w: List,
)
    requires
        s.mode == Mode::ItemCommand,
        s.working == Some(w),
        well_formed(s.items),
        item_command_of(lowercase(command@)) == ItemCommand::Move,
        usize_of(from@) == Some(o),
        usize_of(to@) == Some(n),
        o < s.items.len(),
        n < s.items.len(),
    ensures
        ({
            let r1 = step_of(s, Input::Line(command));
            let r2 = step_of(r1.0, Input::Line(from));
            let r3 = step_of(r2.0, Input::Line(to));
            &&& r1.1 == seq![Action::Ask(Prompt::ItemPosition)]
            &&& r2.1 == seq![Action::Ask(Prompt::Destination)]
            &&& o != n ==> r3.1 == seq![Action::Write]
            &&& o == n ==> r3.1 == seq![Action::Ask(Prompt::ItemCommand)]
            &&& well_formed(r3.0.items)
            &&& ids(r3.0.items) == ids(s.items).remove(o as int).insert(n as int, s.items[o as int].id)
        }),
{
    crate::laws::lemma_move_keeps_well_formed(s.items, o as int, n as int);
}

/// Removing a recurrence: `recur`, a position `p` in the list and `y`. The
/// item at `p` loses its recurrence and nothing else changes; the writes
/// delete that recurrence.
pub proof fn lemma_recurrence_removal_answers(
    s: SessionView,
    command: String,
    position: String,
    yes: String,
    p: usize,
    w: List,
)
    requires
        s.mode == Mode::ItemCommand,
        s.working == Some(w),
        item_command_of(lowercase(command@)) == ItemCommand::Recur,
        usize_of(position@) == Some(p),
        p < s.items.len(),
        yes@ == "y"@,
    ensures
        ({
            let r1 = step_of(s, Input::Line(command));
            let r2 = step_of(r1.0, Input::Line(position));
            let r3 = step_of(r2.0, Input::Line(yes));
            &&& r2.1 == seq![Action::Ask(Prompt::RemoveRecurrence)]
            &&& r3.1 == seq![Action::Write]
            &&& same_but_at(s.items, r3.0.items, p as int)
            &&& r3.0.items[p as int].recurrence is None
            &&& r3.0.items[p as int].schedule_date == s.items[p as int].schedule_date
            &&& r3.0.items[p as int].complete == s.items[p as int].complete
            &&& r3.0.items[p as int].text == s.items[p as int].text
            &&& r3.0.writes.contains(Statement::DeleteRecurrence { id: s.items[p as int].id })
        }),
{
    let r3 = step_of(step_of(step_of(s, Input::Line(command)).0, Input::Line(position)).0, Input::Line(yes));
    assert(r3.0.writes[1] == Statement::DeleteRecurrence { id: s.items[p as int].id });
}

/// Removing a schedule: `schedule`, a position `p` in the list and `y`. The
/// item at `p` loses its activation date, keeps its recurrence, and nothing
/// else changes; the writes delete that schedule.
pub proof fn lemma_schedule_removal_answers(
    s: SessionView,
    command: String,
    position: String,
    yes: String,
    p: usize,
    w: List,
)
    requires
        s.mode == Mode::ItemCommand,
        s.working == Some(w),
        item_command_of(lowercase(command@)) == ItemCommand::Schedule,
        usize_of(position@) == Some(p),
        p < s.items.len(),
        yes@ == "y"@,
    ensures
        ({
            let r1 = step_of(s, Input::Line(command));
            let r2 = step_of(r1.0, Input::Line(position));
            let r3 = step_of(r2.0, Input::Line(yes));
            &&& r2.1 == seq![Action::Ask(Prompt::RemoveSchedule)]
            &&& r3.1 == seq![Action::Write]
            &&& same_but_at(s.items, r3.0.items, p as int)
            &&& r3.0.items[p as int].schedule_date is None
            &&& r3.0.items[p as int].recurrence == s.items[p as int].recurrence
            &&& r3.0.items[p as int].complete == s.items[p as int].complete
            &&& r3.0.items[p as int].text == s.items[p as int].text
            &&& r3.0.writes.contains(Statement::DeleteSchedule { id: s.items[p as int].id })
        }),
{
    let r3 = step_of(step_of(step_of(s, Input::Line(command)).0, Input::Line(position)).0, Input::Line(yes));
    assert(r3.0.writes[1] == Statement::DeleteSchedule { id: s.items[p as int].id });
}

/// A recurrence starting now: from the question whether it starts now, any
/// answer but `n`, then the days, hours, minutes and seconds of the period,
/// all read as numbers that are not negative and fit. The program is asked for
/// the time now; with it, the item at `p` recurs every
/// `days * 86400 + hours * 3600 + minutes * 60 + seconds` seconds from then,
/// and nothing else changes.
pub proof fn lemma_recurrence_now_answers(
    s: SessionView,
    p: usize,
    start_now: String,
    days: String,
    hours: String,
    minutes: String,
    seconds: String,
    d: i64,
    h: i64,
    m: i64,
    sec: i64,
    now: i64,
)
    requires
        s.mode == (Mode::StartNow { position: p }),
        p < s.items.len(),
        start_now@ != "n"@,
        period_part_of(days@) == Some(d),
        period_part_of(hours@) == Some(h),
        period_part_of(minutes@) == Some(m),
        period_part_of(seconds@) == Some(sec),
        d >= 0 && h >= 0 && m >= 0 && sec >= 0,
        d * 86400 + h * 3600 + m * 60 + sec <= i64::MAX,
    ensures
        ({
            let r0 = step_of(s, Input::Line(start_now));
            let r1 = step_of(r0.0, Input::Line(days));
            let r2 = step_of(r1.0, Input::Line(hours));
            let r3 = step_of(r2.0, Input::Line(minutes));
            let r4 = step_of(r3.0, Input::Line(seconds));
            let r5 = step_of(r4.0, Input::Time(now));
            let period = (d * 86400 + h * 3600 + m * 60 + sec) as i64;
            &&& r0.1 == seq![Action::Ask(Prompt::PeriodPart { part: 0 })]
            &&& r1.1 == seq![Action::Ask(Prompt::PeriodPart { part: 1 })]
            &&& r2.1 == seq![Action::Ask(Prompt::PeriodPart { part: 2 })]
            &&& r3.1 == seq![Action::Ask(Prompt::PeriodPart { part: 3 })]
            &&& r4.1 == seq![Action::Now]
            &&& r5.1 == seq![Action::Write]
            &&& same_but_at(s.items, r5.0.items, p as int)
            &&& r5.0.items[p as int].recurrence == Some(Recurrence { period, time_last: now })
            &&& r5.0.items[p as int].schedule_date == s.items[p as int].schedule_date
            &&& r5.0.items[p as int].text == s.items[p as int].text
        }),
{
    let r0 = step_of(s, Input::Line(start_now));
    assert(r0.0.answers.len() == 0);
    let r1 = step_of(r0.0, Input::Line(days));
    assert(r1.0.answers == seq![days]);
    let r2 = step_of(r1.0, Input::Line(hours));
    assert(r2.0.answers == seq![days, hours]);
    let r3 = step_of(r2.0, Input::Line(minutes));
    assert(r3.0.answers == seq![days, hours, minutes]);
    let a = r3.0.answers.push(seconds);
    assert(a[0] == days && a[1] == hours && a[2] == minutes && a[3] == seconds);
}

/// A schedule at a typed date: once the program hands back the timestamp the
/// typed date and time stands for, the item at `p` is activated then, keeps
/// its recurrence, and nothing else changes.
pub proof fn lemma_schedule_time_answer(s: SessionView, p: usize, ts: i64)
    requires
        s.mode == (Mode::Timing { position: p, period: None }),
        p < s.items.len(),
    ensures
        ({
            let r = step_of(s, Input::Time(ts));
            &&& r.1 == seq![Action::Write]
            &&& same_but_at(s.items, r.0.items, p as int)
            &&& r.0.items[p as int].schedule_date == Some(ts)
            &&& r.0.items[p as int].recurrence == s.items[p as int].recurrence
            &&& r.0.writes.contains(Statement::UpsertSchedule { id: s.items[p as int].id, activation_date: ts })
        }),
{
    let r = step_of(s, Input::Time(ts));
    assert(r.0.writes[1] == Statement::UpsertSchedule { id: s.items[p as int].id, activation_date: ts });
}

/// Adding a list: `add`, a name and whether to use check boxes (yes unless the
/// answer is `n`, in any case). The program is asked to add that list; the
/// list it hands back is opened with its items, and the item prompt comes.
pub proof fn lemma_add_list_answers(
    s: SessionView,
    command: String,
    name: String,
    answer: String,
    l: List,
    items: Vec<Item>,
)
    requires
        s.mode == Mode::ListCommand,
        list_command_of(lowercase(command@)) == ListCommand::Add,
    ensures
        ({
            let r1 = step_of(s, Input::Line(command));
            let r2 = step_of(r1.0, Input::Line(name));
            let r3 = step_of(r2.0, Input::Line(answer));
            let r4 = step_of(r3.0, Input::Opened(l, items));
            &&& r1.1 == seq![Action::Ask(Prompt::ListName)]
            &&& r2.1 == seq![Action::Ask(Prompt::UseCompletion)]
            &&& r3.1 == seq![Action::AddList { name, check_boxes: lowercase(answer@) != "n"@ }]
            &&& r4.1 == seq![Action::Ask(Prompt::ItemCommand)]
            &&& r4.0.current == Some(l)
            &&& r4.0.working == Some(l)
            &&& r4.0.items == items@
        }),
{
}

/// Opening a list: `edit` and a list id. The program is asked to open that
/// list, and nothing else happens before it hands the list back.
pub proof fn lemma_open_list_answers(s: SessionView, command: String, answer: String, id: i32)
    requires
        s.mode == Mode::ListCommand,
        list_command_of(lowercase(command@)) == ListCommand::Edit,
        i32_of(answer@) == Some(id),
    ensures
        ({
            let r1 = step_of(s, Input::Line(command));
            let r2 = step_of(r1.0, Input::Line(answer));
            &&& r2.1 == seq![Action::OpenList { id }]
            &&& r2.0.current == s.current
            &&& r2.0.items == s.items
        }),
{
}

/// Deleting a list: `delete` and a list id. The program is asked to delete
/// that list; the open list is closed exactly when it is that list.
pub proof fn lemma_delete_list_answers(s: SessionView, command: String, answer: String, id: i32)
    requires
        s.mode == Mode::ListCommand,
        list_command_of(lowercase(command@)) == ListCommand::Delete,
        i32_of(answer@) == Some(id),
    ensures
        ({
            let r1 = step_of(s, Input::Line(command));
            let r2 = step_of(r1.0, Input::Line(answer));
            &&& r2.1 == seq![Action::DeleteList { id }]
            &&& (s.current matches Some(l) && l.id == id) ==> r2.0.current is None && r2.0.items.len() == 0
            &&& !(s.current matches Some(l) && l.id == id) ==> r2.0.current == s.current && r2.0.items == s.items
        }),
{
}

/// `exit` ends the program at either prompt.
pub proof fn lemma_exit_answers(s: SessionView, command: String)
    requires
        (s.mode == Mode::ListCommand && list_command_of(lowercase(command@)) == ListCommand::Exit) || (s.mode
            == Mode::ItemCommand && item_command_of(lowercase(command@)) == ItemCommand::Exit),
    ensures
        step_of(s, Input::Line(command)).1 == seq![Action::Say(Message::Exiting), Action::Stop],
        step_of(s, Input::Line(command)).0.mode == Mode::Stopped,
{
}

/// A failed write: after a delete or a move the items are read again; after
/// any other edit the program stops with the error.
pub proof fn lemma_failed_write(s: SessionView, command: ItemCommand)
    requires
        s.mode == (Mode::Writing { command }),
    ensures
        (command == ItemCommand::Delete || command == ItemCommand::Move) ==> step_of(s, Input::WriteFailed).1 == seq![
            Action::Reload,
        ],
        !(command == ItemCommand::Delete || command == ItemCommand::Move) ==> step_of(s, Input::WriteFailed).1
            == seq![Action::Fail],
        step_of(s, Input::Written).1 == seq![Action::Ask(Prompt::ItemCommand)],
        step_of(s, Input::Written).0.items == s.items,
{
}

/// Indenting an item: `indent` and a position `p` in a well-formed list. An
/// indented item goes back to the top level; a top-level item other than the
/// first goes under the closest top-level item before it (one with only
/// indented items between them); the first item stays as it is. Nothing else
/// about the list changes.
pub proof fn lemma_indent_answers(s: SessionView, command: String, position: String, p: usize, w: List)
    requires
        s.mode == Mode::ItemCommand,
        s.working == Some(w),
        well_formed(s.items),
        item_command_of(lowercase(command@)) == ItemCommand::Indent,
        usize_of(position@) == Some(p),
        p < s.items.len(),
    ensures
        ({
            let r = step_of(step_of(s, Input::Line(command)).0, Input::Line(position));
            let old_item = s.items[p as int];
            let new_item = r.0.items[p as int];
            &&& r.1 == seq![Action::Write]
            &&& r.0.items.len() == s.items.len()
            &&& forall|k: int| 0 <= k < s.items.len() && k != p ==> #[trigger] r.0.items[k] == s.items[k]
            &&& new_item == (Item { parent: new_item.parent, ..old_item })
            &&& old_item.parent is Some ==> new_item.parent is None
            &&& old_item.parent is None && p == 0 ==> new_item.parent is None
            &&& old_item.parent is None && p > 0 ==> exists|j: int|
                0 <= j < p && s.items[j].parent is None && new_item.parent == Some(s.items[j].id) && (forall|i: int|
                    j < i < p ==> (#[trigger] s.items[i]).parent is Some)
        }),
{
    crate::laws::lemma_indent_keeps_well_formed(s.items, p as int);
    if p > 0 {
        crate::model::lemma_nearest_root_facts(s.items, p as int);
        assert(s.items[0].parent is None);
    }
}

} // verus!
