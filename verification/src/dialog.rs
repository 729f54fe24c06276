//! The conversation with the user. The program asks a question, reads the
//! answer, and hands it to `step`, which decides what happens next: the next
//! question, a message, a change to the lists or items, or the end. The
//! program around the library only asks, reads, and carries out the actions
//! that `step` returns, handing back what they produced.

use vstd::prelude::*;

use crate::command::{ItemCommand, ListCommand, item_command, item_command_of, list_command, list_command_of, uses_check_boxes};
use crate::display::{Line, can_print, item_lines, print_fits, print_items};
use crate::model::{Item, List, root_before};
use crate::ops::{
    Timing, add_item, added, can_indent, can_move, delete_item, delete_statements, deleted, edit_item, edit_statements,
    edited, hide_complete, hide_statements, indent_item, indent_statements, indented, mark_item, mark_statements,
    marked, move_item, move_safe, move_statements, moved, new_item, next_id_at, recur_item, recur_statements, recurred,
    schedule_item, schedule_statements, scheduled,
};
use crate::session::{is_current, toggle_current_archived, toggle_current_check_boxes};
use crate::statement::Statement;
use crate::text::{lowercase, parse_i32, parse_usize, same_text, signed_value, unsigned_value};
use crate::time::{
    StartTime, datetime_text, datetime_text_of, naive_datetime_parses, parse_period_part, period_can_be_counted,
    period_fits, period_from_parts, period_seconds, start_time,
};

verus! {

/// What a date and time is asked for.
#[derive(Debug, Clone, Copy, PartialEq, Eq)]
pub enum DateUse {
    /// The start of a recurrence.
    Start,
    /// The activation date of a schedule.
    Schedule,
}

/// A question the program asks.
#[derive(Debug, Clone, Copy, PartialEq, Eq)]
pub enum Prompt {
    /// `Enter List Command? `
    ListCommand,
    /// `Enter List Name? `
    ListName,
    /// `Use Completion? [Y/n] `
    UseCompletion,
    /// `Enter List Id? `
    ListId,
    /// `Enter Item Command? `
    ItemCommand,
    /// `Enter Item Position? `
    ItemPosition,
    /// `Enter Destination Position? `
    Destination,
    /// `Enter Item Text? `
    ItemText,
    /// `Remove Recurrence? [y/N] `
    RemoveRecurrence,
    /// `Start Recurrence Now? [Y/n] `
    StartNow,
    /// `Remove Schedule? [y/N] `
    RemoveSchedule,
    /// One part of a date and time: 0 the year, 1 the month, 2 the day, 3 the
    /// hour, 4 the minute.
    DatePart { purpose: DateUse, part: u8 },
    /// One part of the period between recurrences: 0 the days, 1 the hours,
    /// 2 the minutes, 3 the seconds.
    PeriodPart { part: u8 },
}

/// A message the program prints.
#[derive(Debug, Clone, Copy, PartialEq, Eq)]
pub enum Message {
    /// `Exiting..`
    Exiting,
    /// `Unknown Command`
    UnknownCommand,
    /// `Moving To List Commands..`
    MovingToListCommands,
    /// `Error While Parsing Position as usize`
    PositionNotNumber,
    /// `Error While Parsing Period as i32`
    PeriodNotNumber,
    /// `Error Invalid Period Value`
    InvalidPeriod,
}

/// An arithmetic overflow on which the program stops.
#[derive(Debug, Clone, Copy, PartialEq, Eq)]
pub enum Overflow {
    /// `attempt to add with overflow`
    Add,
    /// `attempt to subtract with overflow`
    Subtract,
}

/// What the program is to do next. Only the last action of a step waits for
/// something to hand back: an answer to a question (`Input::Line`) or what a
/// database action produced.
#[derive(Debug, Clone, PartialEq, Eq)]
pub enum Action {
    /// Ask a question; hand back the answer.
    Ask(Prompt),
    /// Print a message.
    Say(Message),
    /// Add a list and open it; hand back the list and its (no) items.
    AddList { name: String, check_boxes: bool },
    /// Open the list with this id, bringing its due recurrences and schedules
    /// up to date; hand back the list and its items.
    OpenList { id: i32 },
    /// Flip whether the list uses check boxes; hand back `Done`.
    ToggleCheckBoxes { id: i32 },
    /// Flip whether the list is archived; hand back `Done`.
    ToggleArchived { id: i32 },
    /// Delete the list; hand back `Done`.
    DeleteList { id: i32 },
    /// Print the overview of all lists; hand back `Done`.
    PrintLists,
    /// Add an item: run the writes that insert it, read the id the database
    /// gave it, run the write that links it in, and commit; hand back the id.
    Insert { text: String, next: Option<i32>, list_id: i32 },
    /// Run the session's `writes` in one transaction; hand back whether they
    /// were committed.
    Write,
    /// Bring due recurrences and schedules up to date and read the items of
    /// the working list again; hand them back.
    Reload,
    /// Read the session's `date_text` as a local date and time; hand back its
    /// UNIX timestamp.
    LocalTime,
    /// Hand back the UNIX timestamp of now.
    Now,
    /// Print the session's `lines`.
    Show,
    /// Stop, as the arithmetic overflow does.
    Overflow(Overflow),
    /// Stop with the error the database gave.
    Fail,
    /// Close the database and end.
    Stop,
}

/// What the program hands back to the session.
#[derive(Debug)]
pub enum Input {
    /// The answer to the last question.
    Line(String),
    /// The list added or opened, with its items in order.
    Opened(List, Vec<Item>),
    /// A list action is done.
    Done,
    /// The id the database gave an inserted item.
    Inserted(i32),
    /// The writes were committed.
    Written,
    /// The writes failed.
    WriteFailed,
    /// The items read again.
    Reloaded(Vec<Item>),
    /// A UNIX timestamp.
    Time(i64),
}

/// Where the conversation stands: what the session waits for.
#[derive(Debug)]
pub enum Mode {
    /// A list command.
    ListCommand,
    /// The name of a new list.
    ListName,
    /// Whether the new list `name` uses check boxes.
    UseCompletion { name: String },
    /// The id of the list `list_command` works on.
    ListId { list_command: ListCommand },
    /// The list added or opened.
    OpeningList,
    /// The end of a list action.
    ListTask,
    /// An item command.
    ItemCommand,
    /// The position of the item `command` works on.
    ItemPosition { command: ItemCommand },
    /// Where the item at the answered position `old` moves to.
    Destination { old: String },
    /// The text of the item `command` adds or edits at `position`.
    ItemText { command: ItemCommand, position: usize },
    /// The id of the item being inserted at `position`.
    Inserting { position: usize, text: String, next: Option<i32> },
    /// Whether the writes of the edit `command` were committed.
    Writing { command: ItemCommand },
    /// The items read again.
    Reloading,
    /// Whether to remove the recurrence of the item at `position`.
    RemoveRecurrence { position: usize },
    /// Whether the recurrence of the item at `position` starts now.
    StartNow { position: usize },
    /// The next part of a date and time for the item at `position`; the parts
    /// so far are in `answers`.
    DateParts { purpose: DateUse, position: usize },
    /// The next part of the period of the item at `position`, which starts
    /// now or at `date_text`; the parts so far are in `answers`.
    PeriodParts { position: usize, now: bool },
    /// Whether to remove the schedule of the item at `position`.
    RemoveSchedule { position: usize },
    /// The timestamp at which the recurrence (with `period`) or, for `None`,
    /// the schedule of the item at `position` starts.
    Timing { position: usize, period: Option<i64> },
    /// Nothing: the program ends.
    Stopped,
}

/// The state of the conversation.
#[derive(Debug)]
pub struct Session {
    /// What the session waits for.
    pub mode: Mode,
    /// The list opened at the list prompt.
    pub current: Option<List>,
    /// The items of the opened list, in order.
    pub items: Vec<Item>,
    /// The copy of the opened list that the item commands work on.
    pub working: Option<List>,
    /// The parts of a date or a period answered so far.
    pub answers: Vec<String>,
    /// The date and time text a recurrence or schedule starts at.
    pub date_text: String,
    /// The writes of the last edit.
    pub writes: Vec<Statement>,
    /// The lines to show.
    pub lines: Vec<Line>,
}

/// The state of the conversation, as values.
pub struct SessionView {
    pub mode: Mode,
    pub current: Option<List>,
    pub items: Seq<Item>,
    pub working: Option<List>,
    pub answers: Seq<String>,
    pub date_text: Seq<char>,
    pub writes: Seq<Statement>,
    pub lines: Seq<Line>,
}

impl View for Session {
    type V = SessionView;

    open spec fn view(&self) -> SessionView {
        SessionView {
            mode: self.mode,
            current: self.current,
            items: self.items@,
            working: self.working,
            answers: self.answers@,
            date_text: self.date_text@,
            writes: self.writes@,
            lines: self.lines@,
        }
    }
}

/// The session with another mode.
pub open spec fn with_mode(s: SessionView, mode: Mode) -> SessionView {
    SessionView { mode, ..s }
}

/// A step's result: the session waits for `mode` after asking `prompt`.
pub open spec fn asking(s: SessionView, mode: Mode, prompt: Prompt) -> (SessionView, Seq<Action>) {
    (with_mode(s, mode), seq![Action::Ask(prompt)])
}

/// Back at the item prompt.
pub open spec fn back_to_items(s: SessionView) -> (SessionView, Seq<Action>) {
    asking(s, Mode::ItemCommand, Prompt::ItemCommand)
}

/// The end of the program.
pub open spec fn stopping(s: SessionView, last: Action) -> (SessionView, Seq<Action>) {
    (with_mode(s, Mode::Stopped), seq![last])
}

/// After a list command: the item prompt, on a fresh copy of the opened list,
/// when a list is open; the list prompt otherwise.
pub open spec fn after_list(s: SessionView) -> (SessionView, Seq<Action>) {
    match s.current {
        Some(l) => (SessionView { mode: Mode::ItemCommand, working: Some(l), ..s }, seq![Action::Ask(Prompt::ItemCommand)]),
        None => asking(s, Mode::ListCommand, Prompt::ListCommand),
    }
}

/// An edit made: the items and the writes that make it, to be run.
pub open spec fn writing(s: SessionView, command: ItemCommand, items: Seq<Item>, writes: Seq<Statement>) -> (
    SessionView,
    Seq<Action>,
) {
    (SessionView { mode: Mode::Writing { command }, items, writes, ..s }, seq![Action::Write])
}

/// The id of the list the item commands work on.
pub open spec fn list_id_of(working: Option<List>) -> i32 {
    match working {
        Some(w) => w.id,
        None => 0,
    }
}

/// A position read as `str::parse::<usize>` does.
pub open spec fn usize_of(t: Seq<char>) -> Option<usize> {
    match unsigned_value(t) {
        Some(v) => if v <= usize::MAX { Some(v as usize) } else { None::<usize> },
        None => None::<usize>,
    }
}

/// A list id read as `str::parse::<i32>` does.
pub open spec fn i32_of(t: Seq<char>) -> Option<i32> {
    match signed_value(t) {
        Some(v) => if i32::MIN <= v <= i32::MAX { Some(v as i32) } else { None::<i32> },
        None => None::<i32>,
    }
}

/// A part of a period: empty counts as zero.
pub open spec fn period_part_of(t: Seq<char>) -> Option<i64> {
    if t.len() == 0 {
        Some(0i64)
    } else {
        match signed_value(t) {
            Some(v) => if i64::MIN <= v <= i64::MAX { Some(v as i64) } else { None::<i64> },
            None => None::<i64>,
        }
    }
}

/// How a start text reads: `remove`, a local date and time, or now.
pub open spec fn start_of(t: Seq<char>) -> StartTime {
    if t == "remove"@ {
        StartTime::Remove
    } else if naive_datetime_parses(t) {
        StartTime::Given
    } else {
        StartTime::Now
    }
}

/// The list `current` after the database flipped the check boxes of list `id`.
pub open spec fn flipped_check_boxes(current: Option<List>, id: i32) -> Option<List> {
    match current {
        Some(l) => if l.id == id { Some(List { check_boxes: !l.check_boxes, ..l }) } else { Some(l) },
        None => None::<List>,
    }
}

/// The list `current` after the database flipped whether list `id` is archived.
pub open spec fn flipped_archived(current: Option<List>, id: i32) -> Option<List> {
    match current {
        Some(l) => if l.id == id { Some(List { archived: !l.archived, ..l }) } else { Some(l) },
        None => None::<List>,
    }
}

/// An answer at the list prompt.
pub open spec fn list_command_next(s: SessionView, t: Seq<char>) -> (SessionView, Seq<Action>) {
    match list_command_of(lowercase(t)) {
        ListCommand::Add => asking(s, Mode::ListName, Prompt::ListName),
        ListCommand::Print => (with_mode(s, Mode::ListTask), seq![Action::PrintLists]),
        ListCommand::Exit => (with_mode(s, Mode::Stopped), seq![Action::Say(Message::Exiting), Action::Stop]),
        ListCommand::Unknown => (after_list(s).0, seq![Action::Say(Message::UnknownCommand)] + after_list(s).1),
        c => asking(s, Mode::ListId { list_command: c }, Prompt::ListId),
    }
}

/// An answer giving the id of the list `command` works on.
pub open spec fn list_id_next(s: SessionView, command: ListCommand, t: Seq<char>) -> (SessionView, Seq<Action>) {
    match i32_of(t) {
        None => after_list(s),
        Some(id) => match command {
            ListCommand::Edit => (with_mode(s, Mode::OpeningList), seq![Action::OpenList { id }]),
            ListCommand::CheckBoxes => (
                SessionView { mode: Mode::ListTask, current: flipped_check_boxes(s.current, id), ..s },
                seq![Action::ToggleCheckBoxes { id }],
            ),
            ListCommand::Archive => (
                SessionView { mode: Mode::ListTask, current: flipped_archived(s.current, id), ..s },
                seq![Action::ToggleArchived { id }],
            ),
            _ => if s.current matches Some(l) && l.id == id {
                (
                    SessionView { mode: Mode::ListTask, current: None, items: Seq::empty(), ..s },
                    seq![Action::DeleteList { id }],
                )
            } else {
                (with_mode(s, Mode::ListTask), seq![Action::DeleteList { id }])
            },
        },
    }
}

/// An answer at the item prompt.
pub open spec fn item_command_next(s: SessionView, t: Seq<char>) -> (SessionView, Seq<Action>) {
    match item_command_of(lowercase(t)) {
        ItemCommand::Update => (with_mode(s, Mode::Reloading), seq![Action::Reload]),
        ItemCommand::Hide => match s.working {
            Some(w) => (
                SessionView {
                    mode: Mode::Writing { command: ItemCommand::Hide },
                    working: Some(List { hide_complete: !w.hide_complete, ..w }),
                    writes: hide_statements(w.id),
                    ..s
                },
                seq![Action::Write],
            ),
            None => back_to_items(s),
        },
        ItemCommand::Print => match s.working {
            Some(w) => if print_fits(w, s.items) {
                (
                    SessionView { mode: Mode::ItemCommand, lines: item_lines(w, s.items), ..s },
                    seq![Action::Show, Action::Ask(Prompt::ItemCommand)],
                )
            } else {
                stopping(s, Action::Overflow(Overflow::Add))
            },
            None => back_to_items(s),
        },
        ItemCommand::List => (
            with_mode(s, Mode::ListCommand),
            seq![Action::Say(Message::MovingToListCommands), Action::Ask(Prompt::ListCommand)],
        ),
        ItemCommand::Exit => (with_mode(s, Mode::Stopped), seq![Action::Say(Message::Exiting), Action::Stop]),
        ItemCommand::Unknown => (
            with_mode(s, Mode::ItemCommand),
            seq![Action::Say(Message::UnknownCommand), Action::Ask(Prompt::ItemCommand)],
        ),
        c => asking(s, Mode::ItemPosition { command: c }, Prompt::ItemPosition),
    }
}

/// The position `p` of the item `command` works on, read from the answer.
pub open spec fn position_next(s: SessionView, command: ItemCommand, p: usize) -> (SessionView, Seq<Action>) {
    let len = s.items.len();
    let list_id = list_id_of(s.working);
    match command {
        ItemCommand::Add => if p <= len {
            asking(s, Mode::ItemText { command, position: p }, Prompt::ItemText)
        } else {
            back_to_items(s)
        },
        ItemCommand::Edit => if p < len {
            asking(s, Mode::ItemText { command, position: p }, Prompt::ItemText)
        } else {
            back_to_items(s)
        },
        ItemCommand::Delete => if p < len {
            writing(s, command, deleted(s.items, p as int), delete_statements(s.items, p as int, list_id))
        } else {
            back_to_items(s)
        },
        ItemCommand::Indent => if p < len {
            if s.items[p as int].parent is None && p > 0 ==> root_before(s.items, p as int) {
                writing(s, command, indented(s.items, p as int), indent_statements(s.items, p as int, list_id))
            } else {
                stopping(s, Action::Overflow(Overflow::Subtract))
            }
        } else {
            back_to_items(s)
        },
        ItemCommand::Recur => if p < len {
            asking(s, Mode::RemoveRecurrence { position: p }, Prompt::RemoveRecurrence)
        } else {
            back_to_items(s)
        },
        ItemCommand::Schedule => if p < len {
            asking(s, Mode::RemoveSchedule { position: p }, Prompt::RemoveSchedule)
        } else {
            back_to_items(s)
        },
        ItemCommand::Mark => if p < len {
            writing(s, command, marked(s.items, p as int), mark_statements(s.items[p as int].id, list_id))
        } else {
            back_to_items(s)
        },
        _ => back_to_items(s),
    }
}

/// An answer giving the position of the item `command` works on.
pub open spec fn item_position_next(s: SessionView, command: ItemCommand, t: String) -> (SessionView, Seq<Action>) {
    if command == ItemCommand::Move {
        asking(s, Mode::Destination { old: t }, Prompt::Destination)
    } else {
        match usize_of(t@) {
            None => (
                with_mode(s, Mode::ItemCommand),
                seq![Action::Say(Message::PositionNotNumber), Action::Ask(Prompt::ItemCommand)],
            ),
            Some(p) => position_next(s, command, p),
        }
    }
}

/// An answer giving where the item at the answered position `old` moves to.
pub open spec fn destination_next(s: SessionView, old: Seq<char>, t: Seq<char>) -> (SessionView, Seq<Action>) {
    match (usize_of(old), usize_of(t)) {
        (Some(o), Some(n)) => if o < s.items.len() && n < s.items.len() {
            if o == n {
                back_to_items(s)
            } else if !move_safe(s.items, o as int, n as int) {
                stopping(s, Action::Overflow(Overflow::Subtract))
            } else {
                writing(
                    s,
                    ItemCommand::Move,
                    moved(s.items, o as int, n as int),
                    move_statements(s.items, o as int, n as int, list_id_of(s.working)),
                )
            }
        } else {
            back_to_items(s)
        },
        _ => (
            with_mode(s, Mode::ItemCommand),
            seq![Action::Say(Message::PositionNotNumber), Action::Ask(Prompt::ItemCommand)],
        ),
    }
}

/// The item a new item placed at `p` links to.
pub open spec fn next_at(items: Seq<Item>, p: int) -> Option<i32> {
    if p < items.len() {
        Some(items[p].id)
    } else {
        None::<i32>
    }
}

/// An answer giving the text of the item `command` adds or edits at `p`.
pub open spec fn item_text_next(s: SessionView, command: ItemCommand, p: usize, t: String) -> (SessionView, Seq<Action>) {
    let list_id = list_id_of(s.working);
    if matches!(command, ItemCommand::Add) && p <= s.items.len() {
        let next = next_at(s.items, p as int);
        (
            with_mode(s, Mode::Inserting { position: p, text: t, next }),
            seq![Action::Insert { text: t, next, list_id }],
        )
    } else if command == ItemCommand::Edit && p < s.items.len() {
        writing(
            s,
            command,
            edited(s.items, p as int, t),
            edit_statements(s.items[p as int].id, t, list_id),
        )
    } else {
        back_to_items(s)
    }
}

/// The id `id` the database gave the item inserted at `p`.
pub open spec fn inserted_next(s: SessionView, p: usize, t: String, next: Option<i32>, id: i32) -> (
    SessionView,
    Seq<Action>,
) {
    if p <= s.items.len() {
        (
            SessionView { mode: Mode::ItemCommand, items: added(s.items, p as int, new_item(id, t, next)), ..s },
            seq![Action::Ask(Prompt::ItemCommand)],
        )
    } else {
        back_to_items(s)
    }
}

/// The recurrence of the item at `p` set or removed.
pub open spec fn recurring(s: SessionView, p: usize, period: i64, start: Timing) -> (SessionView, Seq<Action>) {
    if p < s.items.len() {
        writing(
            s,
            ItemCommand::Recur,
            recurred(s.items, p as int, period, start),
            recur_statements(s.items[p as int].id, period, start, list_id_of(s.working)),
        )
    } else {
        back_to_items(s)
    }
}

/// The schedule of the item at `p` set or removed.
pub open spec fn scheduling(s: SessionView, p: usize, start: Timing) -> (SessionView, Seq<Action>) {
    if p < s.items.len() {
        writing(
            s,
            ItemCommand::Schedule,
            scheduled(s.items, p as int, start),
            schedule_statements(s.items[p as int].id, start, list_id_of(s.working)),
        )
    } else {
        back_to_items(s)
    }
}

/// The start of a recurrence (with `period`) or, for `None`, a schedule of the
/// item at `p`, read from the session's `date_text`: removed, or the timestamp
/// asked for.
pub open spec fn start_next(s: SessionView, p: usize, period: Option<i64>) -> (SessionView, Seq<Action>) {
    match start_of(s.date_text) {
        StartTime::Remove => match period {
            Some(d) => recurring(s, p, d, Timing::Remove),
            None => scheduling(s, p, Timing::Remove),
        },
        StartTime::Given => (with_mode(s, Mode::Timing { position: p, period }), seq![Action::LocalTime]),
        StartTime::Now => (with_mode(s, Mode::Timing { position: p, period }), seq![Action::Now]),
    }
}

/// An answer to whether to remove the recurrence of the item at `p`.
pub open spec fn remove_recurrence_next(s: SessionView, p: usize, t: Seq<char>) -> (SessionView, Seq<Action>) {
    if t == "y"@ {
        recurring(s, p, 0, Timing::Remove)
    } else {
        asking(s, Mode::StartNow { position: p }, Prompt::StartNow)
    }
}

/// An answer to whether the recurrence of the item at `p` starts now.
pub open spec fn start_now_next(s: SessionView, p: usize, t: Seq<char>) -> (SessionView, Seq<Action>) {
    if t == "n"@ {
        (
            SessionView { mode: Mode::DateParts { purpose: DateUse::Start, position: p }, answers: Seq::empty(), ..s },
            seq![Action::Ask(Prompt::DatePart { purpose: DateUse::Start, part: 0 })],
        )
    } else {
        (
            SessionView { mode: Mode::PeriodParts { position: p, now: true }, answers: Seq::empty(), ..s },
            seq![Action::Ask(Prompt::PeriodPart { part: 0 })],
        )
    }
}

/// An answer to whether to remove the schedule of the item at `p`.
pub open spec fn remove_schedule_next(s: SessionView, p: usize, t: Seq<char>) -> (SessionView, Seq<Action>) {
    if t == "y"@ {
        scheduling(s, p, Timing::Remove)
    } else {
        (
            SessionView {
                mode: Mode::DateParts { purpose: DateUse::Schedule, position: p },
                answers: Seq::empty(),
                ..s
            },
            seq![Action::Ask(Prompt::DatePart { purpose: DateUse::Schedule, part: 0 })],
        )
    }
}

/// An answer giving one part of a date and time for the item at `p`.
pub open spec fn date_part_next(s: SessionView, purpose: DateUse, p: usize, t: String) -> (SessionView, Seq<Action>) {
    let a = s.answers.push(t);
    if a.len() < 5 {
        (
            SessionView { mode: Mode::DateParts { purpose, position: p }, answers: a, ..s },
            seq![Action::Ask(Prompt::DatePart { purpose, part: a.len() as u8 })],
        )
    } else {
        let s2 = SessionView {
            answers: Seq::empty(),
            date_text: datetime_text_of(a[0]@, a[1]@, a[2]@, a[3]@, a[4]@),
            ..s
        };
        match purpose {
            DateUse::Start => (
                with_mode(s2, Mode::PeriodParts { position: p, now: false }),
                seq![Action::Ask(Prompt::PeriodPart { part: 0 })],
            ),
            DateUse::Schedule => start_next(s2, p, None),
        }
    }
}

/// An answer giving one part of the period of the item at `p`.
pub open spec fn period_part_next(s: SessionView, p: usize, now: bool, t: String) -> (SessionView, Seq<Action>) {
    let a = s.answers.push(t);
    if a.len() < 4 {
        (
            SessionView { mode: Mode::PeriodParts { position: p, now }, answers: a, ..s },
            seq![Action::Ask(Prompt::PeriodPart { part: a.len() as u8 })],
        )
    } else {
        let s2 = SessionView { answers: Seq::empty(), ..s };
        match (period_part_of(a[0]@), period_part_of(a[1]@), period_part_of(a[2]@), period_part_of(a[3]@)) {
            (Some(d), Some(h), Some(m), Some(sec)) => if !period_fits(d, h, m, sec) {
                stopping(s2, Action::Overflow(Overflow::Add))
            } else if d >= 0 && h >= 0 && m >= 0 && sec >= 0 {
                let period = period_seconds(d as int, h as int, m as int, sec as int) as i64;
                if now {
                    (with_mode(s2, Mode::Timing { position: p, period: Some(period) }), seq![Action::Now])
                } else {
                    start_next(s2, p, Some(period))
                }
            } else {
                (
                    with_mode(s2, Mode::ItemCommand),
                    seq![Action::Say(Message::InvalidPeriod), Action::Ask(Prompt::ItemCommand)],
                )
            },
            _ => (
                with_mode(s2, Mode::ItemCommand),
                seq![Action::Say(Message::PeriodNotNumber), Action::Ask(Prompt::ItemCommand)],
            ),
        }
    }
}

/// The timestamp `ts` at which the recurrence (with `period`) or, for `None`,
/// the schedule of the item at `p` starts.
pub open spec fn timing_next(s: SessionView, p: usize, period: Option<i64>, ts: i64) -> (SessionView, Seq<Action>) {
    match period {
        Some(d) => recurring(s, p, d, Timing::At(ts)),
        None => scheduling(s, p, Timing::At(ts)),
    }
}

/// Whether the writes of the edit `command` were committed. A failed delete or
/// move reads the items again; any other failed edit stops the program.
pub open spec fn writing_next(s: SessionView, command: ItemCommand, written: bool) -> (SessionView, Seq<Action>) {
    if written {
        back_to_items(s)
    } else if command == ItemCommand::Delete || command == ItemCommand::Move {
        (with_mode(s, Mode::Reloading), seq![Action::Reload])
    } else {
        stopping(s, Action::Fail)
    }
}

/// One step of the conversation: the session and the actions after `input`.
/// An input the session does not wait for changes nothing and asks for nothing.
pub open spec fn step_of(s: SessionView, input: Input) -> (SessionView, Seq<Action>) {
    match (s.mode, input) {
        (Mode::ListCommand, Input::Line(t)) => list_command_next(s, t@),
        (Mode::ListName, Input::Line(t)) => asking(s, Mode::UseCompletion { name: t }, Prompt::UseCompletion),
        (Mode::UseCompletion { name }, Input::Line(t)) => (
            with_mode(s, Mode::OpeningList),
            seq![Action::AddList { name, check_boxes: lowercase(t@) != "n"@ }],
        ),
        (Mode::ListId { list_command }, Input::Line(t)) => list_id_next(s, list_command, t@),
        (Mode::OpeningList, Input::Opened(l, v)) => after_list(SessionView { current: Some(l), items: v@, ..s }),
        (Mode::ListTask, Input::Done) => after_list(s),
        (Mode::ItemCommand, Input::Line(t)) => item_command_next(s, t@),
        (Mode::ItemPosition { command }, Input::Line(t)) => item_position_next(s, command, t),
        (Mode::Destination { old }, Input::Line(t)) => destination_next(s, old@, t@),
        (Mode::ItemText { command, position }, Input::Line(t)) => item_text_next(s, command, position, t),
        (Mode::Inserting { position, text, next }, Input::Inserted(id)) => inserted_next(s, position, text, next, id),
        (Mode::Writing { command }, Input::Written) => writing_next(s, command, true),
        (Mode::Writing { command }, Input::WriteFailed) => writing_next(s, command, false),
        (Mode::Reloading, Input::Reloaded(v)) => (
            SessionView { mode: Mode::ItemCommand, items: v@, ..s },
            seq![Action::Ask(Prompt::ItemCommand)],
        ),
        (Mode::RemoveRecurrence { position }, Input::Line(t)) => remove_recurrence_next(s, position, t@),
        (Mode::StartNow { position }, Input::Line(t)) => start_now_next(s, position, t@),
        (Mode::DateParts { purpose, position }, Input::Line(t)) => date_part_next(s, purpose, position, t),
        (Mode::PeriodParts { position, now }, Input::Line(t)) => period_part_next(s, position, now, t),
        (Mode::RemoveSchedule { position }, Input::Line(t)) => remove_schedule_next(s, position, t@),
        (Mode::Timing { position, period }, Input::Time(ts)) => timing_next(s, position, period, ts),
        _ => (s, Seq::empty()),
    }
}

/// The conversation before the first answer: the list prompt, nothing open.
pub open spec fn initial(s: SessionView) -> bool {
    &&& s.mode == Mode::ListCommand
    &&& s.current is None
    &&& s.items.len() == 0
    &&& s.working is None
    &&& s.answers.len() == 0
    &&& s.date_text.len() == 0
    &&& s.writes.len() == 0
    &&& s.lines.len() == 0
}

/// Starts the conversation: nothing is open, and the first question asks for a
/// list command.
pub fn start() -> (r: (Session, Vec<Action>))
    ensures
        initial(r.0@),
        r.1@ == seq![Action::Ask(Prompt::ListCommand)],
{
    let session = Session {
        mode: Mode::ListCommand,
        current: None,
        items: Vec::new(),
        working: None,
        answers: Vec::new(),
        date_text: String::new(),
        writes: Vec::new(),
        lines: Vec::new(),
    };
    let mut actions = Vec::new();
    actions.push(Action::Ask(Prompt::ListCommand));
    (session, actions)
}


fn finish(s: Session, mode: Mode, actions: Vec<Action>) -> (r: (Session, Vec<Action>))
    ensures
        r.0@ == with_mode(s@, mode),
        r.1@ == actions@,
{
    let mut s = s;
    s.mode = mode;
    (s, actions)
}

fn one(a: Action) -> (r: Vec<Action>)
    ensures
        r@ == seq![a],
{
    let mut v = Vec::new();
    v.push(a);
    v
}

fn two(a: Action, b: Action) -> (r: Vec<Action>)
    ensures
        r@ == seq![a, b],
{
    let mut v = Vec::new();
    v.push(a);
    v.push(b);
    v
}

fn exec_asking(s: Session, mode: Mode, prompt: Prompt) -> (r: (Session, Vec<Action>))
    ensures
        r.0@ == asking(s@, mode, prompt).0,
        r.1@ == asking(s@, mode, prompt).1,
{
    finish(s, mode, one(Action::Ask(prompt)))
}

fn exec_back_to_items(s: Session) -> (r: (Session, Vec<Action>))
    ensures
        r.0@ == back_to_items(s@).0,
        r.1@ == back_to_items(s@).1,
{
    exec_asking(s, Mode::ItemCommand, Prompt::ItemCommand)
}

fn exec_after_list(s: Session) -> (r: (Session, Vec<Action>))
    ensures
        r.0@ == after_list(s@).0,
        r.1@ == after_list(s@).1,
{
    let copy = match &s.current {
        Some(l) => Some(l.clone()),
        None => None,
    };
    match copy {
        Some(l) => {
            let mut s = s;
            s.working = Some(l);
            finish(s, Mode::ItemCommand, one(Action::Ask(Prompt::ItemCommand)))
        },
        None => exec_asking(s, Mode::ListCommand, Prompt::ListCommand),
    }
}

fn exec_list_id_of(working: &Option<List>) -> (r: i32)
    ensures
        r == list_id_of(*working),
{
    match working {
        Some(w) => w.id,
        None => 0,
    }
}

fn on_list_command(s: Session, t: String) -> (r: (Session, Vec<Action>))
    ensures
        r.0@ == list_command_next(s@, t@).0,
        r.1@ == list_command_next(s@, t@).1,
{
    let c = list_command(t.as_str());
    match c {
        ListCommand::Add => exec_asking(s, Mode::ListName, Prompt::ListName),
        ListCommand::Print => finish(s, Mode::ListTask, one(Action::PrintLists)),
        ListCommand::Exit => finish(s, Mode::Stopped, two(Action::Say(Message::Exiting), Action::Stop)),
        ListCommand::Unknown => {
            let (s2, rest) = exec_after_list(s);
            let mut actions = one(Action::Say(Message::UnknownCommand));
            let mut rest = rest;
            actions.append(&mut rest);
            (s2, actions)
        },
        _ => exec_asking(s, Mode::ListId { list_command: c }, Prompt::ListId),
    }
}

fn on_list_id(s: Session, command: ListCommand, t: String) -> (r: (Session, Vec<Action>))
    ensures
        r.0@ == list_id_next(s@, command, t@).0,
        r.1@ == list_id_next(s@, command, t@).1,
{
    match parse_i32(t.as_str()) {
        None => exec_after_list(s),
        Some(id) => match command {
            ListCommand::Edit => finish(s, Mode::OpeningList, one(Action::OpenList { id })),
            ListCommand::CheckBoxes => {
                let mut s = s;
                toggle_current_check_boxes(&mut s.current, id);
                finish(s, Mode::ListTask, one(Action::ToggleCheckBoxes { id }))
            },
            ListCommand::Archive => {
                let mut s = s;
                toggle_current_archived(&mut s.current, id);
                finish(s, Mode::ListTask, one(Action::ToggleArchived { id }))
            },
            _ => {
                let mut s = s;
                if is_current(&s.current, id) {
                    s.current = None;
                    s.items = Vec::new();
                }
                finish(s, Mode::ListTask, one(Action::DeleteList { id }))
            },
        },
    }
}

fn on_item_command(s: Session, t: String) -> (r: (Session, Vec<Action>))
    ensures
        r.0@ == item_command_next(s@, t@).0,
        r.1@ == item_command_next(s@, t@).1,
{
    let c = item_command(t.as_str());
    match c {
        ItemCommand::Update => finish(s, Mode::Reloading, one(Action::Reload)),
        ItemCommand::Hide => {
            let mut s = s;
            let mut working: Option<List> = None;
            std::mem::swap(&mut working, &mut s.working);
            match working {
                Some(w) => {
                    let mut w = w;
                    let mut tx = Vec::new();
                    hide_complete(&mut w, &mut tx);
                    assert(tx@ =~= hide_statements(w.id));
                    s.working = Some(w);
                    s.writes = tx;
                    finish(s, Mode::Writing { command: ItemCommand::Hide }, one(Action::Write))
                },
                None => exec_back_to_items(s),
            }
        },
        ItemCommand::Print => {
            let shown: Option<Option<Vec<Line>>> = match &s.working {
                Some(w) => {
                    if can_print(w, &s.items) {
                        let mut out = Vec::new();
                        print_items(w, &s.items, &mut out);
                        assert(out@ =~= item_lines(*w, s.items@));
                        Some(Some(out))
                    } else {
                        Some(None)
                    }
                },
                None => None,
            };
            match shown {
                Some(Some(out)) => {
                    let mut s = s;
                    s.lines = out;
                    finish(s, Mode::ItemCommand, two(Action::Show, Action::Ask(Prompt::ItemCommand)))
                },
                Some(None) => finish(s, Mode::Stopped, one(Action::Overflow(Overflow::Add))),
                None => exec_back_to_items(s),
            }
        },
        ItemCommand::List => finish(
            s,
            Mode::ListCommand,
            two(Action::Say(Message::MovingToListCommands), Action::Ask(Prompt::ListCommand)),
        ),
        ItemCommand::Exit => finish(s, Mode::Stopped, two(Action::Say(Message::Exiting), Action::Stop)),
        ItemCommand::Unknown => finish(
            s,
            Mode::ItemCommand,
            two(Action::Say(Message::UnknownCommand), Action::Ask(Prompt::ItemCommand)),
        ),
        _ => exec_asking(s, Mode::ItemPosition { command: c }, Prompt::ItemPosition),
    }
}

fn exec_writing(s: Session, command: ItemCommand, items: Vec<Item>, writes: Vec<Statement>) -> (r: (
    Session,
    Vec<Action>,
))
    ensures
        r.0@ == writing(s@, command, items@, writes@).0,
        r.1@ == writing(s@, command, items@, writes@).1,
{
    let mut s = s;
    s.items = items;
    s.writes = writes;
    finish(s, Mode::Writing { command }, one(Action::Write))
}

fn on_position(s: Session, command: ItemCommand, p: usize) -> (r: (Session, Vec<Action>))
    ensures
        r.0@ == position_next(s@, command, p).0,
        r.1@ == position_next(s@, command, p).1,
{
    let len = s.items.len();
    let list_id = exec_list_id_of(&s.working);
    let mut s = s;
    match command {
        ItemCommand::Add => if p <= len {
            exec_asking(s, Mode::ItemText { command, position: p }, Prompt::ItemText)
        } else {
            exec_back_to_items(s)
        },
        ItemCommand::Edit => if p < len {
            exec_asking(s, Mode::ItemText { command, position: p }, Prompt::ItemText)
        } else {
            exec_back_to_items(s)
        },
        ItemCommand::Delete => if p < len {
            let mut items = Vec::new();
            std::mem::swap(&mut items, &mut s.items);
            let ghost before = items@;
            let mut tx = Vec::new();
            delete_item(p, list_id, &mut items, &mut tx);
            assert(tx@ =~= delete_statements(before, p as int, list_id));
            exec_writing(s, command, items, tx)
        } else {
            exec_back_to_items(s)
        },
        ItemCommand::Indent => if p < len {
            if can_indent(p, &s.items) {
                let mut items = Vec::new();
                std::mem::swap(&mut items, &mut s.items);
                let ghost before = items@;
                let mut tx = Vec::new();
                indent_item(p, list_id, &mut items, &mut tx);
                assert(tx@ =~= indent_statements(before, p as int, list_id));
                exec_writing(s, command, items, tx)
            } else {
                finish(s, Mode::Stopped, one(Action::Overflow(Overflow::Subtract)))
            }
        } else {
            exec_back_to_items(s)
        },
        ItemCommand::Recur => if p < len {
            exec_asking(s, Mode::RemoveRecurrence { position: p }, Prompt::RemoveRecurrence)
        } else {
            exec_back_to_items(s)
        },
        ItemCommand::Schedule => if p < len {
            exec_asking(s, Mode::RemoveSchedule { position: p }, Prompt::RemoveSchedule)
        } else {
            exec_back_to_items(s)
        },
        ItemCommand::Mark => if p < len {
            let mut items = Vec::new();
            std::mem::swap(&mut items, &mut s.items);
            let ghost before = items@;
            let mut tx = Vec::new();
            mark_item(p, list_id, &mut items, &mut tx);
            assert(tx@ =~= mark_statements(before[p as int].id, list_id));
            exec_writing(s, command, items, tx)
        } else {
            exec_back_to_items(s)
        },
        _ => exec_back_to_items(s),
    }
}

fn on_item_position(s: Session, command: ItemCommand, t: String) -> (r: (Session, Vec<Action>))
    ensures
        r.0@ == item_position_next(s@, command, t).0,
        r.1@ == item_position_next(s@, command, t).1,
{
    if matches!(command, ItemCommand::Move) {
        exec_asking(s, Mode::Destination { old: t }, Prompt::Destination)
    } else {
        match parse_usize(t.as_str()) {
            None => finish(
                s,
                Mode::ItemCommand,
                two(Action::Say(Message::PositionNotNumber), Action::Ask(Prompt::ItemCommand)),
            ),
            Some(p) => on_position(s, command, p),
        }
    }
}

fn on_destination(s: Session, old: String, t: String) -> (r: (Session, Vec<Action>))
    ensures
        r.0@ == destination_next(s@, old@, t@).0,
        r.1@ == destination_next(s@, old@, t@).1,
{
    match (parse_usize(old.as_str()), parse_usize(t.as_str())) {
        (Some(o), Some(n)) => {
            if o < s.items.len() && n < s.items.len() {
                if o == n {
                    exec_back_to_items(s)
                } else if !can_move(o, n, &s.items) {
                    finish(s, Mode::Stopped, one(Action::Overflow(Overflow::Subtract)))
                } else {
                    let list_id = exec_list_id_of(&s.working);
                    let mut s = s;
                    let mut items = Vec::new();
                    std::mem::swap(&mut items, &mut s.items);
                    let ghost before = items@;
                    let mut tx = Vec::new();
                    move_item(o, n, list_id, &mut items, &mut tx);
                    assert(tx@ =~= move_statements(before, o as int, n as int, list_id));
                    exec_writing(s, ItemCommand::Move, items, tx)
                }
            } else {
                exec_back_to_items(s)
            }
        },
        _ => finish(
            s,
            Mode::ItemCommand,
            two(Action::Say(Message::PositionNotNumber), Action::Ask(Prompt::ItemCommand)),
        ),
    }
}

fn on_item_text(s: Session, command: ItemCommand, p: usize, t: String) -> (r: (Session, Vec<Action>))
    ensures
        r.0@ == item_text_next(s@, command, p, t).0,
        r.1@ == item_text_next(s@, command, p, t).1,
{
    let list_id = exec_list_id_of(&s.working);
    if matches!(command, ItemCommand::Add) && p <= s.items.len() {
        let next = next_id_at(p, &s.items);
        let text = t.clone();
        finish(s, Mode::Inserting { position: p, text: t, next }, one(Action::Insert { text, next, list_id }))
    } else if matches!(command, ItemCommand::Edit) && p < s.items.len() {
        let mut s = s;
        let mut items = Vec::new();
        std::mem::swap(&mut items, &mut s.items);
        let ghost before = items@;
        let mut tx = Vec::new();
        edit_item(p, t, list_id, &mut items, &mut tx);
        assert(tx@ =~= edit_statements(before[p as int].id, t, list_id));
        exec_writing(s, command, items, tx)
    } else {
        exec_back_to_items(s)
    }
}

fn on_inserted(s: Session, p: usize, t: String, next: Option<i32>, id: i32) -> (r: (Session, Vec<Action>))
    ensures
        r.0@ == inserted_next(s@, p, t, next, id).0,
        r.1@ == inserted_next(s@, p, t, next, id).1,
{
    if p <= s.items.len() {
        let list_id = exec_list_id_of(&s.working);
        let mut s = s;
        let mut tx = Vec::new();
        add_item(p, t, next, list_id, id, &mut s.items, &mut tx);
        finish(s, Mode::ItemCommand, one(Action::Ask(Prompt::ItemCommand)))
    } else {
        exec_back_to_items(s)
    }
}

fn exec_recurring(s: Session, p: usize, period: i64, start: Timing) -> (r: (Session, Vec<Action>))
    ensures
        r.0@ == recurring(s@, p, period, start).0,
        r.1@ == recurring(s@, p, period, start).1,
{
    if p < s.items.len() {
        let list_id = exec_list_id_of(&s.working);
        let mut s = s;
        let mut items = Vec::new();
        std::mem::swap(&mut items, &mut s.items);
        let ghost before = items@;
        let mut tx = Vec::new();
        recur_item(p, period, start, list_id, &mut items, &mut tx);
        assert(tx@ =~= recur_statements(before[p as int].id, period, start, list_id));
        exec_writing(s, ItemCommand::Recur, items, tx)
    } else {
        exec_back_to_items(s)
    }
}

fn exec_scheduling(s: Session, p: usize, start: Timing) -> (r: (Session, Vec<Action>))
    ensures
        r.0@ == scheduling(s@, p, start).0,
        r.1@ == scheduling(s@, p, start).1,
{
    if p < s.items.len() {
        let list_id = exec_list_id_of(&s.working);
        let mut s = s;
        let mut items = Vec::new();
        std::mem::swap(&mut items, &mut s.items);
        let ghost before = items@;
        let mut tx = Vec::new();
        schedule_item(p, start, list_id, &mut items, &mut tx);
        assert(tx@ =~= schedule_statements(before[p as int].id, start, list_id));
        exec_writing(s, ItemCommand::Schedule, items, tx)
    } else {
        exec_back_to_items(s)
    }
}

fn on_start(s: Session, p: usize, period: Option<i64>) -> (r: (Session, Vec<Action>))
    ensures
        r.0@ == start_next(s@, p, period).0,
        r.1@ == start_next(s@, p, period).1,
{
    match start_time(s.date_text.as_str()) {
        StartTime::Remove => match period {
            Some(d) => exec_recurring(s, p, d, Timing::Remove),
            None => exec_scheduling(s, p, Timing::Remove),
        },
        StartTime::Given => finish(s, Mode::Timing { position: p, period }, one(Action::LocalTime)),
        StartTime::Now => finish(s, Mode::Timing { position: p, period }, one(Action::Now)),
    }
}

fn on_remove_recurrence(s: Session, p: usize, t: String) -> (r: (Session, Vec<Action>))
    ensures
        r.0@ == remove_recurrence_next(s@, p, t@).0,
        r.1@ == remove_recurrence_next(s@, p, t@).1,
{
    if same_text(t.as_str(), "y") {
        exec_recurring(s, p, 0, Timing::Remove)
    } else {
        exec_asking(s, Mode::StartNow { position: p }, Prompt::StartNow)
    }
}

fn on_start_now(s: Session, p: usize, t: String) -> (r: (Session, Vec<Action>))
    ensures
        r.0@ == start_now_next(s@, p, t@).0,
        r.1@ == start_now_next(s@, p, t@).1,
{
    let mut s = s;
    s.answers = Vec::new();
    if same_text(t.as_str(), "n") {
        finish(
            s,
            Mode::DateParts { purpose: DateUse::Start, position: p },
            one(Action::Ask(Prompt::DatePart { purpose: DateUse::Start, part: 0 })),
        )
    } else {
        finish(s, Mode::PeriodParts { position: p, now: true }, one(Action::Ask(Prompt::PeriodPart { part: 0 })))
    }
}

fn on_remove_schedule(s: Session, p: usize, t: String) -> (r: (Session, Vec<Action>))
    ensures
        r.0@ == remove_schedule_next(s@, p, t@).0,
        r.1@ == remove_schedule_next(s@, p, t@).1,
{
    if same_text(t.as_str(), "y") {
        exec_scheduling(s, p, Timing::Remove)
    } else {
        let mut s = s;
        s.answers = Vec::new();
        finish(
            s,
            Mode::DateParts { purpose: DateUse::Schedule, position: p },
            one(Action::Ask(Prompt::DatePart { purpose: DateUse::Schedule, part: 0 })),
        )
    }
}

fn on_date_part(s: Session, purpose: DateUse, p: usize, t: String) -> (r: (Session, Vec<Action>))
    ensures
        r.0@ == date_part_next(s@, purpose, p, t).0,
        r.1@ == date_part_next(s@, purpose, p, t).1,
{
    let mut s = s;
    s.answers.push(t);
    if s.answers.len() >= 5 {
        let text = datetime_text(
            s.answers[0].as_str(),
            s.answers[1].as_str(),
            s.answers[2].as_str(),
            s.answers[3].as_str(),
            s.answers[4].as_str(),
        );
        s.answers = Vec::new();
        s.date_text = text;
        match purpose {
            DateUse::Start => finish(
                s,
                Mode::PeriodParts { position: p, now: false },
                one(Action::Ask(Prompt::PeriodPart { part: 0 })),
            ),
            DateUse::Schedule => on_start(s, p, None),
        }
    } else {
        let part = s.answers.len() as u8;
        finish(s, Mode::DateParts { purpose, position: p }, one(Action::Ask(Prompt::DatePart { purpose, part })))
    }
}

fn on_period_part(s: Session, p: usize, now: bool, t: String) -> (r: (Session, Vec<Action>))
    ensures
        r.0@ == period_part_next(s@, p, now, t).0,
        r.1@ == period_part_next(s@, p, now, t).1,
{
    let mut s = s;
    s.answers.push(t);
    if s.answers.len() >= 4 {
        let days = parse_period_part(s.answers[0].as_str());
        let hours = parse_period_part(s.answers[1].as_str());
        let minutes = parse_period_part(s.answers[2].as_str());
        let seconds = parse_period_part(s.answers[3].as_str());
        s.answers = Vec::new();
        match (days, hours, minutes, seconds) {
            (Some(d), Some(h), Some(m), Some(sec)) => {
                if !period_can_be_counted(d, h, m, sec) {
                    finish(s, Mode::Stopped, one(Action::Overflow(Overflow::Add)))
                } else {
                    match period_from_parts(d, h, m, sec) {
                        Some(period) => if now {
                            finish(s, Mode::Timing { position: p, period: Some(period) }, one(Action::Now))
                        } else {
                            on_start(s, p, Some(period))
                        },
                        None => finish(
                            s,
                            Mode::ItemCommand,
                            two(Action::Say(Message::InvalidPeriod), Action::Ask(Prompt::ItemCommand)),
                        ),
                    }
                }
            },
            _ => finish(
                s,
                Mode::ItemCommand,
                two(Action::Say(Message::PeriodNotNumber), Action::Ask(Prompt::ItemCommand)),
            ),
        }
    } else {
        let part = s.answers.len() as u8;
        finish(s, Mode::PeriodParts { position: p, now }, one(Action::Ask(Prompt::PeriodPart { part })))
    }
}

fn on_writing(s: Session, command: ItemCommand, written: bool) -> (r: (Session, Vec<Action>))
    ensures
        r.0@ == writing_next(s@, command, written).0,
        r.1@ == writing_next(s@, command, written).1,
{
    if written {
        exec_back_to_items(s)
    } else if matches!(command, ItemCommand::Delete) || matches!(command, ItemCommand::Move) {
        finish(s, Mode::Reloading, one(Action::Reload))
    } else {
        finish(s, Mode::Stopped, one(Action::Fail))
    }
}

/// One step of the conversation: hands `input` to the session and returns the
/// session and what the program is to do next.
pub fn step(session: Session, input: Input) -> (r: (Session, Vec<Action>))
    ensures
        r.0@ == step_of(session@, input).0,
        r.1@ == step_of(session@, input).1,
{
    let mut s = session;
    let mut mode = Mode::Stopped;
    std::mem::swap(&mut mode, &mut s.mode);
    match (mode, input) {
        (Mode::ListCommand, Input::Line(t)) => on_list_command(s, t),
        (Mode::ListName, Input::Line(t)) => exec_asking(s, Mode::UseCompletion { name: t }, Prompt::UseCompletion),
        (Mode::UseCompletion { name }, Input::Line(t)) => {
            let check_boxes = uses_check_boxes(t.as_str());
            finish(s, Mode::OpeningList, one(Action::AddList { name, check_boxes }))
        },
        (Mode::ListId { list_command }, Input::Line(t)) => on_list_id(s, list_command, t),
        (Mode::OpeningList, Input::Opened(l, v)) => {
            s.current = Some(l);
            s.items = v;
            exec_after_list(s)
        },
        (Mode::ListTask, Input::Done) => exec_after_list(s),
        (Mode::ItemCommand, Input::Line(t)) => on_item_command(s, t),
        (Mode::ItemPosition { command }, Input::Line(t)) => on_item_position(s, command, t),
        (Mode::Destination { old }, Input::Line(t)) => on_destination(s, old, t),
        (Mode::ItemText { command, position }, Input::Line(t)) => on_item_text(s, command, position, t),
        (Mode::Inserting { position, text, next }, Input::Inserted(id)) => on_inserted(s, position, text, next, id),
        (Mode::Writing { command }, Input::Written) => on_writing(s, command, true),
        (Mode::Writing { command }, Input::WriteFailed) => on_writing(s, command, false),
        (Mode::Reloading, Input::Reloaded(v)) => {
            s.items = v;
            finish(s, Mode::ItemCommand, one(Action::Ask(Prompt::ItemCommand)))
        },
        (Mode::RemoveRecurrence { position }, Input::Line(t)) => on_remove_recurrence(s, position, t),
        (Mode::StartNow { position }, Input::Line(t)) => on_start_now(s, position, t),
        (Mode::DateParts { purpose, position }, Input::Line(t)) => on_date_part(s, purpose, position, t),
        (Mode::PeriodParts { position, now }, Input::Line(t)) => on_period_part(s, position, now, t),
        (Mode::RemoveSchedule { position }, Input::Line(t)) => on_remove_schedule(s, position, t),
        (Mode::Timing { position, period }, Input::Time(ts)) => match period {
            Some(d) => exec_recurring(s, position, d, Timing::At(ts)),
            None => exec_scheduling(s, position, Timing::At(ts)),
        },
        (mode, _) => finish(s, mode, Vec::new()),
    }
}

} // verus!
