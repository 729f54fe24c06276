use todo_list::dialog::{start, step, Action, DateUse, Input, Message, Overflow, Prompt, Session};
use todo_list::display::{ItemLine, Line};
use todo_list::model::{Item, List, Recurrence};
use todo_list::statement::Statement;

fn list(id: i32, check_boxes: bool) -> List {
    List {
        id,
        name: "chores".to_string(),
        check_boxes,
        archived: false,
        hide_complete: false,
        time_created: 0,
        time_edited: 0,
        item_count: 0,
    }
}

fn item(id: i32, next: Option<i32>, parent: Option<i32>) -> Item {
    Item { id, complete: false, text: format!("item {}", id), parent, next, recurrence: None, schedule_date: None }
}

fn line(session: Session, text: &str) -> (Session, Vec<Action>) {
    step(session, Input::Line(text.to_string()))
}

// a session with list 3 open, holding items 1, 2 (under 1), 3
fn opened() -> Session {
    let (s, _) = start();
    let (s, a) = line(s, "edit");
    assert_eq!(a, vec![Action::Ask(Prompt::ListId)]);
    let (s, a) = line(s, "3");
    assert_eq!(a, vec![Action::OpenList { id: 3 }]);
    let items = vec![item(1, Some(2), None), item(2, Some(3), Some(1)), item(3, None, None)];
    let (s, a) = step(s, Input::Opened(list(3, false), items));
    assert_eq!(a, vec![Action::Ask(Prompt::ItemCommand)]);
    s
}

#[test]
fn add_a_list_and_an_item_then_print() {
    let (s, a) = start();
    assert_eq!(a, vec![Action::Ask(Prompt::ListCommand)]);
    let (s, a) = line(s, "ADD");
    assert_eq!(a, vec![Action::Ask(Prompt::ListName)]);
    let (s, a) = line(s, "groceries");
    assert_eq!(a, vec![Action::Ask(Prompt::UseCompletion)]);
    let (s, a) = line(s, "n");
    assert_eq!(a, vec![Action::AddList { name: "groceries".to_string(), check_boxes: false }]);
    let (s, a) = step(s, Input::Opened(list(5, false), vec![]));
    assert_eq!(a, vec![Action::Ask(Prompt::ItemCommand)]);
    let (s, a) = line(s, "add");
    assert_eq!(a, vec![Action::Ask(Prompt::ItemPosition)]);
    let (s, a) = line(s, "0");
    assert_eq!(a, vec![Action::Ask(Prompt::ItemText)]);
    let (s, a) = line(s, "milk");
    assert_eq!(a, vec![Action::Insert { text: "milk".to_string(), next: None, list_id: 5 }]);
    let (s, a) = step(s, Input::Inserted(7));
    assert_eq!(a, vec![Action::Ask(Prompt::ItemCommand)]);
    assert_eq!(s.items.len(), 1);
    assert_eq!(s.items[0].id, 7);
    let (s, a) = line(s, "print");
    assert_eq!(a, vec![Action::Show, Action::Ask(Prompt::ItemCommand)]);
    assert_eq!(
        s.lines,
        vec![Line::Item(ItemLine { index: 0, indented: false, text: "milk".to_string(), recurring: None, scheduled: None })]
    );
    let (_, a) = line(s, "exit");
    assert_eq!(a, vec![Action::Say(Message::Exiting), Action::Stop]);
}

#[test]
fn unknown_commands_and_leaving_the_items() {
    let (s, _) = start();
    let (s, a) = line(s, "what");
    assert_eq!(a, vec![Action::Say(Message::UnknownCommand), Action::Ask(Prompt::ListCommand)]);
    let (s, a) = line(s, "edit");
    assert_eq!(a, vec![Action::Ask(Prompt::ListId)]);
    let (s, a) = line(s, "x");
    assert_eq!(a, vec![Action::Ask(Prompt::ListCommand)]);
    let (_, a) = line(s, "exit");
    assert_eq!(a, vec![Action::Say(Message::Exiting), Action::Stop]);
    let s = opened();
    let (s, a) = line(s, "what");
    assert_eq!(a, vec![Action::Say(Message::UnknownCommand), Action::Ask(Prompt::ItemCommand)]);
    let (s, a) = line(s, "list");
    assert_eq!(a, vec![Action::Say(Message::MovingToListCommands), Action::Ask(Prompt::ListCommand)]);
    let (_, a) = line(s, "print");
    assert_eq!(a, vec![Action::PrintLists]);
}

#[test]
fn positions_are_checked() {
    let s = opened();
    let (s, _) = line(s, "delete");
    let (s, a) = line(s, "x");
    assert_eq!(a, vec![Action::Say(Message::PositionNotNumber), Action::Ask(Prompt::ItemCommand)]);
    let (s, _) = line(s, "delete");
    let (s, a) = line(s, "9");
    assert_eq!(a, vec![Action::Ask(Prompt::ItemCommand)]);
    assert_eq!(s.items.len(), 3);
}

#[test]
fn failed_delete_reloads_and_failed_mark_stops() {
    let s = opened();
    let (s, _) = line(s, "delete");
    let (s, a) = line(s, "2");
    assert_eq!(a, vec![Action::Write]);
    assert_eq!(s.writes[2], Statement::DeleteItem { id: 3 });
    let (s, a) = step(s, Input::WriteFailed);
    assert_eq!(a, vec![Action::Reload]);
    let (s, a) = step(s, Input::Reloaded(vec![item(1, None, None)]));
    assert_eq!(a, vec![Action::Ask(Prompt::ItemCommand)]);
    assert_eq!(s.items.len(), 1);
    let (s, _) = line(s, "mark");
    let (s, a) = line(s, "0");
    assert_eq!(a, vec![Action::Write]);
    assert!(s.items[0].complete);
    let (_, a) = step(s, Input::WriteFailed);
    assert_eq!(a, vec![Action::Fail]);
}

#[test]
fn removing_a_schedule_removes_the_date() {
    let mut s = opened();
    s.items[1].schedule_date = Some(99);
    s.items[1].recurrence = Some(Recurrence { period: 10, time_last: 20 });
    let (s, _) = line(s, "schedule");
    let (s, a) = line(s, "1");
    assert_eq!(a, vec![Action::Ask(Prompt::RemoveSchedule)]);
    let (s, a) = line(s, "y");
    assert_eq!(a, vec![Action::Write]);
    assert_eq!(s.writes, vec![Statement::TouchList { list_id: 3 }, Statement::DeleteSchedule { id: 2 }]);
    assert_eq!(s.items[1].schedule_date, None);
    assert_eq!(s.items[1].recurrence, Some(Recurrence { period: 10, time_last: 20 }));
    let (_, a) = step(s, Input::Written);
    assert_eq!(a, vec![Action::Ask(Prompt::ItemCommand)]);
}

#[test]
fn recurrence_from_a_date_with_a_period() {
    let s = opened();
    let (s, _) = line(s, "recur");
    let (s, _) = line(s, "0");
    let (s, a) = line(s, "N");
    assert_eq!(a, vec![Action::Ask(Prompt::StartNow)]);
    let (s, a) = line(s, "n");
    assert_eq!(a, vec![Action::Ask(Prompt::DatePart { purpose: DateUse::Start, part: 0 })]);
    let mut s = s;
    for (k, answer) in ["2024", "5", "1", "9"].iter().enumerate() {
        let (s2, a) = line(s, answer);
        assert_eq!(a, vec![Action::Ask(Prompt::DatePart { purpose: DateUse::Start, part: (k + 1) as u8 })]);
        s = s2;
    }
    let (s, a) = line(s, "30");
    assert_eq!(a, vec![Action::Ask(Prompt::PeriodPart { part: 0 })]);
    assert_eq!(s.date_text, "2024-05-01T09:30:00");
    let (s, _) = line(s, "1");
    let (s, _) = line(s, "");
    let (s, _) = line(s, "");
    let (s, a) = line(s, "");
    assert_eq!(a, vec![Action::LocalTime]);
    let (s, a) = step(s, Input::Time(1000));
    assert_eq!(a, vec![Action::Write]);
    assert_eq!(s.items[0].recurrence, Some(Recurrence { period: 86400, time_last: 1000 }));
    assert_eq!(s.writes[1], Statement::UpsertRecurrence { id: 1, period: 86400, time_last: 1000 });
}

#[test]
fn recurrence_now_and_removal() {
    let s = opened();
    let (s, _) = line(s, "recur");
    let (s, _) = line(s, "2");
    let (s, _) = line(s, "n");
    let (s, a) = line(s, "y");
    assert_eq!(a, vec![Action::Ask(Prompt::PeriodPart { part: 0 })]);
    let (s, _) = line(s, "0");
    let (s, _) = line(s, "0");
    let (s, _) = line(s, "5");
    let (s, a) = line(s, "0");
    assert_eq!(a, vec![Action::Now]);
    let (s, _) = step(s, Input::Time(50));
    assert_eq!(s.items[2].recurrence, Some(Recurrence { period: 300, time_last: 50 }));
    let (s, _) = step(s, Input::Written);
    let (s, _) = line(s, "recur");
    let (s, _) = line(s, "2");
    let (s, a) = line(s, "y");
    assert_eq!(a, vec![Action::Write]);
    assert_eq!(s.writes, vec![Statement::TouchList { list_id: 3 }, Statement::DeleteRecurrence { id: 3 }]);
    assert_eq!(s.items[2].recurrence, None);
}

#[test]
fn bad_periods_are_refused() {
    let s = opened();
    let (s, _) = line(s, "recur");
    let (s, _) = line(s, "0");
    let (s, _) = line(s, "n");
    let (s, _) = line(s, "y");
    let (s, _) = line(s, "-1");
    let (s, _) = line(s, "0");
    let (s, _) = line(s, "0");
    let (s, a) = line(s, "0");
    assert_eq!(a, vec![Action::Say(Message::InvalidPeriod), Action::Ask(Prompt::ItemCommand)]);
    let (s, _) = line(s, "recur");
    let (s, _) = line(s, "0");
    let (s, _) = line(s, "n");
    let (s, _) = line(s, "y");
    let (s, _) = line(s, "x");
    let (s, _) = line(s, "0");
    let (s, _) = line(s, "0");
    let (s, a) = line(s, "0");
    assert_eq!(a, vec![Action::Say(Message::PeriodNotNumber), Action::Ask(Prompt::ItemCommand)]);
    let (s, _) = line(s, "recur");
    let (s, _) = line(s, "0");
    let (s, _) = line(s, "n");
    let (s, _) = line(s, "y");
    let (s, _) = line(s, "106751991167301");
    let (s, _) = line(s, "0");
    let (s, _) = line(s, "0");
    let (_, a) = line(s, "0");
    assert_eq!(a, vec![Action::Overflow(Overflow::Add)]);
}

#[test]
fn moves_and_list_toggles() {
    let s = opened();
    let (s, _) = line(s, "move");
    let (s, a) = line(s, "1");
    assert_eq!(a, vec![Action::Ask(Prompt::Destination)]);
    let (s, a) = line(s, "1");
    assert_eq!(a, vec![Action::Ask(Prompt::ItemCommand)]);
    let (s, _) = line(s, "move");
    let (s, _) = line(s, "2");
    let (s, a) = line(s, "0");
    assert_eq!(a, vec![Action::Write]);
    let ids: Vec<i32> = s.items.iter().map(|it| it.id).collect();
    assert_eq!(ids, vec![3, 1, 2]);
    let (s, _) = step(s, Input::Written);
    let (s, _) = line(s, "list");
    let (s, _) = line(s, "check_boxes");
    let (s, a) = line(s, "3");
    assert_eq!(a, vec![Action::ToggleCheckBoxes { id: 3 }]);
    assert!(s.current.as_ref().unwrap().check_boxes);
    let (s, a) = step(s, Input::Done);
    assert_eq!(a, vec![Action::Ask(Prompt::ItemCommand)]);
    let (s, _) = line(s, "list");
    let (s, _) = line(s, "delete");
    let (s, a) = line(s, "3");
    assert_eq!(a, vec![Action::DeleteList { id: 3 }]);
    assert!(s.current.is_none());
    let (_, a) = step(s, Input::Done);
    assert_eq!(a, vec![Action::Ask(Prompt::ListCommand)]);
}

#[test]
fn hide_works_on_the_copy_of_the_list() {
    let s = opened();
    let (s, a) = line(s, "hide");
    assert_eq!(a, vec![Action::Write]);
    assert_eq!(s.writes, vec![Statement::TouchList { list_id: 3 }, Statement::ToggleHideComplete { list_id: 3 }]);
    assert!(s.working.as_ref().unwrap().hide_complete);
    assert!(!s.current.as_ref().unwrap().hide_complete);
    let (s, _) = step(s, Input::Written);
    let (_, a) = line(s, "update");
    assert_eq!(a, vec![Action::Reload]);
}

#[test]
fn an_answer_not_waited_for_changes_nothing() {
    let (s, _) = start();
    let (s, a) = step(s, Input::Done);
    assert!(a.is_empty());
    let (_, a) = line(s, "exit");
    assert_eq!(a, vec![Action::Say(Message::Exiting), Action::Stop]);
}

#[test]
fn move_without_top_level_item_stops_unless_in_place() {
    let (s, _) = start();
    let (s, _) = line(s, "edit");
    let (s, _) = line(s, "4");
    let items = vec![item(1, Some(2), Some(9)), item(2, None, Some(9))];
    let (s, _) = step(s, Input::Opened(list(4, false), items));
    let (s, _) = line(s, "move");
    let (s, _) = line(s, "1");
    let (s, a) = line(s, "1");
    assert_eq!(a, vec![Action::Ask(Prompt::ItemCommand)]);
    let (s, _) = line(s, "move");
    let (s, _) = line(s, "0");
    let (_, a) = line(s, "1");
    assert_eq!(a, vec![Action::Overflow(Overflow::Subtract)]);
}
