use todo_list::display::{
    can_print, print_basic, print_completed_items, print_handle_completed, print_handle_uncompleted, print_item,
    print_items, ItemLine, Line,
};
use todo_list::model::{IndexedItem, Item, List, Recurrence};
use todo_list::time::{MAX_TIMESTAMP, MIN_TIMESTAMP};

fn item(id: i32, complete: bool, parent: Option<i32>) -> Item {
    Item {
        id,
        complete,
        text: format!("item {}", id),
        parent,
        next: None,
        recurrence: None,
        schedule_date: None,
    }
}

fn list(check_boxes: bool, hide_complete: bool) -> List {
    List {
        id: 1,
        name: "list".to_string(),
        check_boxes,
        archived: false,
        hide_complete,
        time_created: 0,
        time_edited: 0,
        item_count: 0,
    }
}

fn line(index: usize, it: &Item) -> Line {
    Line::Item(ItemLine {
        index,
        indented: it.parent.is_some(),
        text: it.text.clone(),
        recurring: None,
        scheduled: None,
    })
}

#[test]
fn item_line_carries_times() {
    let mut it = item(3, false, Some(1));
    it.recurrence = Some(Recurrence { period: 60, time_last: 1000 });
    it.schedule_date = Some(5000);
    let mut out = Vec::new();
    print_item(&it, 4, &mut out);
    assert_eq!(
        out,
        vec![Line::Item(ItemLine { index: 4, indented: true, text: "item 3".to_string(), recurring: Some(1060), scheduled: Some(5000) })]
    );
}

#[test]
fn item_line_drops_unshowable_times() {
    let mut it = item(3, false, None);
    it.recurrence = Some(Recurrence { period: 1, time_last: MAX_TIMESTAMP });
    it.schedule_date = Some(MIN_TIMESTAMP - 1);
    let mut out = Vec::new();
    print_item(&it, 0, &mut out);
    assert_eq!(out, vec![Line::Item(ItemLine { index: 0, indented: false, text: "item 3".to_string(), recurring: None, scheduled: None })]);
    let mut it = item(4, false, None);
    it.recurrence = Some(Recurrence { period: 0, time_last: MAX_TIMESTAMP });
    it.schedule_date = Some(MIN_TIMESTAMP);
    let mut out = Vec::new();
    print_item(&it, 0, &mut out);
    assert_eq!(
        out,
        vec![Line::Item(ItemLine {
            index: 0,
            indented: false,
            text: "item 4".to_string(),
            recurring: Some(MAX_TIMESTAMP),
            scheduled: Some(MIN_TIMESTAMP),
        })]
    );
}

#[test]
fn basic_shows_all_items() {
    let items = vec![item(1, true, None), item(2, false, Some(1))];
    let mut out = Vec::new();
    print_basic(&items, &mut out);
    assert_eq!(out, vec![line(0, &items[0]), line(1, &items[1])]);
    let mut out = Vec::new();
    print_basic(&vec![], &mut out);
    assert_eq!(out, vec![Line::NoItems]);
}

#[test]
fn print_items_without_check_boxes_is_basic() {
    let items = vec![item(1, true, None)];
    let mut out = Vec::new();
    print_items(&list(false, false), &items, &mut out);
    assert_eq!(out, vec![line(0, &items[0])]);
}

#[test]
fn completion_splits_open_and_completed() {
    // 0: open root, 1: completed child, 2: open child, 3: completed root, 4: open child of completed root
    let items = vec![item(1, false, None), item(2, true, Some(1)), item(3, false, Some(1)), item(4, true, None), item(5, false, Some(4))];
    let mut out = Vec::new();
    print_items(&list(true, false), &items, &mut out);
    assert_eq!(
        out,
        vec![
            Line::UncompletedHeader,
            line(0, &items[0]),
            line(2, &items[2]),
            Line::CompletedHeader,
            Line::ParentStub("item 1".to_string()),
            line(1, &items[1]),
            line(3, &items[3]),
            line(4, &items[4]),
        ]
    );
}

#[test]
fn completion_hidden_and_empty_sections() {
    let items = vec![item(1, true, None), item(2, false, Some(1))];
    let mut out = Vec::new();
    print_items(&list(true, true), &items, &mut out);
    assert_eq!(out, vec![Line::UncompletedHeader, Line::Nothing, Line::CompletedHeader, Line::Hidden]);
    let items = vec![item(1, false, None)];
    let mut out = Vec::new();
    print_items(&list(true, false), &items, &mut out);
    assert_eq!(out, vec![Line::UncompletedHeader, line(0, &items[0]), Line::CompletedHeader, Line::Nothing]);
}

#[test]
fn handle_uncompleted_sets_aside_child_of_completed_parent() {
    let parent = IndexedItem { index: 0, item: item(1, true, None) };
    let child = item(2, false, Some(1));
    let mut empty = true;
    let mut completed = Vec::new();
    let mut out = Vec::new();
    print_handle_uncompleted(&child, 1, &mut empty, &true, &Some(parent.clone()), &mut completed, &mut out);
    assert!(empty);
    assert!(out.is_empty());
    assert_eq!(completed, vec![parent.clone(), IndexedItem { index: 1, item: child.clone() }]);
    let mut completed = Vec::new();
    print_handle_uncompleted(&child, 1, &mut empty, &false, &Some(parent), &mut completed, &mut out);
    assert_eq!(completed, vec![IndexedItem { index: 1, item: child }]);
}

#[test]
fn handle_uncompleted_shows_open_items() {
    let parent = IndexedItem { index: 0, item: item(1, false, None) };
    let child = item(2, false, Some(1));
    let mut empty = true;
    let mut completed = Vec::new();
    let mut out = Vec::new();
    print_handle_uncompleted(&child, 1, &mut empty, &true, &Some(parent), &mut completed, &mut out);
    assert!(!empty);
    assert!(completed.is_empty());
    assert_eq!(out, vec![line(1, &child)]);
}

#[test]
fn handle_completed_adds_parent_once() {
    let parent = IndexedItem { index: 0, item: item(1, false, None) };
    let child = item(2, true, Some(1));
    let mut add_parent = true;
    let mut completed = Vec::new();
    print_handle_completed(&child, 1, &mut add_parent, &Some(parent.clone()), &mut completed);
    assert!(!add_parent);
    assert_eq!(completed, vec![parent.clone(), IndexedItem { index: 1, item: child.clone() }]);
    print_handle_completed(&child, 2, &mut add_parent, &Some(parent), &mut completed);
    assert_eq!(completed.len(), 3);
    let root = item(3, true, None);
    let mut add_parent = true;
    let mut completed = Vec::new();
    print_handle_completed(&root, 3, &mut add_parent, &Some(IndexedItem { index: 3, item: root.clone() }), &mut completed);
    assert!(!add_parent);
    assert_eq!(completed, vec![IndexedItem { index: 3, item: root }]);
}

#[test]
fn completed_section_lines() {
    let entries = vec![IndexedItem { index: 0, item: item(1, false, None) }];
    let mut out = Vec::new();
    print_completed_items(entries, &mut out);
    assert_eq!(out, vec![Line::CompletedHeader, Line::ParentStub("item 1".to_string()), Line::Nothing]);
}

#[test]
fn printing_refused_on_overflowing_recurrence() {
    let mut it = item(1, false, None);
    it.recurrence = Some(Recurrence { period: 1, time_last: i64::MAX });
    let items = vec![it];
    assert!(!can_print(&list(false, false), &items));
    assert!(!can_print(&list(true, true), &items));
    let mut done = items.clone();
    done[0].complete = true;
    assert!(can_print(&list(true, true), &done));
    assert!(!can_print(&list(true, false), &done));
}
