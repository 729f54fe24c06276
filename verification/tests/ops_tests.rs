use todo_list::model::{Item, List, Recurrence};
use todo_list::ops::{
    add_item, add_item_statements, can_indent, can_move, delete_item, edit_item, hide_complete, indent_item,
    mark_item, move_item, next_id_at, recur_item, schedule_item, update_parents, Timing,
};
use todo_list::session::{is_current, toggle_current_archived, toggle_current_check_boxes};
use todo_list::statement::Statement;

fn item(id: i32, next: Option<i32>, parent: Option<i32>) -> Item {
    Item {
        id,
        complete: false,
        text: format!("item {}", id),
        parent,
        next,
        recurrence: None,
        schedule_date: None,
    }
}

// a list 1, 2 (under 1), 3 (under 1), 4, 5 (under 4)
fn sample() -> Vec<Item> {
    vec![
        item(1, Some(2), None),
        item(2, Some(3), Some(1)),
        item(3, Some(4), Some(1)),
        item(4, Some(5), None),
        item(5, None, Some(4)),
    ]
}

fn shape(items: &[Item]) -> Vec<(i32, Option<i32>, Option<i32>)> {
    items.iter().map(|it| (it.id, it.next, it.parent)).collect()
}

#[test]
fn add_item_in_the_middle() {
    let mut items = sample();
    let next = next_id_at(2, &items);
    assert_eq!(next, Some(3));
    let first = add_item_statements(&"new".to_string(), next, 8);
    assert_eq!(
        first,
        vec![Statement::TouchList { list_id: 8 }, Statement::InsertItem { text: "new".to_string(), next: Some(3), list_id: 8 }]
    );
    let mut tx = Vec::new();
    add_item(2, "new".to_string(), next, 8, 10, &mut items, &mut tx);
    assert_eq!(tx, vec![Statement::LinkBefore { new_id: 10, next_id: 3 }]);
    assert_eq!(
        shape(&items),
        vec![(1, Some(2), None), (2, Some(10), Some(1)), (10, Some(3), None), (3, Some(4), Some(1)), (4, Some(5), None), (5, None, Some(4))]
    );
    assert_eq!(items[2].text, "new");
    assert!(!items[2].complete);
}

#[test]
fn add_item_at_the_end_and_front() {
    let mut items = sample();
    let mut tx = Vec::new();
    assert_eq!(next_id_at(5, &items), None);
    add_item(5, "last".to_string(), None, 8, 11, &mut items, &mut tx);
    assert_eq!(tx, vec![Statement::LinkAtEnd { new_id: 11, list_id: 8 }]);
    assert_eq!(items[4].next, Some(11));
    assert_eq!(items[5].next, None);
    let mut tx = Vec::new();
    add_item(0, "first".to_string(), Some(1), 8, 12, &mut items, &mut tx);
    assert_eq!(items[0].id, 12);
    assert_eq!(items[0].next, Some(1));
    assert_eq!(items.len(), 7);
}

#[test]
fn edit_item_changes_text() {
    let mut items = sample();
    let mut tx = Vec::new();
    edit_item(3, "changed".to_string(), 2, &mut items, &mut tx);
    assert_eq!(items[3].text, "changed");
    assert_eq!(
        tx,
        vec![
            Statement::TouchList { list_id: 2 },
            Statement::TouchList { list_id: 2 },
            Statement::SetText { id: 4, text: "changed".to_string() },
        ]
    );
}

#[test]
fn delete_item_relinks_and_lifts_children() {
    let mut items = sample();
    let mut tx = Vec::new();
    delete_item(3, 2, &mut items, &mut tx);
    assert_eq!(shape(&items), vec![(1, Some(2), None), (2, Some(3), Some(1)), (3, Some(5), Some(1)), (5, None, None)]);
    assert_eq!(
        tx,
        vec![
            Statement::TouchList { list_id: 2 },
            Statement::Redirect { from: Some(4), to: Some(5) },
            Statement::DeleteItem { id: 4 },
            Statement::SetParent { id: 5, parent: None },
        ]
    );
}

#[test]
fn delete_first_item_makes_next_top_level() {
    let mut items = sample();
    let mut tx = Vec::new();
    delete_item(0, 2, &mut items, &mut tx);
    assert_eq!(shape(&items), vec![(2, Some(3), None), (3, Some(4), None), (4, Some(5), None), (5, None, Some(4))]);
    assert_eq!(tx.len(), 5);
}

#[test]
fn update_parents_stops_at_top_level() {
    let mut items = sample();
    let mut tx = Vec::new();
    let stop = update_parents(&1, Some(4), &mut items, &mut tx);
    assert_eq!(stop, 3);
    assert_eq!(items[1].parent, Some(4));
    assert_eq!(items[2].parent, Some(4));
    assert_eq!(items[4].parent, Some(4));
    assert_eq!(tx, vec![Statement::SetParent { id: 2, parent: Some(4) }, Statement::SetParent { id: 3, parent: Some(4) }]);
    let mut tx = Vec::new();
    assert_eq!(update_parents(&5, None, &mut items, &mut tx), 5);
    assert!(tx.is_empty());
}

#[test]
fn move_top_level_item_down() {
    let mut items = sample();
    let mut tx = Vec::new();
    assert!(can_move(0, 3, &items));
    move_item(0, 3, 2, &mut items, &mut tx);
    assert_eq!(
        shape(&items),
        vec![(2, Some(3), None), (3, Some(4), Some(2)), (4, Some(1), None), (1, Some(5), None), (5, None, Some(1))]
    );
    assert_eq!(
        tx,
        vec![
            Statement::TouchList { list_id: 2 },
            Statement::Redirect { from: Some(1), to: Some(2) },
            Statement::SetNext { id: 4, next: Some(1) },
            Statement::Place { id: 1, parent: None, next: Some(5) },
            Statement::SetParent { id: 2, parent: None },
            Statement::SetParent { id: 3, parent: Some(2) },
            Statement::SetParent { id: 5, parent: Some(1) },
        ]
    );
}

#[test]
fn move_indented_item_up() {
    let mut items = sample();
    let mut tx = Vec::new();
    move_item(4, 1, 2, &mut items, &mut tx);
    assert_eq!(
        shape(&items),
        vec![(1, Some(5), None), (5, Some(2), Some(1)), (2, Some(3), Some(1)), (3, Some(4), Some(1)), (4, None, None)]
    );
    assert_eq!(
        tx,
        vec![
            Statement::TouchList { list_id: 2 },
            Statement::Redirect { from: Some(5), to: None },
            Statement::Redirect { from: Some(2), to: Some(5) },
            Statement::Place { id: 5, parent: Some(1), next: Some(2) },
        ]
    );
}

#[test]
fn move_to_same_place_does_nothing() {
    let mut items = sample();
    let mut tx = Vec::new();
    move_item(2, 2, 2, &mut items, &mut tx);
    assert_eq!(items, sample());
    assert!(tx.is_empty());
}

#[test]
fn move_refused_without_top_level_item() {
    let items = vec![item(1, Some(2), Some(7)), item(2, Some(3), Some(7)), item(3, None, Some(7))];
    assert!(!can_move(0, 2, &items));
    assert!(can_move(2, 0, &items));
}

#[test]
fn indent_and_unindent() {
    let mut items = sample();
    let mut tx = Vec::new();
    assert!(can_indent(3, &items));
    indent_item(3, 2, &mut items, &mut tx);
    assert_eq!(items[3].parent, Some(1));
    assert_eq!(tx, vec![Statement::TouchList { list_id: 2 }, Statement::SetParent { id: 4, parent: Some(1) }]);
    let mut tx = Vec::new();
    indent_item(1, 2, &mut items, &mut tx);
    assert_eq!(items[1].parent, None);
    assert_eq!(tx, vec![Statement::TouchList { list_id: 2 }, Statement::SetParent { id: 2, parent: None }]);
    let mut tx = Vec::new();
    indent_item(0, 2, &mut items, &mut tx);
    assert_eq!(items[0].parent, None);
    assert_eq!(tx, vec![Statement::TouchList { list_id: 2 }]);
}

#[test]
fn indent_refused_without_top_level_item() {
    let items = vec![item(1, Some(2), Some(7)), item(2, None, None)];
    assert!(!can_indent(1, &items));
    assert!(can_indent(0, &items));
}

#[test]
fn mark_flips_completion() {
    let mut items = sample();
    let mut tx = Vec::new();
    mark_item(4, 3, &mut items, &mut tx);
    assert!(items[4].complete);
    assert_eq!(tx, vec![Statement::TouchList { list_id: 3 }, Statement::ToggleComplete { id: 5 }]);
}

#[test]
fn recur_sets_and_removes() {
    let mut items = sample();
    let mut tx = Vec::new();
    recur_item(1, 3600, Timing::At(1_700_000_000), 3, &mut items, &mut tx);
    assert_eq!(items[1].recurrence, Some(Recurrence { period: 3600, time_last: 1_700_000_000 }));
    assert_eq!(
        tx,
        vec![Statement::TouchList { list_id: 3 }, Statement::UpsertRecurrence { id: 2, period: 3600, time_last: 1_700_000_000 }]
    );
    let mut tx = Vec::new();
    recur_item(1, 0, Timing::Remove, 3, &mut items, &mut tx);
    assert_eq!(items[1].recurrence, None);
    assert_eq!(tx, vec![Statement::TouchList { list_id: 3 }, Statement::DeleteRecurrence { id: 2 }]);
}

#[test]
fn schedule_sets_and_removes_date() {
    let mut items = sample();
    items[2].recurrence = Some(Recurrence { period: 10, time_last: 20 });
    let mut tx = Vec::new();
    schedule_item(2, Timing::At(42), 3, &mut items, &mut tx);
    assert_eq!(items[2].schedule_date, Some(42));
    assert_eq!(tx, vec![Statement::TouchList { list_id: 3 }, Statement::UpsertSchedule { id: 3, activation_date: 42 }]);
    let mut tx = Vec::new();
    schedule_item(2, Timing::Remove, 3, &mut items, &mut tx);
    assert_eq!(items[2].schedule_date, None);
    assert_eq!(items[2].recurrence, Some(Recurrence { period: 10, time_last: 20 }));
    assert_eq!(tx, vec![Statement::TouchList { list_id: 3 }, Statement::DeleteSchedule { id: 3 }]);
}

#[test]
fn hide_flips_list_flag() {
    let mut list = List {
        id: 6,
        name: "chores".to_string(),
        check_boxes: true,
        archived: false,
        hide_complete: false,
        time_created: 0,
        time_edited: 0,
        item_count: 0,
    };
    let mut tx = Vec::new();
    hide_complete(&mut list, &mut tx);
    assert!(list.hide_complete);
    assert_eq!(tx, vec![Statement::TouchList { list_id: 6 }, Statement::ToggleHideComplete { list_id: 6 }]);
    let mut tx = Vec::new();
    hide_complete(&mut list, &mut tx);
    assert!(!list.hide_complete);
}

#[test]
fn current_list_follows_list_commands() {
    let list = List {
        id: 6,
        name: "chores".to_string(),
        check_boxes: true,
        archived: false,
        hide_complete: false,
        time_created: 0,
        time_edited: 0,
        item_count: 0,
    };
    let mut current = Some(list.clone());
    assert!(is_current(&current, 6));
    assert!(!is_current(&current, 7));
    assert!(!is_current(&None, 6));
    toggle_current_check_boxes(&mut current, 7);
    assert_eq!(current, Some(list.clone()));
    toggle_current_check_boxes(&mut current, 6);
    assert!(!current.as_ref().unwrap().check_boxes);
    toggle_current_archived(&mut current, 6);
    assert!(current.as_ref().unwrap().archived);
    let mut none: Option<List> = None;
    toggle_current_archived(&mut none, 6);
    assert_eq!(none, None);
}

#[test]
fn delete_only_item_empties_list() {
    let mut items = vec![item(1, None, None)];
    let mut tx = Vec::new();
    delete_item(0, 4, &mut items, &mut tx);
    assert!(items.is_empty());
    assert_eq!(
        tx,
        vec![Statement::TouchList { list_id: 4 }, Statement::Redirect { from: Some(1), to: None }, Statement::DeleteItem { id: 1 }]
    );
}

#[test]
fn move_last_of_two_to_front() {
    let mut items = vec![item(1, Some(2), None), item(2, None, None)];
    let mut tx = Vec::new();
    move_item(1, 0, 4, &mut items, &mut tx);
    assert_eq!(shape(&items), vec![(2, Some(1), None), (1, None, None)]);
    assert_eq!(
        tx,
        vec![
            Statement::TouchList { list_id: 4 },
            Statement::Redirect { from: Some(2), to: None },
            Statement::Redirect { from: Some(1), to: Some(2) },
            Statement::Place { id: 2, parent: None, next: Some(1) },
        ]
    );
}

#[test]
fn move_down_to_the_end_links_old_last_item() {
    // the item that was last now links to the moved item, which becomes the
    // only item linking to nothing
    let mut items = vec![item(1, Some(2), None), item(2, Some(3), None), item(3, None, None)];
    let mut tx = Vec::new();
    move_item(0, 2, 4, &mut items, &mut tx);
    assert_eq!(shape(&items), vec![(2, Some(3), None), (3, Some(1), None), (1, None, None)]);
    assert_eq!(
        tx,
        vec![
            Statement::TouchList { list_id: 4 },
            Statement::Redirect { from: Some(1), to: Some(2) },
            Statement::SetNext { id: 3, next: Some(1) },
            Statement::Place { id: 1, parent: None, next: None },
            Statement::SetParent { id: 2, parent: None },
        ]
    );
}

#[test]
fn delete_indented_item_keeps_siblings_indented() {
    let mut items = sample();
    let mut tx = Vec::new();
    delete_item(1, 2, &mut items, &mut tx);
    assert_eq!(shape(&items), vec![(1, Some(3), None), (3, Some(4), Some(1)), (4, Some(5), None), (5, None, Some(4))]);
    assert_eq!(
        tx,
        vec![
            Statement::TouchList { list_id: 2 },
            Statement::Redirect { from: Some(2), to: Some(3) },
            Statement::DeleteItem { id: 2 },
        ]
    );
}

// a list 1, 2 (under 1), 3, 4 (under 3), 5, 6 (under 5)
fn two_runs() -> Vec<Item> {
    vec![
        item(1, Some(2), None),
        item(2, Some(3), Some(1)),
        item(3, Some(4), None),
        item(4, Some(5), Some(3)),
        item(5, Some(6), None),
        item(6, None, Some(5)),
    ]
}

#[test]
fn move_top_level_item_up_mends_both_places() {
    let mut items = two_runs();
    let mut tx = Vec::new();
    assert!(can_move(4, 1, &items));
    move_item(4, 1, 2, &mut items, &mut tx);
    assert_eq!(
        shape(&items),
        vec![(1, Some(5), None), (5, Some(2), None), (2, Some(3), Some(5)), (3, Some(4), None), (4, Some(6), Some(3)), (6, None, Some(3))]
    );
    assert_eq!(
        tx,
        vec![
            Statement::TouchList { list_id: 2 },
            Statement::Redirect { from: Some(5), to: Some(6) },
            Statement::Redirect { from: Some(2), to: Some(5) },
            Statement::Place { id: 5, parent: None, next: Some(2) },
            Statement::SetParent { id: 2, parent: Some(5) },
            Statement::SetParent { id: 6, parent: Some(3) },
        ]
    );
}

#[test]
fn move_up_after_top_level_item_gives_children_that_item() {
    let mut items = vec![item(1, Some(2), None), item(2, Some(3), None), item(3, Some(4), None), item(4, None, Some(3))];
    let mut tx = Vec::new();
    move_item(2, 0, 2, &mut items, &mut tx);
    assert_eq!(shape(&items), vec![(3, Some(1), None), (1, Some(2), None), (2, Some(4), None), (4, None, Some(2))]);
    assert_eq!(tx.last(), Some(&Statement::SetParent { id: 4, parent: Some(2) }));
}

#[test]
fn move_first_item_down_takes_children_of_item_before_it() {
    // 1, 2, 3 (under 2), 4 (under 2): moving 1 after 3 leaves 4 after 1
    let mut items = vec![item(1, Some(2), None), item(2, Some(3), None), item(3, Some(4), Some(2)), item(4, None, Some(2))];
    let mut tx = Vec::new();
    move_item(0, 2, 2, &mut items, &mut tx);
    assert_eq!(shape(&items), vec![(2, Some(3), None), (3, Some(1), Some(2)), (1, Some(4), None), (4, None, Some(1))]);
    assert_eq!(tx.last(), Some(&Statement::SetParent { id: 4, parent: Some(1) }));
}
