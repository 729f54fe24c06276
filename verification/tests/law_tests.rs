use todo_list::model::Item;
use todo_list::ops::{add_item, delete_item, indent_item, mark_item, move_item, next_id_at};
use todo_list::order::{get_sorted_items, sorting_ends};

fn item(id: i32, next: Option<i32>, parent: Option<i32>) -> Item {
    Item {
        id,
        complete: false,
        text: format!("item {}", id),
        parent,
        next,
        recurrence: None,
        schedule_date: None,
    }
}

fn sample() -> Vec<Item> {
    vec![
        item(1, Some(2), None),
        item(2, Some(3), Some(1)),
        item(3, Some(4), Some(1)),
        item(4, Some(5), None),
        item(5, None, Some(4)),
    ]
}

fn is_linked(items: &[Item]) -> bool {
    (0..items.len()).all(|k| if k + 1 < items.len() { items[k].next == Some(items[k + 1].id) } else { items[k].next.is_none() })
}

#[test]
fn reload_gives_back_kept_order() {
    let mut kept = sample();
    let mut tx = Vec::new();
    move_item(4, 0, 1, &mut kept, &mut tx);
    let mut stored = kept.clone();
    stored.reverse();
    stored.swap(0, 2);
    assert!(sorting_ends(&stored));
    assert_eq!(get_sorted_items(stored), kept);
}

#[test]
fn edits_keep_list_linked() {
    let mut items = sample();
    let mut tx = Vec::new();
    let next = next_id_at(3, &items);
    add_item(3, "x".to_string(), next, 1, 9, &mut items, &mut tx);
    assert!(is_linked(&items));
    move_item(0, 4, 1, &mut items, &mut tx);
    assert!(is_linked(&items));
    assert!(items[0].parent.is_none());
    delete_item(2, 1, &mut items, &mut tx);
    assert!(is_linked(&items));
    move_item(3, 1, 1, &mut items, &mut tx);
    assert!(is_linked(&items));
    assert!(items[0].parent.is_none());
}

#[test]
fn add_then_delete_restores() {
    let before = sample();
    let mut items = before.clone();
    let mut tx = Vec::new();
    let next = next_id_at(3, &items);
    add_item(3, "x".to_string(), next, 1, 9, &mut items, &mut tx);
    delete_item(3, 1, &mut items, &mut tx);
    assert_eq!(items, before);
}

#[test]
fn add_then_delete_lifts_following_child() {
    let before = sample();
    let mut items = before.clone();
    let mut tx = Vec::new();
    let next = next_id_at(1, &items);
    add_item(1, "x".to_string(), next, 1, 9, &mut items, &mut tx);
    delete_item(1, 1, &mut items, &mut tx);
    assert_eq!(items[1].parent, None);
    assert_ne!(items, before);
}

#[test]
fn indent_twice_restores() {
    let before = sample();
    let mut items = before.clone();
    let mut tx = Vec::new();
    indent_item(3, 1, &mut items, &mut tx);
    indent_item(3, 1, &mut items, &mut tx);
    assert_eq!(items, before);
}

#[test]
fn mark_twice_restores() {
    let before = sample();
    let mut items = before.clone();
    let mut tx = Vec::new();
    mark_item(2, 1, &mut items, &mut tx);
    mark_item(2, 1, &mut items, &mut tx);
    assert_eq!(items, before);
}

#[test]
fn move_moves_only_that_id() {
    let mut items = sample();
    let mut tx = Vec::new();
    move_item(1, 3, 1, &mut items, &mut tx);
    let ids: Vec<i32> = items.iter().map(|it| it.id).collect();
    assert_eq!(ids, vec![1, 3, 4, 2, 5]);
}

// every indented item's parent is the closest top-level item before it
fn parents_match(items: &[Item]) -> bool {
    (0..items.len()).all(|k| match items[k].parent {
        None => true,
        Some(p) => match (0..k).rev().find(|&j| items[j].parent.is_none()) {
            Some(j) => items[j].id == p,
            None => false,
        },
    })
}

// a list 1, 2 (under 1), 3, 4 (under 3), 5 (under 3), 6, 7 (under 6)
fn runs() -> Vec<Item> {
    vec![
        item(1, Some(2), None),
        item(2, Some(3), Some(1)),
        item(3, Some(4), None),
        item(4, Some(5), Some(3)),
        item(5, Some(6), Some(3)),
        item(6, Some(7), None),
        item(7, None, Some(6)),
    ]
}

#[test]
fn moves_keep_parents_matching() {
    assert!(parents_match(&runs()));
    for from in 0..7 {
        for to in 0..7 {
            let mut items = runs();
            let mut tx = Vec::new();
            move_item(from, to, 1, &mut items, &mut tx);
            assert!(parents_match(&items), "move {} to {}", from, to);
            assert!(is_linked(&items));
        }
    }
}

#[test]
fn deletes_keep_parents_matching() {
    for position in 0..7 {
        let mut items = runs();
        let mut tx = Vec::new();
        delete_item(position, 1, &mut items, &mut tx);
        assert!(parents_match(&items), "delete {}", position);
    }
}

#[test]
fn add_inside_a_run_leaves_parents_unmatched() {
    let mut items = runs();
    let mut tx = Vec::new();
    let next = next_id_at(4, &items);
    add_item(4, "x".to_string(), next, 1, 9, &mut items, &mut tx);
    assert!(!parents_match(&items));
}

#[test]
fn add_before_top_level_item_keeps_parents_matching() {
    for position in [0, 2, 5, 7] {
        let mut items = runs();
        let mut tx = Vec::new();
        let next = next_id_at(position, &items);
        add_item(position, "x".to_string(), next, 1, 9, &mut items, &mut tx);
        assert!(parents_match(&items), "add at {}", position);
    }
}

#[test]
fn indent_before_top_level_item_keeps_parents_matching() {
    // the items at 1, 4 and 6 are followed by a top-level item or by nothing
    for position in [1, 4, 6] {
        let mut items = runs();
        let mut tx = Vec::new();
        indent_item(position, 1, &mut items, &mut tx);
        assert!(parents_match(&items), "indent {}", position);
    }
    // unindenting 4 leaves 5 under 3 with 4 between them
    let mut items = runs();
    let mut tx = Vec::new();
    indent_item(3, 1, &mut items, &mut tx);
    assert!(!parents_match(&items));
}
