use todo_list::model::{get_parent, has_root_before, recurrence_from_columns, Item, Recurrence};
use todo_list::order::{get_sorted_items, sorting_ends};

fn item(id: i32, next: Option<i32>, parent: Option<i32>) -> Item {
    Item {
        id,
        complete: false,
        text: format!("item {}", id),
        parent,
        next,
        recurrence: None,
        schedule_date: None,
    }
}

fn ids(items: &[Item]) -> Vec<i32> {
    items.iter().map(|it| it.id).collect()
}

#[test]
fn sorted_items_follow_the_links() {
    // order 4 -> 2 -> 7 -> 1, stored shuffled
    let stored = vec![item(7, Some(1), None), item(1, None, None), item(4, Some(2), None), item(2, Some(7), Some(4))];
    assert!(sorting_ends(&stored));
    let sorted = get_sorted_items(stored);
    assert_eq!(ids(&sorted), vec![4, 2, 7, 1]);
    assert_eq!(sorted[1].parent, Some(4));
}

#[test]
fn sorted_items_of_empty_and_single_lists() {
    assert!(get_sorted_items(vec![]).is_empty());
    let one = vec![item(3, None, None)];
    assert!(sorting_ends(&one));
    assert_eq!(ids(&get_sorted_items(one)), vec![3]);
}

#[test]
fn sorted_items_already_in_order_stay() {
    let stored = vec![item(1, Some(2), None), item(2, Some(3), None), item(3, None, None)];
    assert_eq!(ids(&get_sorted_items(stored)), vec![1, 2, 3]);
}

#[test]
fn sorting_with_two_ends_still_ends() {
    // after an item is moved to the end, two stored items may link to nothing
    let stored = vec![item(1, None, None), item(2, Some(3), None), item(3, None, None)];
    assert!(sorting_ends(&stored));
    assert_eq!(ids(&get_sorted_items(stored)), vec![2, 3, 1]);
    let stored = vec![item(3, None, None), item(1, None, None), item(2, Some(1), None)];
    assert_eq!(ids(&get_sorted_items(stored)), vec![2, 1, 3]);
    let stored = vec![item(1, None, None), item(2, None, None)];
    assert_eq!(ids(&get_sorted_items(stored)), vec![2, 1]);
}

#[test]
fn sorting_never_ends_on_cycles() {
    assert!(!sorting_ends(&vec![item(1, Some(2), None), item(2, Some(1), None)]));
    assert!(!sorting_ends(&vec![item(1, None, None), item(2, Some(3), None), item(3, Some(2), None)]));
    assert!(!sorting_ends(&vec![item(1, Some(9), None)]));
    assert!(sorting_ends(&vec![]));
}

#[test]
fn parent_is_closest_top_level_item_before() {
    let items = vec![item(1, Some(2), None), item(2, Some(3), Some(1)), item(3, Some(4), None), item(4, Some(5), Some(3)), item(5, None, Some(3))];
    assert_eq!(get_parent(1, &items), 0);
    assert_eq!(get_parent(3, &items), 2);
    assert_eq!(get_parent(5, &items), 2);
    assert!(has_root_before(1, &items));
    assert!(!has_root_before(0, &items));
    let indented_first = vec![item(1, Some(2), Some(9)), item(2, None, Some(9))];
    assert!(!has_root_before(2, &indented_first));
}

#[test]
fn recurrence_needs_both_columns() {
    assert_eq!(recurrence_from_columns(Some(60), Some(100)), Some(Recurrence { period: 60, time_last: 100 }));
    assert_eq!(recurrence_from_columns(Some(60), None), None);
    assert_eq!(recurrence_from_columns(None, Some(100)), None);
}
