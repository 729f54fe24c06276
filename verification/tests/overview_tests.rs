use todo_list::model::List;
use todo_list::overview::{list_lines, ListLine, ListSummary};
use todo_list::time::{MAX_TIMESTAMP, MIN_TIMESTAMP};

fn list(id: i32, created: i64, edited: i64) -> List {
    List {
        id,
        name: format!("list {}", id),
        check_boxes: true,
        archived: false,
        hide_complete: false,
        time_created: created,
        time_edited: edited,
        item_count: 4,
    }
}

#[test]
fn no_lists_in_file() {
    assert_eq!(list_lines(&vec![]), vec![ListLine::NoLists]);
}

#[test]
fn one_line_per_readable_list() {
    let rows = vec![Some(list(1, 10, 20)), None, Some(list(2, MIN_TIMESTAMP - 1, MAX_TIMESTAMP))];
    assert_eq!(
        list_lines(&rows),
        vec![
            ListLine::List(ListSummary {
                id: 1,
                name: "list 1".to_string(),
                check_boxes: true,
                archived: false,
                created: Some(10),
                edited: Some(20),
                item_count: 4,
            }),
            ListLine::List(ListSummary {
                id: 2,
                name: "list 2".to_string(),
                check_boxes: true,
                archived: false,
                created: None,
                edited: Some(MAX_TIMESTAMP),
                item_count: 4,
            }),
        ]
    );
    assert!(list_lines(&vec![None]).is_empty());
}
