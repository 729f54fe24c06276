use todo_list::command::{item_command, list_command, uses_check_boxes, ItemCommand, ListCommand};
use todo_list::text::{lowercased, parse_i32, parse_i64, parse_usize};

#[test]
fn usize_parsing_matches_std() {
    for s in ["0", "7", "+7", "0012", "18446744073709551615", "18446744073709551616", "", "+", "-1", "-0", " 1", "1 ", "1a", "٣"] {
        assert_eq!(parse_usize(s), s.parse::<usize>().ok(), "input {:?}", s);
    }
}

#[test]
fn i32_parsing_matches_std() {
    for s in ["0", "-0", "+0", "42", "-42", "2147483647", "2147483648", "-2147483648", "-2147483649", "", "-", "+", "--1", "1-", "x"] {
        assert_eq!(parse_i32(s), s.parse::<i32>().ok(), "input {:?}", s);
    }
}

#[test]
fn i64_parsing_matches_std() {
    for s in ["9223372036854775807", "9223372036854775808", "-9223372036854775808", "-9223372036854775809", "-17", "+17", "3600", "0x10", ""] {
        assert_eq!(parse_i64(s), s.parse::<i64>().ok(), "input {:?}", s);
    }
}

#[test]
fn lowercase_follows_std() {
    assert_eq!(lowercased("PrInT"), "print");
    assert_eq!(lowercased("ÄÖ"), "äö");
}

#[test]
fn list_commands_read_in_any_case() {
    assert_eq!(list_command("add"), ListCommand::Add);
    assert_eq!(list_command("EDIT"), ListCommand::Edit);
    assert_eq!(list_command("Check_Boxes"), ListCommand::CheckBoxes);
    assert_eq!(list_command("archive"), ListCommand::Archive);
    assert_eq!(list_command("delete"), ListCommand::Delete);
    assert_eq!(list_command("print"), ListCommand::Print);
    assert_eq!(list_command("Exit"), ListCommand::Exit);
    assert_eq!(list_command("mark"), ListCommand::Unknown);
    assert_eq!(list_command(""), ListCommand::Unknown);
}

#[test]
fn item_commands_read_in_any_case() {
    let words = [
        ("add", ItemCommand::Add),
        ("edit", ItemCommand::Edit),
        ("delete", ItemCommand::Delete),
        ("MOVE", ItemCommand::Move),
        ("indent", ItemCommand::Indent),
        ("recur", ItemCommand::Recur),
        ("schedule", ItemCommand::Schedule),
        ("mark", ItemCommand::Mark),
        ("update", ItemCommand::Update),
        ("hide", ItemCommand::Hide),
        ("print", ItemCommand::Print),
        ("List", ItemCommand::List),
        ("exit", ItemCommand::Exit),
        ("archive", ItemCommand::Unknown),
    ];
    for (word, command) in words {
        assert_eq!(item_command(word), command);
    }
}

#[test]
fn check_boxes_unless_no() {
    assert!(!uses_check_boxes("n"));
    assert!(!uses_check_boxes("N"));
    assert!(uses_check_boxes(""));
    assert!(uses_check_boxes("y"));
    assert!(uses_check_boxes("no"));
}
