//! The commands the user types at the two prompts of the program.

use vstd::prelude::*;

use crate::text::{lowercase, lowercased, same_text};

verus! {

/// A command at the list prompt.
#[derive(Debug, Clone, Copy, PartialEq, Eq)]
pub enum ListCommand {
    Add,
    Edit,
    CheckBoxes,
    Archive,
    Delete,
    Print,
    Exit,
    Unknown,
}

/// A command at the item prompt.
#[derive(Debug, Clone, Copy, PartialEq, Eq)]
pub enum ItemCommand {
    Add,
    Edit,
    Delete,
    Move,
    Indent,
    Recur,
    Schedule,
    Mark,
    Update,
    Hide,
    Print,
    List,
    Exit,
    Unknown,
}

/// The list command a lower-case word names.
pub open spec fn list_command_of(word: Seq<char>) -> ListCommand {
    if word == "add"@ {
        ListCommand::Add
    } else if word == "edit"@ {
        ListCommand::Edit
    } else if word == "check_boxes"@ {
        ListCommand::CheckBoxes
    } else if word == "archive"@ {
        ListCommand::Archive
    } else if word == "delete"@ {
        ListCommand::Delete
    } else if word == "print"@ {
        ListCommand::Print
    } else if word == "exit"@ {
        ListCommand::Exit
    } else {
        ListCommand::Unknown
    }
}

/// Reads a command at the list prompt, in any letter case.
pub fn list_command(input: &str) -> (c: ListCommand)
    ensures
        c == list_command_of(lowercase(input@)),
{
    let word = lowercased(input);
    let w = word.as_str();
    if same_text(w, "add") {
        ListCommand::Add
    } else if same_text(w, "edit") {
        ListCommand::Edit
    } else if same_text(w, "check_boxes") {
        ListCommand::CheckBoxes
    } else if same_text(w, "archive") {
        ListCommand::Archive
    } else if same_text(w, "delete") {
        ListCommand::Delete
    } else if same_text(w, "print") {
        ListCommand::Print
    } else if same_text(w, "exit") {
        ListCommand::Exit
    } else {
        ListCommand::Unknown
    }
}

/// The item command a lower-case word names.
pub open spec fn item_command_of(word: Seq<char>) -> ItemCommand {
    if word == "add"@ {
        ItemCommand::Add
    } else if word == "edit"@ {
        ItemCommand::Edit
    } else if word == "delete"@ {
        ItemCommand::Delete
    } else if word == "move"@ {
        ItemCommand::Move
    } else if word == "indent"@ {
        ItemCommand::Indent
    } else if word == "recur"@ {
        ItemCommand::Recur
    } else if word == "schedule"@ {
        ItemCommand::Schedule
    } else if word == "mark"@ {
        ItemCommand::Mark
    } else if word == "update"@ {
        ItemCommand::Update
    } else if word == "hide"@ {
        ItemCommand::Hide
    } else if word == "print"@ {
        ItemCommand::Print
    } else if word == "list"@ {
        ItemCommand::List
    } else if word == "exit"@ {
        ItemCommand::Exit
    } else {
        ItemCommand::Unknown
    }
}

/// Reads a command at the item prompt, in any letter case.
pub fn item_command(input: &str) -> (c: ItemCommand)
    ensures
        c == item_command_of(lowercase(input@)),
{
    let word = lowercased(input);
    let w = word.as_str();
    if same_text(w, "add") {
        ItemCommand::Add
    } else if same_text(w, "edit") {
        ItemCommand::Edit
    } else if same_text(w, "delete") {
        ItemCommand::Delete
    } else if same_text(w, "move") {
        ItemCommand::Move
    } else if same_text(w, "indent") {
        ItemCommand::Indent
    } else if same_text(w, "recur") {
        ItemCommand::Recur
    } else if same_text(w, "schedule") {
        ItemCommand::Schedule
    } else if same_text(w, "mark") {
        ItemCommand::Mark
    } else if same_text(w, "update") {
        ItemCommand::Update
    } else if same_text(w, "hide") {
        ItemCommand::Hide
    } else if same_text(w, "print") {
        ItemCommand::Print
    } else if same_text(w, "list") {
        ItemCommand::List
    } else if same_text(w, "exit") {
        ItemCommand::Exit
    } else {
        ItemCommand::Unknown
    }
}

/// Whether a new list uses check boxes: yes unless the answer is `n` (in any case).
pub fn uses_check_boxes(answer: &str) -> (r: bool)
    ensures
        r == (lowercase(answer@) != "n"@),
{
    let word = lowercased(answer);
    !same_text(word.as_str(), "n")
}

} // verus!
