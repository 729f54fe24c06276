//! Core logic of a terminal to-do list manager whose lists and items live in a
//! SQLite database. Items of a list are kept in order through `next` links and
//! may be indented under the closest preceding top-level item.

pub mod model;
pub mod order;
pub mod statement;
pub mod ops;
pub mod laws;
pub mod storage;
pub mod text;
pub mod command;
pub mod time;
pub mod refresh;
pub mod display;
pub mod overview;
pub mod session;
pub mod dialog;
pub mod dialog_laws;
