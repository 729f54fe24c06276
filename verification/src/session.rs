//! The list the user is working on, kept in step with list-level commands.

use vstd::prelude::*;

use crate::model::List;

verus! {

/// Whether `list_id` names the list the user is working on.
pub fn is_current(current: &Option<List>, list_id: i32) -> (r: bool)
    ensures
        r == (current matches Some(l) && l.id == list_id),
{
    match current {
        Some(l) => l.id == list_id,
        None => false,
    }
}

/// After the database flipped the check boxes of list `list_id`: flips them on
/// the list being worked on when it is that list.
pub fn toggle_current_check_boxes(current: &mut Option<List>, list_id: i32)
    ensures
        *final(current) == match *old(current) {
            Some(l) => if l.id == list_id {
                Some(List { check_boxes: !l.check_boxes, ..l })
            } else {
                Some(l)
            },
            None => None::<List>,
        },
{
    match current {
        Some(l) => {
            if l.id == list_id {
                l.check_boxes = !l.check_boxes;
            }
        },
        None => {},
    }
}

/// After the database flipped whether list `list_id` is archived: flips it on
/// the list being worked on when it is that list.
pub fn toggle_current_archived(current: &mut Option<List>, list_id: i32)
    ensures
        *final(current) == match *old(current) {
            Some(l) => if l.id == list_id {
                Some(List { archived: !l.archived, ..l })
            } else {
                Some(l)
            },
            None => None::<List>,
        },
{
    match current {
        Some(l) => {
            if l.id == list_id {
                l.archived = !l.archived;
            }
        },
        None => {},
    }
}

} // verus!
