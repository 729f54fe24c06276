//! The edits a user makes to the items of a list. Each edit changes the list
//! kept in memory and appends to `tx` the database writes that make the same
//! change on disk (what those writes do to the stored rows, and that they match
//! the change in memory, is in `storage`).

use vstd::prelude::*;

use crate::model::{Item, List, Recurrence, get_parent, nearest_root, root_before};
use crate::statement::Statement;

verus! {

/// The item with another `next` link.
pub open spec fn with_next(it: Item, next: Option<i32>) -> Item {
    Item { next, ..it }
}

/// The item with another parent.
pub open spec fn with_parent(it: Item, parent: Option<i32>) -> Item {
    Item { parent, ..it }
}

/// The end of the run of indented items that starts at `p`: the first position
/// from `p` on that holds a top-level item, or the length of the list.
pub open spec fn run_end(s: Seq<Item>, p: int) -> int
    decreases s.len() - p,
{
    if p >= s.len() || s[p].parent is None {
        p
    } else {
        run_end(s, p + 1)
    }
}

/// The items at positions `a..b` get `parent` as their parent.
pub open spec fn reparented(s: Seq<Item>, a: int, b: int, parent: Option<i32>) -> Seq<Item> {
    Seq::new(s.len(), |k: int| if a <= k < b { with_parent(s[k], parent) } else { s[k] })
}

/// The writes that give the items at positions `a..b` the parent `parent`.
pub open spec fn parent_statements(s: Seq<Item>, a: int, b: int, parent: Option<i32>) -> Seq<Statement> {
    Seq::new((b - a) as nat, |k: int| Statement::SetParent { id: s[a + k].id, parent })
}

pub(crate) proof fn lemma_run_end_bounds(s: Seq<Item>, p: int)
    requires
        0 <= p,
    ensures
        p <= run_end(s, p),
        run_end(s, p) <= s.len() || run_end(s, p) == p,
        forall|k: int| p <= k < run_end(s, p) ==> (#[trigger] s[k]).parent is Some,
        run_end(s, p) < s.len() ==> s[run_end(s, p)].parent is None,
    decreases s.len() - p,
{
    if p < s.len() && s[p].parent is Some {
        lemma_run_end_bounds(s, p + 1);
    }
}

/// Gives the run of indented items that starts at `position` the parent
/// `new_parent`, and returns where the run ends (`position` itself when it is
/// past the end of the list).
pub fn update_parents(position: &usize, new_parent: Option<i32>, item_list: &mut Vec<Item>, tx: &mut Vec<Statement>) -> (stop: usize)
    ensures
        stop == run_end(old(item_list)@, *position as int),
        final(item_list)@ == reparented(old(item_list)@, *position as int, stop as int, new_parent),
        final(tx)@ == old(tx)@ + parent_statements(old(item_list)@, *position as int, stop as int, new_parent),
{
    let position = *position;
    let ghost s = item_list@;
    let ghost t = tx@;
    proof {
        lemma_run_end_bounds(s, position as int);
    }
    let mut pos_change = position;
    while pos_change < item_list.len() && item_list[pos_change].parent.is_some()
        invariant
            position <= pos_change <= run_end(s, position as int),
            run_end(s, position as int) <= s.len() || pos_change == position,
            item_list@.len() == s.len(),
            run_end(s, pos_change as int) == run_end(s, position as int),
            item_list@ == reparented(s, position as int, pos_change as int, new_parent),
            tx@ == t + parent_statements(s, position as int, pos_change as int, new_parent),
        decreases s.len() - pos_change,
    {
        assert(item_list@[pos_change as int] == s[pos_change as int]);
        assert(run_end(s, pos_change as int) == run_end(s, pos_change + 1));
        proof {
            lemma_run_end_bounds(s, pos_change + 1);
        }
        let id = item_list[pos_change].id;
        tx.push(Statement::SetParent { id, parent: new_parent });
        item_list[pos_change].parent = new_parent;
        pos_change += 1;
        assert(item_list@ =~= reparented(s, position as int, pos_change as int, new_parent));
        assert(tx@ =~= t + parent_statements(s, position as int, pos_change as int, new_parent));
    }
    pos_change
}

/// A new item: not complete, without parent, recurrence or schedule.
pub open spec fn new_item(id: i32, text: String, next: Option<i32>) -> Item {
    Item { id, complete: false, text, parent: None, next, recurrence: None, schedule_date: None }
}

/// The list with `it` inserted at `position`, the item before it now linking to it.
pub open spec fn added(s: Seq<Item>, position: int, it: Item) -> Seq<Item> {
    let t = s.insert(position, it);
    if position > 0 {
        t.update(position - 1, with_next(t[position - 1], Some(it.id)))
    } else {
        t
    }
}

/// The write that makes the item before a new one link to it.
pub open spec fn link_statement(new_id: i32, next_id: Option<i32>, list_id: i32) -> Statement {
    match next_id {
        None => Statement::LinkAtEnd { new_id, list_id },
        Some(n) => Statement::LinkBefore { new_id, next_id: n },
    }
}

/// The write that makes the item before a new one link to it.
pub fn link_write(new_id: i32, next_id: Option<i32>, list_id: i32) -> (r: Statement)
    ensures
        r == link_statement(new_id, next_id, list_id),
{
    match next_id {
        None => Statement::LinkAtEnd { new_id, list_id },
        Some(n) => Statement::LinkBefore { new_id, next_id: n },
    }
}

/// The writes that start adding an item: mark the list edited, insert the item.
pub open spec fn add_statements(text: String, next_id: Option<i32>, list_id: i32) -> Seq<Statement> {
    seq![Statement::TouchList { list_id }, Statement::InsertItem { text, next: next_id, list_id }]
}

/// The writes that start adding an item: mark the list edited, insert the item.
/// The database then gives the new item its id.
pub fn add_item_statements(text: &String, next_id: Option<i32>, list_id: i32) -> (r: Vec<Statement>)
    ensures
        r@ == add_statements(*text, next_id, list_id),
{
    let mut r = Vec::new();
    r.push(Statement::TouchList { list_id });
    r.push(Statement::InsertItem { text: text.clone(), next: next_id, list_id });
    r
}

/// Finishes adding the item with id `inserted_id` at `position`: the item that
/// linked to `next_id` now links to the new item.
pub fn add_item(
    position: usize,
    text: String,
    next_id: Option<i32>,
    list_id: i32,
    inserted_id: i32,
    item_list: &mut Vec<Item>,
    tx: &mut Vec<Statement>,
)
    requires
        position <= old(item_list)@.len(),
    ensures
        final(item_list)@ == added(old(item_list)@, position as int, new_item(inserted_id, text, next_id)),
        final(tx)@ == old(tx)@.push(link_statement(inserted_id, next_id, list_id)),
{
    tx.push(link_write(inserted_id, next_id, list_id));
    item_list.insert(
        position,
        Item {
            id: inserted_id,
            complete: false,
            text: text,
            parent: None,
            next: next_id,
            recurrence: None,
            schedule_date: None,
        },
    );
    if position > 0 {
        item_list[position - 1].next = Some(inserted_id);
    }
}

/// The list with the text of the item at `position` replaced.
pub open spec fn edited(s: Seq<Item>, position: int, text: String) -> Seq<Item> {
    s.update(position, Item { text, ..s[position] })
}

/// The writes that replace the text of the item with id `id`.
pub open spec fn edit_statements(id: i32, text: String, list_id: i32) -> Seq<Statement> {
    seq![Statement::TouchList { list_id }, Statement::TouchList { list_id }, Statement::SetText { id, text }]
}

/// Replaces the text of the item at `position`.
pub fn edit_item(position: usize, new_text: String, list_id: i32, item_list: &mut Vec<Item>, tx: &mut Vec<Statement>)
    requires
        position < old(item_list)@.len(),
    ensures
        final(item_list)@ == edited(old(item_list)@, position as int, new_text),
        final(tx)@ == old(tx)@ + edit_statements(old(item_list)@[position as int].id, new_text, list_id),
{
    tx.push(Statement::TouchList { list_id });
    tx.push(Statement::TouchList { list_id });
    tx.push(Statement::SetText { id: item_list[position].id, text: new_text.clone() });
    item_list[position].text = new_text;
}

/// The list after the item at `position` is unlinked and removed, before its
/// children are lifted to the top level.
pub open spec fn unlinked(s: Seq<Item>, position: int) -> Seq<Item> {
    let s1 = if position > 0 {
        s.update(position - 1, with_next(s[position - 1], s[position].next))
    } else {
        s
    };
    s1.remove(position)
}

/// The list after the item at `position` is deleted. A deleted top-level item
/// leaves its children (the indented items that directly follow it) at the top
/// level; an indented item has no children, and the items around it stay as
/// they are.
pub open spec fn deleted(s: Seq<Item>, position: int) -> Seq<Item> {
    let u = unlinked(s, position);
    if s[position].parent is None {
        reparented(u, position, run_end(u, position), None)
    } else {
        u
    }
}

/// The writes that delete the item at `position`.
pub open spec fn delete_statements(s: Seq<Item>, position: int, list_id: i32) -> Seq<Statement> {
    let u = unlinked(s, position);
    let base = seq![
        Statement::TouchList { list_id },
        Statement::Redirect { from: Some(s[position].id), to: s[position].next },
        Statement::DeleteItem { id: s[position].id },
    ];
    if s[position].parent is None {
        base + parent_statements(u, position, run_end(u, position), None)
    } else {
        base
    }
}

/// Deletes the item at `position`: the item before it now links to the item
/// after it, and, when the deleted item was not indented, its children lose
/// their parent.
pub fn delete_item(position: usize, list_id: i32, item_list: &mut Vec<Item>, tx: &mut Vec<Statement>)
    requires
        position < old(item_list)@.len(),
    ensures
        final(item_list)@ == deleted(old(item_list)@, position as int),
        final(tx)@ == old(tx)@ + delete_statements(old(item_list)@, position as int, list_id),
{
    let ghost s = item_list@;
    let ghost t = tx@;
    let was_indented = item_list[position].parent.is_some();
    tx.push(Statement::TouchList { list_id });
    tx.push(Statement::Redirect { from: Some(item_list[position].id), to: item_list[position].next });
    tx.push(Statement::DeleteItem { id: item_list[position].id });
    if position > 0 {
        item_list[position - 1].next = item_list[position].next;
    }
    item_list.remove(position);
    assert(item_list@ =~= unlinked(s, position as int));
    let ghost t2 = tx@;
    // correct the children left at `position` when the deleted item was not indented
    if !was_indented {
        let _stop = update_parents(&position, None, item_list, tx);
        assert(tx@ =~= t2 + parent_statements(unlinked(s, position as int), position as int, run_end(unlinked(s, position as int), position as int), None));
    }
    assert(tx@ =~= t + delete_statements(s, position as int, list_id));
}

/// The list with the completion of the item at `position` flipped.
pub open spec fn marked(s: Seq<Item>, position: int) -> Seq<Item> {
    s.update(position, Item { complete: !s[position].complete, ..s[position] })
}

/// The writes that flip whether the item with id `id` is complete.
pub open spec fn mark_statements(id: i32, list_id: i32) -> Seq<Statement> {
    seq![Statement::TouchList { list_id }, Statement::ToggleComplete { id }]
}

/// Flips whether the item at `position` is complete.
pub fn mark_item(position: usize, list_id: i32, item_list: &mut Vec<Item>, tx: &mut Vec<Statement>)
    requires
        position < old(item_list)@.len(),
    ensures
        final(item_list)@ == marked(old(item_list)@, position as int),
        final(tx)@ == old(tx)@ + mark_statements(old(item_list)@[position as int].id, list_id),
{
    tx.push(Statement::TouchList { list_id });
    tx.push(Statement::ToggleComplete { id: item_list[position].id });
    item_list[position].complete = !item_list[position].complete;
}

/// The writes that flip whether the list with id `list_id` hides its completed items.
pub open spec fn hide_statements(list_id: i32) -> Seq<Statement> {
    seq![Statement::TouchList { list_id }, Statement::ToggleHideComplete { list_id }]
}

/// Flips whether the list hides its completed items.
pub fn hide_complete(list_info: &mut List, tx: &mut Vec<Statement>)
    ensures
        *final(list_info) == (List { hide_complete: !old(list_info).hide_complete, ..*old(list_info) }),
        final(tx)@ == old(tx)@ + hide_statements(old(list_info).id),
{
    tx.push(Statement::TouchList { list_id: list_info.id });
    tx.push(Statement::ToggleHideComplete { list_id: list_info.id });
    list_info.hide_complete = !list_info.hide_complete;
}

/// When a recurrence or schedule starts, or that it is to be removed.
#[derive(Debug, Clone, Copy, PartialEq, Eq)]
pub enum Timing {
    /// Remove the recurrence.
    Remove,
    /// Start at this UNIX timestamp.
    At(i64),
}

/// The list after the recurrence of the item at `position` is set or removed.
pub open spec fn recurred(s: Seq<Item>, position: int, period: i64, start: Timing) -> Seq<Item> {
    match start {
        Timing::Remove => s.update(position, Item { recurrence: None, ..s[position] }),
        Timing::At(t) => s.update(position, Item { recurrence: Some(Recurrence { period, time_last: t }), ..s[position] }),
    }
}

/// The writes that set or remove the recurrence of an item.
pub open spec fn recur_statements(id: i32, period: i64, start: Timing, list_id: i32) -> Seq<Statement> {
    match start {
        Timing::Remove => seq![Statement::TouchList { list_id }, Statement::DeleteRecurrence { id }],
        Timing::At(t) => seq![Statement::TouchList { list_id }, Statement::UpsertRecurrence { id, period, time_last: t }],
    }
}

/// Sets or removes the recurrence of the item at `position`.
pub fn recur_item(position: usize, period: i64, start: Timing, list_id: i32, item_list: &mut Vec<Item>, tx: &mut Vec<Statement>)
    requires
        position < old(item_list)@.len(),
    ensures
        final(item_list)@ == recurred(old(item_list)@, position as int, period, start),
        final(tx)@ == old(tx)@ + recur_statements(old(item_list)@[position as int].id, period, start, list_id),
{
    let ghost t0 = tx@;
    tx.push(Statement::TouchList { list_id });
    match start {
        Timing::Remove => {
            tx.push(Statement::DeleteRecurrence { id: item_list[position].id });
            item_list[position].recurrence = None;
        },
        Timing::At(t) => {
            tx.push(Statement::UpsertRecurrence { id: item_list[position].id, period, time_last: t });
            item_list[position].recurrence = Some(Recurrence { period, time_last: t });
        },
    }
    assert(tx@ =~= t0 + recur_statements(old(item_list)@[position as int].id, period, start, list_id));
}

/// The list after the activation date of the item at `position` is set or
/// removed.
pub open spec fn scheduled(s: Seq<Item>, position: int, start: Timing) -> Seq<Item> {
    match start {
        Timing::Remove => s.update(position, Item { schedule_date: None, ..s[position] }),
        Timing::At(t) => s.update(position, Item { schedule_date: Some(t), ..s[position] }),
    }
}

/// The writes that set or remove an item's activation date.
pub open spec fn schedule_statements(id: i32, start: Timing, list_id: i32) -> Seq<Statement> {
    match start {
        Timing::Remove => seq![Statement::TouchList { list_id }, Statement::DeleteSchedule { id }],
        Timing::At(t) => seq![Statement::TouchList { list_id }, Statement::UpsertSchedule { id, activation_date: t }],
    }
}

/// Sets or removes the activation date of the item at `position`.
pub fn schedule_item(position: usize, start: Timing, list_id: i32, item_list: &mut Vec<Item>, tx: &mut Vec<Statement>)
    requires
        position < old(item_list)@.len(),
    ensures
        final(item_list)@ == scheduled(old(item_list)@, position as int, start),
        final(tx)@ == old(tx)@ + schedule_statements(old(item_list)@[position as int].id, start, list_id),
{
    let ghost t0 = tx@;
    tx.push(Statement::TouchList { list_id });
    match start {
        Timing::Remove => {
            tx.push(Statement::DeleteSchedule { id: item_list[position].id });
            item_list[position].schedule_date = None;
        },
        Timing::At(t) => {
            tx.push(Statement::UpsertSchedule { id: item_list[position].id, activation_date: t });
            item_list[position].schedule_date = Some(t);
        },
    }
    assert(tx@ =~= t0 + schedule_statements(old(item_list)@[position as int].id, start, list_id));
}

/// The list after the item at `position` is indented or unindented.
pub open spec fn indented(s: Seq<Item>, position: int) -> Seq<Item> {
    if s[position].parent is Some {
        s.update(position, with_parent(s[position], None))
    } else if position > 0 {
        s.update(position, with_parent(s[position], Some(s[nearest_root(s, position)].id)))
    } else {
        s
    }
}

/// The writes that indent or unindent the item at `position`.
pub open spec fn indent_statements(s: Seq<Item>, position: int, list_id: i32) -> Seq<Statement> {
    if s[position].parent is Some {
        seq![Statement::TouchList { list_id }, Statement::SetParent { id: s[position].id, parent: None }]
    } else if position > 0 {
        seq![
            Statement::TouchList { list_id },
            Statement::SetParent { id: s[position].id, parent: Some(s[nearest_root(s, position)].id) },
        ]
    } else {
        seq![Statement::TouchList { list_id }]
    }
}

/// Indents the item at `position` under the closest top-level item before it,
/// or, when it is already indented, moves it back to the top level. The first
/// item of a top-level run at position 0 stays as it is.
pub fn indent_item(position: usize, list_id: i32, item_list: &mut Vec<Item>, tx: &mut Vec<Statement>)
    requires
        position < old(item_list)@.len(),
        old(item_list)@[position as int].parent is None && position > 0 ==> root_before(old(item_list)@, position as int),
    ensures
        final(item_list)@ == indented(old(item_list)@, position as int),
        final(tx)@ == old(tx)@ + indent_statements(old(item_list)@, position as int, list_id),
{
    tx.push(Statement::TouchList { list_id });
    if item_list[position].parent.is_some() {
        tx.push(Statement::SetParent { id: item_list[position].id, parent: None });
        item_list[position].parent = None;
    } else if position > 0 {
        let pos_parent = get_parent(position, item_list);
        let parent_id = item_list[pos_parent].id;
        tx.push(Statement::SetParent { id: item_list[position].id, parent: Some(parent_id) });
        item_list[position].parent = Some(parent_id);
    }
}

/// The `next` link the moved item takes: that of the item it is placed after
/// when moved down, the id of the item it is placed before when moved up.
pub open spec fn move_next(s: Seq<Item>, old_pos: int, new_pos: int) -> Option<i32> {
    if old_pos < new_pos {
        s[new_pos].next
    } else {
        Some(s[new_pos].id)
    }
}

/// The parent the moved item takes: an indented item moved anywhere but to the
/// front goes under the closest top-level item before its new place.
pub open spec fn move_parent(s: Seq<Item>, old_pos: int, new_pos: int) -> Option<i32> {
    if s[old_pos].parent is Some && new_pos > 0 {
        Some(s[nearest_root(s, if old_pos < new_pos { new_pos + 1 } else { new_pos })].id)
    } else {
        None
    }
}

/// The moved item with its new parent and link.
pub open spec fn moved_item(s: Seq<Item>, old_pos: int, new_pos: int) -> Item {
    Item { parent: move_parent(s, old_pos, new_pos), next: move_next(s, old_pos, new_pos), ..s[old_pos] }
}

/// The list after the item at `old_pos` is taken out and put back at `new_pos`,
/// with the links around both places mended.
pub open spec fn reordered(s: Seq<Item>, old_pos: int, new_pos: int) -> Seq<Item> {
    let s1 = if old_pos > 0 {
        s.update(old_pos - 1, with_next(s[old_pos - 1], s[old_pos].next))
    } else {
        s
    };
    let it = moved_item(s, old_pos, new_pos);
    let s2 = s1.remove(old_pos).insert(new_pos, it);
    if new_pos > 0 {
        s2.update(new_pos - 1, with_next(s2[new_pos - 1], Some(it.id)))
    } else {
        s2
    }
}

/// The writes that move an item in the database.
pub open spec fn order_statements(s: Seq<Item>, old_pos: int, new_pos: int) -> Seq<Statement> {
    seq![
        Statement::Redirect { from: Some(s[old_pos].id), to: s[old_pos].next },
        if old_pos < new_pos {
            Statement::SetNext { id: s[new_pos].id, next: Some(s[old_pos].id) }
        } else {
            Statement::Redirect { from: Some(s[new_pos].id), to: Some(s[old_pos].id) }
        },
        Statement::Place {
            id: s[old_pos].id,
            parent: move_parent(s, old_pos, new_pos),
            next: move_next(s, old_pos, new_pos),
        },
    ]
}

/// An indented item moved away from the front has a top-level item before its
/// new place to go under.
pub open spec fn move_order_safe(s: Seq<Item>, old_pos: int, new_pos: int) -> bool {
    s[old_pos].parent is Some && new_pos > 0 ==> root_before(s, if old_pos < new_pos { new_pos + 1 } else { new_pos })
}

/// Takes the item at `pos_old` out of the list and puts it back at `pos_new`.
pub fn move_update_order(pos_old: usize, pos_new: usize, item_list: &mut Vec<Item>, tx: &mut Vec<Statement>)
    requires
        pos_old < old(item_list)@.len(),
        pos_new < old(item_list)@.len(),
        move_order_safe(old(item_list)@, pos_old as int, pos_new as int),
    ensures
        final(item_list)@ == reordered(old(item_list)@, pos_old as int, pos_new as int),
        final(tx)@ == old(tx)@ + order_statements(old(item_list)@, pos_old as int, pos_new as int),
{
    let ghost s = item_list@;
    let ghost t = tx@;
    assert(pos_new < item_list.len());
    tx.push(Statement::Redirect { from: Some(item_list[pos_old].id), to: item_list[pos_old].next });
    // the item the moved item is placed after now links to it
    if pos_old < pos_new {
        tx.push(Statement::SetNext { id: item_list[pos_new].id, next: Some(item_list[pos_old].id) });
    } else {
        tx.push(Statement::Redirect { from: Some(item_list[pos_new].id), to: Some(item_list[pos_old].id) });
    }
    let parent = if item_list[pos_old].parent.is_some() && pos_new > 0 {
        let pos_parent = if pos_old < pos_new {
            pos_new + 1
        } else {
            pos_new
        };
        Some(item_list[get_parent(pos_parent, item_list)].id)
    } else {
        None
    };
    let set_next = if pos_old < pos_new {
        item_list[pos_new].next
    } else {
        Some(item_list[pos_new].id)
    };
    tx.push(Statement::Place { id: item_list[pos_old].id, parent, next: set_next });
    assert(tx@ =~= t + order_statements(s, pos_old as int, pos_new as int));
    let ghost it = moved_item(s, pos_old as int, pos_new as int);
    assert(parent == it.parent && set_next == it.next);
    if pos_old > 0 {
        item_list[pos_old - 1].next = item_list[pos_old].next;
    }
    let ghost s1 = item_list@;
    assert(s1 =~= (if pos_old > 0 {
        s.update(pos_old - 1, with_next(s[pos_old - 1], s[pos_old as int].next))
    } else {
        s
    }));
    item_list[pos_old].parent = parent;
    item_list[pos_old].next = set_next;
    let item = item_list.remove(pos_old);
    assert(item == it);
    assert(item_list@ =~= s1.remove(pos_old as int));
    item_list.insert(pos_new, item);
    let ghost s2 = item_list@;
    assert(s2 =~= s1.remove(pos_old as int).insert(pos_new as int, it));
    if pos_new > 0 {
        item_list[pos_new - 1].next = Some(item_list[pos_new].id);
    }
    assert(item_list@ =~= reordered(s, pos_old as int, pos_new as int));
}

/// The position of the top-level item that the run left at `pos_old` goes
/// under; when that is the front, the item now first is made top-level.
pub fn move_get_parent(pos_old: usize, item_list: &mut Vec<Item>, tx: &mut Vec<Statement>) -> (r: usize)
    requires
        pos_old < old(item_list)@.len(),
        pos_old > 0 ==> root_before(old(item_list)@, pos_old as int),
    ensures
        pos_old > 0 ==> {
            &&& r == nearest_root(old(item_list)@, pos_old as int)
            &&& r < pos_old
            &&& final(item_list)@ == old(item_list)@
            &&& final(tx)@ == old(tx)@
        },
        pos_old == 0 ==> {
            &&& r == 0
            &&& final(item_list)@ == old(item_list)@.update(0, with_parent(old(item_list)@[0], None))
            &&& final(tx)@ == old(tx)@.push(Statement::SetParent { id: old(item_list)@[0].id, parent: None })
        },
{
    if pos_old > 0 {
        get_parent(pos_old, item_list)
    } else {
        tx.push(Statement::SetParent { id: item_list[0].id, parent: None });
        item_list[0].parent = None;
        0
    }
}

/// The list and the writes after the runs of indented items around both ends
/// of a move get their parents mended.
pub open spec fn children_after_move(s: Seq<Item>, old_pos: int, new_pos: int) -> (Seq<Item>, Seq<Statement>) {
    let s0 = if old_pos > 0 { s } else { s.update(0, with_parent(s[0], None)) };
    let st0 = if old_pos > 0 {
        Seq::<Statement>::empty()
    } else {
        seq![Statement::SetParent { id: s[0].id, parent: None }]
    };
    let root = if old_pos > 0 { nearest_root(s, old_pos) } else { 0 };
    if old_pos < new_pos {
        let a = if old_pos == 0 { 1 } else { old_pos };
        let e1 = run_end(s0, a);
        let s1 = reparented(s0, a, e1, Some(s0[root].id));
        let st1 = st0 + parent_statements(s0, a, e1, Some(s0[root].id));
        if e1 < new_pos || old_pos == 0 {
            let e2 = run_end(s1, new_pos + 1);
            (
                reparented(s1, new_pos + 1, e2, Some(s1[new_pos].id)),
                st1 + parent_statements(s1, new_pos + 1, e2, Some(s1[new_pos].id)),
            )
        } else {
            (s1, st1)
        }
    } else {
        let e1 = run_end(s0, new_pos + 1);
        let s1 = reparented(s0, new_pos + 1, e1, Some(s0[new_pos].id));
        let st1 = st0 + parent_statements(s0, new_pos + 1, e1, Some(s0[new_pos].id));
        if e1 <= old_pos {
            let root2 = if s1[old_pos].parent is None { old_pos } else { root };
            let e2 = run_end(s1, old_pos + 1);
            (
                reparented(s1, old_pos + 1, e2, Some(s1[root2].id)),
                st1 + parent_statements(s1, old_pos + 1, e2, Some(s1[root2].id)),
            )
        } else {
            (s1, st1)
        }
    }
}

/// After a top-level item moved, the indented items that followed it at its
/// old place go under the closest top-level item there, and those that now
/// follow it go under it.
pub fn move_update_children(pos_old: usize, pos_new: usize, item_list: &mut Vec<Item>, tx: &mut Vec<Statement>)
    requires
        pos_old < old(item_list)@.len(),
        pos_new < old(item_list)@.len(),
        pos_old != pos_new,
        pos_old > 0 ==> root_before(old(item_list)@, pos_old as int),
    ensures
        final(item_list)@ == children_after_move(old(item_list)@, pos_old as int, pos_new as int).0,
        final(tx)@ == old(tx)@ + children_after_move(old(item_list)@, pos_old as int, pos_new as int).1,
{
    let ghost s = item_list@;
    let ghost t = tx@;
    let len = item_list.len();
    let pos_parent = move_get_parent(pos_old, item_list, tx);
    assert(item_list@.len() == len);
    if pos_old < pos_new {
        let mut pos_change = pos_old;
        if pos_change == 0 {
            pos_change = 1;
        }
        let root_id = item_list[pos_parent].id;
        let update_old_children_stop = update_parents(&pos_change, Some(root_id), item_list, tx);
        assert(item_list@.len() == len);
        // the items that now follow the moved item go under it, unless the run
        // just mended reached it: they are then its own former children (an
        // item moved from the front leaves another item at the front, whose
        // children they may be)
        if update_old_children_stop < pos_new || pos_old == 0 {
            pos_change = pos_new + 1;
            let new_id = item_list[pos_new].id;
            let _update_new_children = update_parents(&pos_change, Some(new_id), item_list, tx);
        }
    } else {
        let mut pos_change = pos_new + 1;
        let new_id = item_list[pos_new].id;
        let update_new_children_stop = update_parents(&pos_change, Some(new_id), item_list, tx);
        // the moved item's former children now follow the item at `pos_old`;
        // unless the run just mended reached them, they go under the closest
        // top-level item before them
        if update_new_children_stop <= pos_old {
            pos_change = pos_old + 1;
            let root = if item_list[pos_old].parent.is_none() {
                pos_old
            } else {
                pos_parent
            };
            let root_id = item_list[root].id;
            let _update_old_children = update_parents(&pos_change, Some(root_id), item_list, tx);
        }
    }
    assert(tx@ =~= t + children_after_move(s, pos_old as int, pos_new as int).1);
}

/// A move leaves a top-level item before every place where an item needs a
/// parent found.
pub open spec fn move_safe(s: Seq<Item>, old_pos: int, new_pos: int) -> bool {
    &&& move_order_safe(s, old_pos, new_pos)
    &&& 0 < old_pos < new_pos && s[old_pos].parent is None ==> root_before(s, old_pos)
}

/// The list after the item at `old_pos` moved to `new_pos`.
pub open spec fn moved(s: Seq<Item>, old_pos: int, new_pos: int) -> Seq<Item> {
    if old_pos == new_pos {
        s
    } else if reordered(s, old_pos, new_pos)[new_pos].parent is None {
        children_after_move(reordered(s, old_pos, new_pos), old_pos, new_pos).0
    } else {
        reordered(s, old_pos, new_pos)
    }
}

/// The writes that move the item at `old_pos` to `new_pos`.
pub open spec fn move_statements(s: Seq<Item>, old_pos: int, new_pos: int, list_id: i32) -> Seq<Statement> {
    if old_pos == new_pos {
        Seq::empty()
    } else if reordered(s, old_pos, new_pos)[new_pos].parent is None {
        seq![Statement::TouchList { list_id }] + order_statements(s, old_pos, new_pos) + children_after_move(
            reordered(s, old_pos, new_pos),
            old_pos,
            new_pos,
        ).1
    } else {
        seq![Statement::TouchList { list_id }] + order_statements(s, old_pos, new_pos)
    }
}

/// Moves the item at `pos_old` to `pos_new`, mending the links around both
/// places and, for a top-level item, the parents of the indented items there.
pub fn move_item(pos_old: usize, pos_new: usize, list_id: i32, item_list: &mut Vec<Item>, tx: &mut Vec<Statement>)
    requires
        pos_old < old(item_list)@.len(),
        pos_new < old(item_list)@.len(),
        move_safe(old(item_list)@, pos_old as int, pos_new as int),
    ensures
        final(item_list)@ == moved(old(item_list)@, pos_old as int, pos_new as int),
        final(tx)@ == old(tx)@ + move_statements(old(item_list)@, pos_old as int, pos_new as int, list_id),
{
    if pos_old == pos_new {
        assert(tx@ =~= tx@ + Seq::<Statement>::empty());
        return;
    }
    let ghost s = item_list@;
    let ghost t = tx@;
    tx.push(Statement::TouchList { list_id });
    move_update_order(pos_old, pos_new, item_list, tx);
    let ghost r = item_list@;
    let ghost t1 = tx@;
    if item_list[pos_new].parent.is_none() {
        proof {
            if pos_old > 0 {
                if pos_old < pos_new {
                    let j = choose|j: int| 0 <= j < pos_old && j < s.len() && (#[trigger] s[j]).parent is None;
                    assert(r[j].parent is None);
                } else {
                    assert(r[pos_new as int].parent is None);
                }
                assert(root_before(r, pos_old as int));
            }
        }
        move_update_children(pos_old, pos_new, item_list, tx);
        assert(tx@ =~= t + move_statements(s, pos_old as int, pos_new as int, list_id));
    } else {
        assert(tx@ =~= t + move_statements(s, pos_old as int, pos_new as int, list_id));
    }
}

/// The id of the item a new item placed at `position` links to: the item now
/// there, or nothing when the new item goes at the end.
pub fn next_id_at(position: usize, item_list: &Vec<Item>) -> (r: Option<i32>)
    requires
        position <= item_list@.len(),
    ensures
        r == if position < item_list@.len() { Some(item_list@[position as int].id) } else { None::<i32> },
{
    if position == item_list.len() {
        None
    } else {
        Some(item_list[position].id)
    }
}

/// Whether `indent_item` can indent the item at `position`.
pub fn can_indent(position: usize, item_list: &Vec<Item>) -> (r: bool)
    requires
        position < item_list@.len(),
    ensures
        r == (item_list@[position as int].parent is None && position > 0 ==> root_before(item_list@, position as int)),
{
    if item_list[position].parent.is_none() && position > 0 {
        crate::model::has_root_before(position, item_list)
    } else {
        true
    }
}

/// Whether `move_item` can move the item at `pos_old` to `pos_new`.
pub fn can_move(pos_old: usize, pos_new: usize, item_list: &Vec<Item>) -> (r: bool)
    requires
        pos_old < item_list@.len(),
        pos_new < item_list@.len(),
    ensures
        r == move_safe(item_list@, pos_old as int, pos_new as int),
{
    assert(pos_new < item_list.len());
    let order_ok = if item_list[pos_old].parent.is_some() && pos_new > 0 {
        let pos_parent = if pos_old < pos_new {
            pos_new + 1
        } else {
            pos_new
        };
        crate::model::has_root_before(pos_parent, item_list)
    } else {
        true
    };
    let children_ok = if 0 < pos_old && pos_old < pos_new && item_list[pos_old].parent.is_none() {
        crate::model::has_root_before(pos_old, item_list)
    } else {
        true
    };
    order_ok && children_ok
}

} // verus!
