//! What the database writes of an edit do to the stored rows of a list, and
//! the laws that tie them to the list kept in memory: on rows that hold the
//! list as it was, the writes of each edit leave rows that hold the list as the
//! edit left it.

use vstd::prelude::*;

use crate::model::{Item, Recurrence, distinct_ids, lemma_nearest_root_facts, nearest_root, parents_match, well_formed};
use crate::ops::{
    Timing, add_statements, added, children_after_move, delete_statements, deleted, edit_statements,
    move_statements, moved, moved_item, order_statements, reordered, edited, hide_statements, indent_statements, indented,
    link_statement, mark_statements, marked, new_item, parent_statements, recur_statements, recurred,
    reparented, run_end, schedule_statements, scheduled, unlinked, with_next, with_parent,
};
use crate::order::sort_result;
use crate::statement::Statement;

verus! {

/// The row with id `id`, if there is one, changed by `f`.
pub open spec fn update_row(rows: Map<i32, Item>, id: i32, f: spec_fn(Item) -> Item) -> Map<i32, Item> {
    if rows.dom().contains(id) {
        rows.insert(id, f(rows[id]))
    } else {
        rows
    }
}

/// Every row that links to `from` links to `to` instead.
pub open spec fn relinked(rows: Map<i32, Item>, from: Option<i32>, to: Option<i32>, except: Option<i32>) -> Map<i32, Item> {
    rows.map_values(|r: Item| if r.next == from && Some(r.id) != except { with_next(r, to) } else { r })
}

/// The rows of a list after one write. The rows are the stored items of the
/// list being edited, keyed by id, each with the recurrence and activation
/// date stored for it, as a reload reads them (a row links only to items of
/// its own list, so a write that picks rows by their link reaches no other
/// list). `new_id` is the id the database
/// gives an inserted row. An id is compared with `like`, which on integers
/// is equality, and which matches nothing against NULL. Deleting an item
/// clears the parent of the rows under it (the foreign key is `on delete set
/// null`), and deleting an item removes its recurrence and schedule with it.
pub open spec fn apply(rows: Map<i32, Item>, st: Statement, new_id: i32) -> Map<i32, Item> {
    match st {
        Statement::TouchList { .. } => rows,
        Statement::ToggleHideComplete { .. } => rows,
        Statement::InsertItem { text, next, .. } => rows.insert(new_id, new_item(new_id, text, next)),
        Statement::LinkAtEnd { new_id: id, .. } => relinked(rows, None, Some(id), Some(id)),
        Statement::LinkBefore { new_id: id, next_id } => relinked(rows, Some(next_id), Some(id), Some(id)),
        Statement::SetText { id, text } => update_row(rows, id, |r: Item| Item { text, ..r }),
        Statement::Redirect { from, to } => match from {
            None => rows,
            Some(f) => relinked(rows, Some(f), to, None),
        },
        Statement::SetNext { id, next } => update_row(rows, id, |r: Item| with_next(r, next)),
        Statement::DeleteItem { id } => rows.remove(id).map_values(
            |r: Item| if r.parent == Some(id) { with_parent(r, None) } else { r },
        ),
        Statement::Place { id, parent, next } => update_row(rows, id, |r: Item| Item { parent, next, ..r }),
        Statement::SetParent { id, parent } => update_row(rows, id, |r: Item| with_parent(r, parent)),
        Statement::ToggleComplete { id } => update_row(rows, id, |r: Item| Item { complete: !r.complete, ..r }),
        Statement::DeleteRecurrence { id } => update_row(rows, id, |r: Item| Item { recurrence: None, ..r }),
        Statement::UpsertRecurrence { id, period, time_last } => update_row(
            rows,
            id,
            |r: Item| Item { recurrence: Some(Recurrence { period, time_last }), ..r },
        ),
        Statement::ReopenItem { id } => update_row(rows, id, |r: Item| Item { complete: false, ..r }),
        Statement::SetTimeLast { id, time_last } => update_row(
            rows,
            id,
            |r: Item| match r.recurrence {
                Some(rec) => Item { recurrence: Some(Recurrence { time_last, ..rec }), ..r },
                None => r,
            },
        ),
        Statement::DeleteSchedule { id } => update_row(rows, id, |r: Item| Item { schedule_date: None, ..r }),
        Statement::UpsertSchedule { id, activation_date } => update_row(
            rows,
            id,
            |r: Item| Item { schedule_date: Some(activation_date), ..r },
        ),
    }
}

/// The rows after the writes `sts`, in order.
pub open spec fn apply_all(rows: Map<i32, Item>, sts: Seq<Statement>, new_id: i32) -> Map<i32, Item>
    decreases sts.len(),
{
    if sts.len() == 0 {
        rows
    } else {
        apply(apply_all(rows, sts.drop_last(), new_id), sts.last(), new_id)
    }
}

/// The rows hold exactly the items of the list: each item under its id, and
/// no other row.
pub open spec fn stored_as(rows: Map<i32, Item>, s: Seq<Item>) -> bool {
    &&& forall|k: int| 0 <= k < s.len() ==> rows.dom().contains(#[trigger] s[k].id) && rows[s[k].id] == s[k]
    &&& forall|id: i32| #[trigger] rows.dom().contains(id) ==> exists|k: int| 0 <= k < s.len() && s[k].id == id
}

proof fn lemma_apply_all_concat(rows: Map<i32, Item>, a: Seq<Statement>, b: Seq<Statement>, new_id: i32)
    ensures
        apply_all(rows, a + b, new_id) == apply_all(apply_all(rows, a, new_id), b, new_id),
    decreases b.len(),
{
    if b.len() == 0 {
        assert(a + b =~= a);
    } else {
        assert((a + b).drop_last() =~= a + b.drop_last());
        assert((a + b).last() == b.last());
        lemma_apply_all_concat(rows, a, b.drop_last(), new_id);
    }
}

proof fn lemma_apply_one(rows: Map<i32, Item>, st: Statement, new_id: i32)
    ensures
        apply_all(rows, seq![st], new_id) == apply(rows, st, new_id),
{
    assert(seq![st].drop_last() =~= Seq::<Statement>::empty());
    assert(apply_all(rows, seq![st].drop_last(), new_id) == rows);
}

proof fn lemma_apply_two(rows: Map<i32, Item>, a: Statement, b: Statement, new_id: i32)
    ensures
        apply_all(rows, seq![a, b], new_id) == apply(apply(rows, a, new_id), b, new_id),
{
    assert(seq![a, b].drop_last() =~= seq![a]);
    lemma_apply_one(rows, a, new_id);
}

/// Changing the row of the item at `position` to `v`, which keeps its id,
/// stores the list with that item changed.
proof fn lemma_store_update(rows: Map<i32, Item>, s: Seq<Item>, position: int, v: Item)
    requires
        stored_as(rows, s),
        distinct_ids(s),
        0 <= position < s.len(),
        v.id == s[position].id,
    ensures
        stored_as(rows.insert(s[position].id, v), s.update(position, v)),
{
    let r = rows.insert(s[position].id, v);
    let t = s.update(position, v);
    assert forall|k: int| 0 <= k < t.len() implies r.dom().contains(#[trigger] t[k].id) && r[t[k].id] == t[k] by {
        if k != position {
            assert(s[k].id != s[position].id);
            assert(rows.dom().contains(s[k].id));
        }
    }
    assert forall|id: i32| #[trigger] r.dom().contains(id) implies exists|k: int| 0 <= k < t.len() && t[k].id == id by {
        if id == s[position].id {
            assert(t[position].id == id);
        } else {
            assert(rows.dom().contains(id));
            let k = choose|k: int| 0 <= k < s.len() && s[k].id == id;
            assert(t[k].id == id);
        }
    }
}

/// Replacing an item's text writes the same change to its row.
pub proof fn lemma_edit_writes(rows: Map<i32, Item>, s: Seq<Item>, position: int, text: String, list_id: i32, new_id: i32)
    requires
        stored_as(rows, s),
        distinct_ids(s),
        0 <= position < s.len(),
    ensures
        stored_as(
            apply_all(rows, edit_statements(s[position].id, text, list_id), new_id),
            edited(s, position, text),
        ),
{
    let sts = edit_statements(s[position].id, text, list_id);
    assert(sts.drop_last() =~= seq![Statement::TouchList { list_id }, Statement::TouchList { list_id }]);
    lemma_apply_two(rows, Statement::TouchList { list_id }, Statement::TouchList { list_id }, new_id);
    assert(rows.dom().contains(s[position].id));
    lemma_store_update(rows, s, position, Item { text, ..s[position] });
}

/// Flipping an item's completion writes the same change to its row.
pub proof fn lemma_mark_writes(rows: Map<i32, Item>, s: Seq<Item>, position: int, list_id: i32, new_id: i32)
    requires
        stored_as(rows, s),
        distinct_ids(s),
        0 <= position < s.len(),
    ensures
        stored_as(apply_all(rows, mark_statements(s[position].id, list_id), new_id), marked(s, position)),
{
    lemma_apply_two(rows, Statement::TouchList { list_id }, Statement::ToggleComplete { id: s[position].id }, new_id);
    assert(rows.dom().contains(s[position].id));
    lemma_store_update(rows, s, position, Item { complete: !s[position].complete, ..s[position] });
}

/// Setting or removing an item's recurrence writes the same change to its row.
pub proof fn lemma_recur_writes(
    rows: Map<i32, Item>,
    s: Seq<Item>,
    position: int,
    period: i64,
    start: Timing,
    list_id: i32,
    new_id: i32,
)
    requires
        stored_as(rows, s),
        distinct_ids(s),
        0 <= position < s.len(),
    ensures
        stored_as(
            apply_all(rows, recur_statements(s[position].id, period, start, list_id), new_id),
            recurred(s, position, period, start),
        ),
{
    let id = s[position].id;
    assert(rows.dom().contains(id));
    match start {
        Timing::Remove => {
            lemma_apply_two(rows, Statement::TouchList { list_id }, Statement::DeleteRecurrence { id }, new_id);
            lemma_store_update(rows, s, position, Item { recurrence: None, ..s[position] });
        },
        Timing::At(t) => {
            lemma_apply_two(
                rows,
                Statement::TouchList { list_id },
                Statement::UpsertRecurrence { id, period, time_last: t },
                new_id,
            );
            lemma_store_update(
                rows,
                s,
                position,
                Item { recurrence: Some(Recurrence { period, time_last: t }), ..s[position] },
            );
        },
    }
}

/// Setting or removing an item's activation date writes the same change to its
/// row.
pub proof fn lemma_schedule_writes(
    rows: Map<i32, Item>,
    s: Seq<Item>,
    position: int,
    start: Timing,
    list_id: i32,
    new_id: i32,
)
    requires
        stored_as(rows, s),
        distinct_ids(s),
        0 <= position < s.len(),
    ensures
        stored_as(
            apply_all(rows, schedule_statements(s[position].id, start, list_id), new_id),
            scheduled(s, position, start),
        ),
{
    let id = s[position].id;
    assert(rows.dom().contains(id));
    match start {
        Timing::Remove => {
            lemma_apply_two(rows, Statement::TouchList { list_id }, Statement::DeleteSchedule { id }, new_id);
            lemma_store_update(rows, s, position, Item { schedule_date: None, ..s[position] });
        },
        Timing::At(t) => {
            lemma_apply_two(
                rows,
                Statement::TouchList { list_id },
                Statement::UpsertSchedule { id, activation_date: t },
                new_id,
            );
            lemma_store_update(rows, s, position, Item { schedule_date: Some(t), ..s[position] });
        },
    }
}

/// Indenting or unindenting an item writes the same change to its row.
pub proof fn lemma_indent_writes(rows: Map<i32, Item>, s: Seq<Item>, position: int, list_id: i32, new_id: i32)
    requires
        stored_as(rows, s),
        distinct_ids(s),
        0 <= position < s.len(),
    ensures
        stored_as(apply_all(rows, indent_statements(s, position, list_id), new_id), indented(s, position)),
{
    let id = s[position].id;
    assert(rows.dom().contains(id));
    if s[position].parent is Some {
        lemma_apply_two(rows, Statement::TouchList { list_id }, Statement::SetParent { id, parent: None }, new_id);
        lemma_store_update(rows, s, position, with_parent(s[position], None));
    } else if position > 0 {
        let p = Some(s[crate::model::nearest_root(s, position)].id);
        lemma_apply_two(rows, Statement::TouchList { list_id }, Statement::SetParent { id, parent: p }, new_id);
        lemma_store_update(rows, s, position, with_parent(s[position], p));
    } else {
        lemma_apply_one(rows, Statement::TouchList { list_id }, new_id);
        assert(indented(s, position) == s);
    }
}

/// Flipping whether a list hides its completed items writes no item row.
pub proof fn lemma_hide_writes(rows: Map<i32, Item>, list_id: i32, new_id: i32)
    ensures
        apply_all(rows, hide_statements(list_id), new_id) == rows,
{
    lemma_apply_two(rows, Statement::TouchList { list_id }, Statement::ToggleHideComplete { list_id }, new_id);
}

proof fn lemma_parent_writes_rows(rows: Map<i32, Item>, s: Seq<Item>, a: int, b: int, parent: Option<i32>, new_id: i32)
    requires
        distinct_ids(s),
        0 <= a <= b <= s.len(),
    ensures
        apply_all(rows, parent_statements(s, a, b, parent), new_id).dom() == rows.dom(),
        forall|id: i32|
            #![trigger apply_all(rows, parent_statements(s, a, b, parent), new_id)[id]]
            rows.dom().contains(id) && (forall|k: int| a <= k < b ==> s[k].id != id) ==> apply_all(
                rows,
                parent_statements(s, a, b, parent),
                new_id,
            )[id] == rows[id],
        forall|k: int|
            a <= k < b && rows.dom().contains(#[trigger] s[k].id) ==> apply_all(
                rows,
                parent_statements(s, a, b, parent),
                new_id,
            )[s[k].id] == with_parent(rows[s[k].id], parent),
    decreases b - a,
{
    let sts = parent_statements(s, a, b, parent);
    if b == a {
        assert(sts =~= Seq::<Statement>::empty());
    } else {
        lemma_parent_writes_rows(rows, s, a, b - 1, parent, new_id);
        assert(sts.drop_last() =~= parent_statements(s, a, b - 1, parent));
        let prev = apply_all(rows, parent_statements(s, a, b - 1, parent), new_id);
        let id = s[b - 1].id;
        assert(sts.last() == Statement::SetParent { id, parent });
        let cur = apply_all(rows, sts, new_id);
        assert(cur == update_row(prev, id, |r: Item| with_parent(r, parent)));
        assert(cur.dom() =~= rows.dom());
        assert forall|k: int| a <= k < b && rows.dom().contains(#[trigger] s[k].id) implies cur[s[k].id]
            == with_parent(rows[s[k].id], parent) by {
            if k < b - 1 {
                assert(s[k].id != id);
            } else {
                assert forall|j: int| a <= j < b - 1 implies s[j].id != id by {
                    assert(s[j].id != s[b - 1].id);
                }
            }
        }
    }
}

/// Giving the items at positions `a..b` a parent writes the same change to
/// their rows.
proof fn lemma_parent_writes(rows: Map<i32, Item>, s: Seq<Item>, a: int, b: int, parent: Option<i32>, new_id: i32)
    requires
        stored_as(rows, s),
        distinct_ids(s),
        0 <= a <= b <= s.len(),
    ensures
        stored_as(apply_all(rows, parent_statements(s, a, b, parent), new_id), reparented(s, a, b, parent)),
{
    let r = apply_all(rows, parent_statements(s, a, b, parent), new_id);
    let t = reparented(s, a, b, parent);
    lemma_parent_writes_rows(rows, s, a, b, parent, new_id);
    assert forall|k: int| 0 <= k < t.len() implies r.dom().contains(#[trigger] t[k].id) && r[t[k].id] == t[k] by {
        assert(rows.dom().contains(s[k].id));
        if !(a <= k < b) {
            assert forall|j: int| a <= j < b implies s[j].id != s[k].id by {
                assert(j != k);
            }
        }
    }
    assert forall|id: i32| #[trigger] r.dom().contains(id) implies exists|k: int| 0 <= k < t.len() && t[k].id == id by {
        assert(rows.dom().contains(id));
        let k = choose|k: int| 0 <= k < s.len() && s[k].id == id;
        assert(t[k].id == id);
    }
}

/// The writes that add an item: those made before the database gives the item
/// its id, then the link to it.
pub open spec fn add_writes(text: String, next_id: Option<i32>, list_id: i32, new_id: i32) -> Seq<Statement> {
    add_statements(text, next_id, list_id).push(link_statement(new_id, next_id, list_id))
}

/// Adding an item to a well-formed list, with the link the program gives it and
/// the id the database gives it, writes the same change to the rows: a new row
/// for the item, and the item before it linking to it.
#[verifier::rlimit(60)]
pub proof fn lemma_add_writes(
    rows: Map<i32, Item>,
    s: Seq<Item>,
    position: int,
    text: String,
    next_id: Option<i32>,
    list_id: i32,
    new_id: i32,
)
    requires
        stored_as(rows, s),
        well_formed(s),
        0 <= position <= s.len(),
        next_id == (if position < s.len() { Some(s[position].id) } else { None::<i32> }),
        !rows.dom().contains(new_id),
    ensures
        stored_as(
            apply_all(rows, add_writes(text, next_id, list_id, new_id), new_id),
            added(s, position, new_item(new_id, text, next_id)),
        ),
{
    let it = new_item(new_id, text, next_id);
    let sts = add_writes(text, next_id, list_id, new_id);
    let ins = Statement::InsertItem { text, next: next_id, list_id };
    assert(sts.drop_last() =~= seq![Statement::TouchList { list_id }, ins]);
    lemma_apply_two(rows, Statement::TouchList { list_id }, ins, new_id);
    let r1 = rows.insert(new_id, it);
    let r2 = apply_all(rows, sts, new_id);
    assert(r2 == apply(r1, link_statement(new_id, next_id, list_id), new_id));
    let t = added(s, position, it);
    assert forall|k: int| 0 <= k < s.len() implies s[k].id != new_id by {
        assert(rows.dom().contains(s[k].id));
    }
    assert forall|k: int| 0 <= k < t.len() implies r2.dom().contains(#[trigger] t[k].id) && r2[t[k].id] == t[k] by {
        if k < position {
            assert(rows.dom().contains(s[k].id));
            if k < position - 1 {
                assert(s[k].next == Some(s[k + 1].id));
                assert(s[k + 1].id != s[position].id || position == s.len());
            } else if position < s.len() {
                assert(s[k].next == Some(s[position].id));
            } else {
                assert(s.last() == s[k]);
            }
        } else if k > position {
            assert(rows.dom().contains(s[k - 1].id));
            if k - 1 < s.len() - 1 {
                assert(s[k - 1].next == Some(s[k].id));
                assert(s[k].id != s[position].id);
            }
        }
    }
    assert forall|id: i32| #[trigger] r2.dom().contains(id) implies exists|k: int| 0 <= k < t.len() && t[k].id == id by {
        if id == new_id {
            assert(t[position].id == id);
        } else {
            assert(rows.dom().contains(id));
            let k = choose|k: int| 0 <= k < s.len() && s[k].id == id;
            if k < position {
                assert(t[k].id == id);
            } else {
                assert(t[k + 1].id == id);
            }
        }
    }
}

/// Every item whose parent is the item at `position` is one of the indented
/// items that directly follow it, and only a top-level item has any.
pub open spec fn children_follow(s: Seq<Item>, position: int) -> bool {
    forall|j: int|
        0 <= j < s.len() && (#[trigger] s[j]).parent == Some(s[position].id) ==> {
            &&& s[position].parent is None
            &&& position < j
            &&& forall|i: int| position < i <= j ==> (#[trigger] s[i]).parent is Some
        }
}

/// In a list with unique ids whose indented items sit under the closest
/// top-level item before them, the items under any item are the indented items
/// that directly follow it.
pub proof fn lemma_matching_parents_follow(s: Seq<Item>, position: int)
    requires
        parents_match(s),
        distinct_ids(s),
        0 <= position < s.len(),
    ensures
        children_follow(s, position),
{
    assert forall|j: int| 0 <= j < s.len() && (#[trigger] s[j]).parent == Some(s[position].id) implies {
        &&& s[position].parent is None
        &&& position < j
        &&& forall|i: int| position < i <= j ==> (#[trigger] s[i]).parent is Some
    } by {
        let r = nearest_root(s, j);
        lemma_nearest_root_facts(s, j);
        assert(s[r].id == s[position].id);
        assert(r == position);
    }
}

proof fn lemma_run_end_covers(u: Seq<Item>, p: int, k: int)
    requires
        0 <= p <= k < u.len(),
        forall|i: int| p <= i <= k ==> (#[trigger] u[i]).parent is Some,
    ensures
        k < run_end(u, p),
    decreases k - p,
{
    if p < k {
        lemma_run_end_covers(u, p + 1, k);
    } else {
        crate::ops::lemma_run_end_bounds(u, p + 1);
    }
}

/// Deleting an item of a well-formed list, whose rows under it are its
/// children, writes the same change to the rows: the item before it links past
/// it, its row goes, and its children lose their parent.
#[verifier::rlimit(60)]
pub proof fn lemma_delete_writes(rows: Map<i32, Item>, s: Seq<Item>, position: int, list_id: i32, new_id: i32)
    requires
        stored_as(rows, s),
        well_formed(s),
        0 <= position < s.len(),
        children_follow(s, position),
    ensures
        stored_as(apply_all(rows, delete_statements(s, position, list_id), new_id), deleted(s, position)),
        // when the item is deleted, no row links to it any more, so the
        // database (`on delete restrict`) lets the delete through
        forall|id: i32|
            #![trigger delete_statements(s, position, list_id).take(2), apply_all(rows, delete_statements(s, position, list_id).take(2), new_id)[id]]
            apply_all(rows, delete_statements(s, position, list_id).take(2), new_id).dom().contains(id)
                ==> apply_all(rows, delete_statements(s, position, list_id).take(2), new_id)[id].next != Some(s[position].id),
{
    let p = position;
    let x = s[p];
    let u = unlinked(s, p);
    let base = seq![
        Statement::TouchList { list_id },
        Statement::Redirect { from: Some(x.id), to: x.next },
        Statement::DeleteItem { id: x.id },
    ];
    assert(base.drop_last() =~= seq![Statement::TouchList { list_id }, Statement::Redirect { from: Some(x.id), to: x.next }]);
    lemma_apply_two(rows, Statement::TouchList { list_id }, Statement::Redirect { from: Some(x.id), to: x.next }, new_id);
    let r2 = relinked(rows, Some(x.id), x.next, None);
    let r3 = apply_all(rows, base, new_id);
    assert(delete_statements(s, p, list_id).take(2) =~= base.drop_last());
    assert forall|id: i32| r2.dom().contains(id) implies r2[id].next != Some(x.id) by {
        assert(rows.dom().contains(id));
        let j = choose|j: int| 0 <= j < s.len() && s[j].id == id;
        if j < s.len() - 1 {
            assert(s[j].next == Some(s[j + 1].id));
        } else {
            assert(s.last() == s[j]);
        }
        if j == p - 1 {
            if p < s.len() - 1 {
                assert(s[p].next == Some(s[p + 1].id));
            } else {
                assert(s.last() == s[p]);
            }
        }
    }
    assert(r3 == r2.remove(x.id).map_values(|r: Item| if r.parent == Some(x.id) { with_parent(r, None) } else { r }));
    // the rows after the delete: those of `u`, less the parents that pointed to the deleted item
    assert forall|k: int| 0 <= k < u.len() implies r3.dom().contains(#[trigger] u[k].id) && r3[u[k].id] == (if u[k].parent
        == Some(x.id) {
        with_parent(u[k], None)
    } else {
        u[k]
    }) by {
        let j = if k < p { k } else { k + 1 };
        assert(s[j].id != x.id);
        assert(rows.dom().contains(s[j].id));
        if j < s.len() - 1 {
            assert(s[j].next == Some(s[j + 1].id));
        } else {
            assert(s.last() == s[j]);
        }
        if j == p - 1 {
            assert(s[j].next == Some(x.id));
        } else if j < s.len() - 1 {
            assert(s[j + 1].id != x.id);
        }
    }
    assert forall|id: i32| #[trigger] r3.dom().contains(id) implies exists|k: int| 0 <= k < u.len() && u[k].id == id by {
        assert(rows.dom().contains(id));
        let j = choose|j: int| 0 <= j < s.len() && s[j].id == id;
        assert(j != p);
        if j < p {
            assert(u[j].id == id);
        } else {
            assert(u[j - 1].id == id);
        }
    }
    assert(distinct_ids(u)) by {
        assert forall|i: int, j: int| 0 <= i < u.len() && 0 <= j < u.len() && i != j implies #[trigger] u[i].id
            != #[trigger] u[j].id by {
            let i0 = if i < p { i } else { i + 1 };
            let j0 = if j < p { j } else { j + 1 };
            assert(s[i0].id != s[j0].id);
        }
    }
    if x.parent is Some {
        assert forall|k: int| 0 <= k < u.len() implies (#[trigger] u[k]).parent != Some(x.id) by {
            let j = if k < p { k } else { k + 1 };
            assert(u[k].parent == s[j].parent);
        }
        assert(delete_statements(s, p, list_id) == base);
        assert(stored_as(r3, u));
    } else {
        let e = run_end(u, p);
        crate::ops::lemma_run_end_bounds(u, p);
        assert(delete_statements(s, p, list_id) == base + parent_statements(u, p, e, None));
        lemma_apply_all_concat(rows, base, parent_statements(u, p, e, None), new_id);
        let r4 = apply_all(r3, parent_statements(u, p, e, None), new_id);
        lemma_parent_writes_rows(r3, u, p, e, None, new_id);
        let t = reparented(u, p, e, None);
        assert forall|k: int| 0 <= k < t.len() implies r4.dom().contains(#[trigger] t[k].id) && r4[t[k].id] == t[k] by {
            assert(r3.dom().contains(u[k].id));
            if p <= k < e {
            } else {
                assert forall|i: int| p <= i < e implies u[i].id != u[k].id by {
                    assert(i != k);
                }
                if u[k].parent == Some(x.id) {
                    let j = k + 1;
                    assert(k >= p);
                    assert(s[j].parent == Some(x.id));
                    assert forall|i: int| p <= i <= k implies (#[trigger] u[i]).parent is Some by {
                        assert(s[i + 1].parent is Some);
                    }
                    lemma_run_end_covers(u, p, k);
                }
            }
        }
        assert forall|id: i32| #[trigger] r4.dom().contains(id) implies exists|k: int| 0 <= k < t.len() && t[k].id == id by {
            assert(r3.dom().contains(id));
            let k = choose|k: int| 0 <= k < u.len() && u[k].id == id;
            assert(t[k].id == id);
        }
    }
}

/// The item at position `j` as the order writes of a move leave it: the moved
/// item placed, the item before its old place linking past it, and the item
/// before its new place linking to it.
spec fn placed(s: Seq<Item>, o: int, n: int, j: int) -> Item {
    if j == o {
        moved_item(s, o, n)
    } else if j == o - 1 {
        with_next(s[j], s[o].next)
    } else if (o < n && j == n) || (n < o && j == n - 1) {
        with_next(s[j], Some(s[o].id))
    } else {
        s[j]
    }
}

proof fn lemma_reordered_placed(s: Seq<Item>, o: int, n: int)
    requires
        0 <= o < s.len(),
        0 <= n < s.len(),
        o != n,
    ensures
        forall|k: int|
            0 <= k < s.len() ==> #[trigger] reordered(s, o, n)[k] == placed(
                s,
                o,
                n,
                crate::laws::source_position(o, n, k),
            ),
        forall|j: int|
            0 <= j < s.len() ==> 0 <= #[trigger] crate::laws::target_position(o, n, j) < s.len()
                && crate::laws::source_position(o, n, crate::laws::target_position(o, n, j)) == j,
{
    let r = reordered(s, o, n);
    assert forall|k: int| 0 <= k < s.len() implies #[trigger] r[k] == placed(s, o, n, crate::laws::source_position(o, n, k)) by {
        if o < n {
            if k < o - 1 {
            } else if k == o - 1 {
            } else if k < n - 1 {
            } else if k == n - 1 {
            } else if k == n {
            } else {
            }
        } else {
            if k < n - 1 {
            } else if k == n - 1 {
            } else if k == n {
            } else if k <= o {
            } else {
            }
        }
    }
}

/// The order writes of a move, on the rows of a well-formed list, leave the
/// rows of the reordered list.
#[verifier::rlimit(100)]
#[verifier::spinoff_prover]
proof fn lemma_order_writes(rows: Map<i32, Item>, s: Seq<Item>, o: int, n: int, new_id: i32)
    requires
        stored_as(rows, s),
        well_formed(s),
        0 <= o < s.len(),
        0 <= n < s.len(),
        o != n,
    ensures
        stored_as(apply_all(rows, order_statements(s, o, n), new_id), reordered(s, o, n)),
{
    let x = s[o];
    let sts = order_statements(s, o, n);
    let second = sts[1];
    let third = sts[2];
    assert(sts.drop_last() =~= seq![sts[0], second]);
    lemma_apply_two(rows, sts[0], second, new_id);
    let r1 = relinked(rows, Some(x.id), x.next, None);
    let r2 = apply(r1, second, new_id);
    let r3 = apply_all(rows, sts, new_id);
    assert(r3 == apply(r2, third, new_id));
    assert forall|j: int| 0 <= j < s.len() implies rows.dom().contains(#[trigger] s[j].id) && r1[s[j].id] == (if j
        == o - 1 {
        with_next(s[j], x.next)
    } else {
        s[j]
    }) by {
        if j < s.len() - 1 {
            assert(s[j].next == Some(s[j + 1].id));
            if j + 1 != o {
                assert(s[j + 1].id != x.id);
            }
        } else {
            assert(s.last() == s[j]);
        }
    }
    assert forall|j: int| 0 <= j < s.len() implies #[trigger] r2[s[j].id] == (if (o < n && j == n) || (n < o && j
        == n - 1) {
        with_next(s[j], Some(x.id))
    } else if j == o - 1 {
        with_next(s[j], x.next)
    } else {
        s[j]
    }) by {
        assert(rows.dom().contains(s[j].id));
        assert(rows.dom().contains(s[n].id));
        if o < n {
            if j != n {
                assert(s[j].id != s[n].id);
            }
        } else {
            if j < s.len() - 1 {
                assert(s[j].next == Some(s[j + 1].id));
                if j + 1 != n {
                    assert(s[j + 1].id != s[n].id);
                }
            } else {
                assert(s.last() == s[j]);
            }
            if j == o - 1 {
                if o < s.len() - 1 {
                    assert(s[o].next == Some(s[o + 1].id));
                    assert(s[o + 1].id != s[n].id);
                } else {
                    assert(s.last() == s[o]);
                }
            }
        }
    }
    assert forall|j: int| 0 <= j < s.len() implies #[trigger] r3[s[j].id] == placed(s, o, n, j) by {
        assert(rows.dom().contains(s[j].id));
        assert(rows.dom().contains(x.id));
        if j != o {
            assert(s[j].id != x.id);
        }
    }
    assert(r1.dom() =~= rows.dom());
    assert(r3.dom() =~= rows.dom());
    lemma_reordered_placed(s, o, n);
    let t = reordered(s, o, n);
    assert forall|k: int| 0 <= k < t.len() implies r3.dom().contains(#[trigger] t[k].id) && r3[t[k].id] == t[k] by {
        let j = crate::laws::source_position(o, n, k);
        crate::laws::lemma_reordered_shape(s, o, n);
        assert(t[k] == placed(s, o, n, j));
        assert(t[k].id == s[j].id);
        assert(r3[s[j].id] == placed(s, o, n, j));
    }
    assert forall|id: i32| #[trigger] r3.dom().contains(id) implies exists|k: int| 0 <= k < t.len() && t[k].id == id by {
        assert(rows.dom().contains(id));
        let j = choose|j: int| 0 <= j < s.len() && s[j].id == id;
        let k = crate::laws::target_position(o, n, j);
        assert(t[k] == placed(s, o, n, j));
        assert(t[k].id == id);
    }
}

proof fn lemma_same_ids_distinct(a: Seq<Item>, b: Seq<Item>)
    requires
        distinct_ids(a),
        a.len() == b.len(),
        forall|k: int| 0 <= k < a.len() ==> (#[trigger] a[k]).id == b[k].id,
    ensures
        distinct_ids(b),
{
    assert forall|i: int, j: int| 0 <= i < b.len() && 0 <= j < b.len() && i != j implies #[trigger] b[i].id
        != #[trigger] b[j].id by {
        assert(a[i].id != a[j].id);
        assert(a[i].id == b[i].id);
        assert(a[j].id == b[j].id);
    }
}

/// The parent writes after a move of a top-level item leave the rows of the
/// list with its children mended.
#[verifier::rlimit(60)]
proof fn lemma_children_writes(rows: Map<i32, Item>, r: Seq<Item>, o: int, n: int, new_id: i32)
    requires
        stored_as(rows, r),
        distinct_ids(r),
        0 <= o < r.len(),
        0 <= n < r.len(),
        o != n,
    ensures
        stored_as(apply_all(rows, children_after_move(r, o, n).1, new_id), children_after_move(r, o, n).0),
{
    let s0 = if o > 0 { r } else { r.update(0, with_parent(r[0], None)) };
    let st0 = if o > 0 { Seq::<Statement>::empty() } else { seq![Statement::SetParent { id: r[0].id, parent: None }] };
    let rows0 = apply_all(rows, st0, new_id);
    if o > 0 {
        assert(rows0 == rows);
    } else {
        assert(st0 =~= parent_statements(r, 0, 1, None));
        assert(s0 =~= reparented(r, 0, 1, None));
        lemma_parent_writes(rows, r, 0, 1, None, new_id);
    }
    assert(stored_as(rows0, s0));
    lemma_same_ids_distinct(r, s0);
    let root = if o > 0 { nearest_root(r, o) } else { 0 };
    if o < n {
        let a = if o == 0 { 1 } else { o };
        let e1 = run_end(s0, a);
        crate::ops::lemma_run_end_bounds(s0, a);
        let p1 = Some(s0[root].id);
        let s1 = reparented(s0, a, e1, p1);
        let st1 = parent_statements(s0, a, e1, p1);
        lemma_parent_writes(rows0, s0, a, e1, p1, new_id);
        lemma_apply_all_concat(rows, st0, st1, new_id);
        let rows1 = apply_all(rows, st0 + st1, new_id);
        assert(stored_as(rows1, s1));
        if e1 < n || o == 0 {
            lemma_same_ids_distinct(s0, s1);
            let e2 = run_end(s1, n + 1);
            crate::ops::lemma_run_end_bounds(s1, n + 1);
            let p2 = Some(s1[n].id);
            lemma_parent_writes(rows1, s1, n + 1, e2, p2, new_id);
            lemma_apply_all_concat(rows, st0 + st1, parent_statements(s1, n + 1, e2, p2), new_id);
        }
    } else {
        let e1 = run_end(s0, n + 1);
        crate::ops::lemma_run_end_bounds(s0, n + 1);
        let p1 = Some(s0[n].id);
        let s1 = reparented(s0, n + 1, e1, p1);
        let st1 = parent_statements(s0, n + 1, e1, p1);
        lemma_parent_writes(rows0, s0, n + 1, e1, p1, new_id);
        lemma_apply_all_concat(rows, st0, st1, new_id);
        let rows1 = apply_all(rows, st0 + st1, new_id);
        assert(stored_as(rows1, s1));
        if e1 <= o {
            lemma_same_ids_distinct(s0, s1);
            let root2 = if s1[o].parent is None { o } else { root };
            let e2 = run_end(s1, o + 1);
            crate::ops::lemma_run_end_bounds(s1, o + 1);
            let p2 = Some(s1[root2].id);
            lemma_parent_writes(rows1, s1, o + 1, e2, p2, new_id);
            lemma_apply_all_concat(rows, st0 + st1, parent_statements(s1, o + 1, e2, p2), new_id);
        }
    }
}

/// Moving an item of a well-formed list writes the same change to the rows:
/// the links around both places, the moved item's place, and the parents
/// mended around both places when the item is top-level.
pub proof fn lemma_move_writes(rows: Map<i32, Item>, s: Seq<Item>, old_pos: int, new_pos: int, list_id: i32, new_id: i32)
    requires
        stored_as(rows, s),
        well_formed(s),
        0 <= old_pos < s.len(),
        0 <= new_pos < s.len(),
    ensures
        stored_as(apply_all(rows, move_statements(s, old_pos, new_pos, list_id), new_id), moved(s, old_pos, new_pos)),
{
    let o = old_pos;
    let n = new_pos;
    if o == n {
        assert(apply_all(rows, move_statements(s, o, n, list_id), new_id) == rows);
        return;
    }
    let touch = seq![Statement::TouchList { list_id }];
    lemma_apply_one(rows, Statement::TouchList { list_id }, new_id);
    lemma_apply_all_concat(rows, touch, order_statements(s, o, n), new_id);
    lemma_order_writes(rows, s, o, n, new_id);
    let r = reordered(s, o, n);
    let rows1 = apply_all(rows, touch + order_statements(s, o, n), new_id);
    assert(stored_as(rows1, r));
    if r[n].parent is None {
        crate::laws::lemma_reordered_linked(s, o, n);
        lemma_children_writes(rows1, r, o, n, new_id);
        lemma_apply_all_concat(rows, touch + order_statements(s, o, n), children_after_move(r, o, n).1, new_id);
    }
}

/// Reloading rows that hold a well-formed list gives the list back: in
/// whatever order the query returns the rows, each once, the order rebuilt from
/// their links is the list.
#[verifier::rlimit(60)]
pub proof fn lemma_reload_stored(rows: Map<i32, Item>, kept: Seq<Item>, read: Seq<Item>)
    requires
        stored_as(rows, kept),
        well_formed(kept),
        distinct_ids(read),
        forall|k: int| 0 <= k < read.len() ==> rows.dom().contains(#[trigger] read[k].id) && rows[read[k].id] == read[k],
        forall|id: i32| #[trigger] rows.dom().contains(id) ==> exists|k: int| 0 <= k < read.len() && read[k].id == id,
    ensures
        sort_result(read) == Some(kept),
{
    broadcast use vstd::seq_lib::group_to_multiset_ensures, vstd::multiset::group_multiset_axioms;

    crate::order::lemma_distinct_ids_no_duplicates(read);
    crate::order::lemma_distinct_ids_no_duplicates(kept);
    read.lemma_multiset_has_no_duplicates();
    kept.lemma_multiset_has_no_duplicates();
    assert forall|x: Item| read.to_multiset().count(x) == kept.to_multiset().count(x) by {
        if read.contains(x) {
            let k = choose|k: int| 0 <= k < read.len() && read[k] == x;
            assert(rows.dom().contains(x.id));
            let j = choose|j: int| 0 <= j < kept.len() && kept[j].id == x.id;
            assert(kept[j] == x);
            assert(kept.contains(x));
        } else if kept.contains(x) {
            let j = choose|j: int| 0 <= j < kept.len() && kept[j] == x;
            assert(rows.dom().contains(kept[j].id));
            let k = choose|k: int| 0 <= k < read.len() && read[k].id == x.id;
            assert(read[k] == x);
            assert(read.contains(x));
        }
    }
    assert(read.to_multiset() =~= kept.to_multiset());
    crate::laws::lemma_reload_restores_order(kept, read);
}

/// After an item is added to a well-formed list, reloading the list from the
/// rows the writes left, in whatever order the query returns them, gives back
/// the list kept in memory.
pub proof fn lemma_add_then_reload(
    rows: Map<i32, Item>,
    s: Seq<Item>,
    position: int,
    text: String,
    next_id: Option<i32>,
    list_id: i32,
    new_id: i32,
    read: Seq<Item>,
)
    requires
        stored_as(rows, s),
        well_formed(s),
        0 <= position <= s.len(),
        next_id == (if position < s.len() { Some(s[position].id) } else { None::<i32> }),
        !rows.dom().contains(new_id),
        distinct_ids(read),
        forall|k: int|
            0 <= k < read.len() ==> apply_all(rows, add_writes(text, next_id, list_id, new_id), new_id).dom().contains(
                #[trigger] read[k].id,
            ) && apply_all(rows, add_writes(text, next_id, list_id, new_id), new_id)[read[k].id] == read[k],
        forall|id: i32|
            #[trigger] apply_all(rows, add_writes(text, next_id, list_id, new_id), new_id).dom().contains(id)
                ==> exists|k: int| 0 <= k < read.len() && read[k].id == id,
    ensures
        sort_result(read) == Some(added(s, position, new_item(new_id, text, next_id))),
{
    lemma_add_writes(rows, s, position, text, next_id, list_id, new_id);
    if crate::model::ids(s).contains(new_id) {
        let k = choose|k: int| 0 <= k < crate::model::ids(s).len() && crate::model::ids(s)[k] == new_id;
        assert(s[k].id == new_id);
        assert(rows.dom().contains(s[k].id));
    }
    crate::laws::lemma_add_keeps_well_formed(s, position, text, next_id, new_id);
    lemma_reload_stored(
        apply_all(rows, add_writes(text, next_id, list_id, new_id), new_id),
        added(s, position, new_item(new_id, text, next_id)),
        read,
    );
}

} // verus!
