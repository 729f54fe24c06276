//! What holds of the list across edits: every edit keeps it in link order with
//! unique ids, reloading it from the database gives back the same order,
//! every edit keeps each indented item under the closest top-level item before
//! it (adding and indenting only where that can hold), and some edits undo each
//! other.

use vstd::prelude::*;

use crate::model::{
    Item, List, distinct_ids, ids, lemma_nearest_root_facts, lemma_nearest_root_is, lemma_nearest_root_same_prefix,
    lemma_nearest_root_shifted, linked, nearest_root, parents_match, root_before, well_formed,
};
use crate::ops::{
    Timing, added, children_after_move, deleted, edited, indented, marked, move_parent, move_safe, moved,
    new_item, recurred, reordered, reparented, run_end, scheduled, unlinked, with_parent,
};
use crate::order::{has_ordering, is_ordering, lemma_sort_result_on_chain, sort_result};
use crate::display::{Line, entry, gathered, is_stub, item_line, lemma_gathered, open_lines, shown_open};

verus! {

broadcast use vstd::seq_lib::group_to_multiset_ensures, vstd::multiset::group_multiset_axioms;

/// Two lists whose items carry the same ids and links, position by position.
pub open spec fn same_links(a: Seq<Item>, b: Seq<Item>) -> bool {
    &&& a.len() == b.len()
    &&& forall|k: int| 0 <= k < a.len() ==> (#[trigger] a[k]).id == b[k].id && a[k].next == b[k].next
}

proof fn lemma_same_links_transfer(a: Seq<Item>, b: Seq<Item>)
    requires
        same_links(a, b),
    ensures
        linked(a) ==> linked(b),
        distinct_ids(a) ==> distinct_ids(b),
        ids(a) == ids(b),
{
    if linked(a) {
        assert forall|k: int| 0 <= k < b.len() - 1 implies #[trigger] b[k].next == Some(b[k + 1].id) by {
            assert(a[k].next == Some(a[k + 1].id));
            assert(a[k + 1].id == b[k + 1].id);
        }
        if b.len() > 0 {
            assert(a[a.len() - 1].next == b[b.len() - 1].next);
        }
    }
    if distinct_ids(a) {
        assert forall|i: int, j: int| 0 <= i < b.len() && 0 <= j < b.len() && i != j implies #[trigger] b[i].id
            != #[trigger] b[j].id by {
            assert(a[i].id != a[j].id);
            assert(a[i].id == b[i].id);
            assert(a[j].id == b[j].id);
        }
    }
    assert(ids(a) =~= ids(b));
}

proof fn lemma_reparented_same_links(s: Seq<Item>, a: int, b: int, parent: Option<i32>)
    ensures
        same_links(s, reparented(s, a, b, parent)),
{
}

proof fn lemma_run_end_at_least(s: Seq<Item>, p: int)
    ensures
        p <= run_end(s, p),
        p < s.len() && s[p].parent is Some ==> p < run_end(s, p),
    decreases s.len() - p,
{
    if p < s.len() && s[p].parent is Some {
        lemma_run_end_at_least(s, p + 1);
    }
}

/// Reloading a list from the database gives back the order it was kept in:
/// whatever order the rows of a well-formed list come in, `get_sorted_items`
/// ends on them and returns the list as it was kept.
pub proof fn lemma_reload_restores_order(kept: Seq<Item>, stored: Seq<Item>)
    requires
        well_formed(kept),
        stored.to_multiset() =~= kept.to_multiset(),
    ensures
        distinct_ids(stored),
        has_ordering(stored),
        sort_result(stored) == Some(kept),
{
    crate::order::lemma_distinct_ids_rearranged(stored, kept);
    assert(is_ordering(kept, stored));
    lemma_sort_result_on_chain(stored, kept);
}

/// Adding an item at `position`, with the link the program gives it (the id of
/// the item that was at `position`, or nothing at the end) and an id not yet in
/// the list, keeps the list well formed; the new item sits at `position`.
pub proof fn lemma_add_keeps_well_formed(s: Seq<Item>, position: int, text: String, next_id: Option<i32>, id: i32)
    requires
        well_formed(s),
        0 <= position <= s.len(),
        next_id == (if position < s.len() { Some(s[position].id) } else { None::<i32> }),
        !ids(s).contains(id),
    ensures
        well_formed(added(s, position, new_item(id, text, next_id))),
        ids(added(s, position, new_item(id, text, next_id))) == ids(s).insert(position, id),
{
    let it = new_item(id, text, next_id);
    let t = s.insert(position, it);
    let r = added(s, position, it);
    assert(r.len() == s.len() + 1);
    assert forall|k: int| 0 <= k < r.len() - 1 implies #[trigger] r[k].next == Some(r[k + 1].id) by {
        if k < position - 1 {
            assert(s[k].next == Some(s[k + 1].id));
        } else if k == position - 1 {
        } else if k == position {
            assert(r[k + 1] == s[position]);
        } else {
            assert(s[k - 1].next == Some(s[k].id));
        }
    }
    assert forall|i: int, j: int| 0 <= i < r.len() && 0 <= j < r.len() && i != j implies #[trigger] r[i].id
        != #[trigger] r[j].id by {
        if i != position && j != position {
            let i0 = if i < position { i } else { i - 1 };
            let j0 = if j < position { j } else { j - 1 };
            assert(s[i0].id != s[j0].id);
        } else if i == position {
            let j0 = if j < position { j } else { j - 1 };
            assert(ids(s)[j0] == s[j0].id);
        } else {
            let i0 = if i < position { i } else { i - 1 };
            assert(ids(s)[i0] == s[i0].id);
        }
    }
    assert(ids(r) =~= ids(s).insert(position, id));
}

/// Deleting an item keeps the list well formed and removes exactly its id.
pub proof fn lemma_delete_keeps_well_formed(s: Seq<Item>, position: int)
    requires
        well_formed(s),
        0 <= position < s.len(),
    ensures
        well_formed(deleted(s, position)),
        ids(deleted(s, position)) == ids(s).remove(position),
{
    let u = unlinked(s, position);
    assert(u.len() == s.len() - 1);
    assert forall|k: int| 0 <= k < u.len() - 1 implies #[trigger] u[k].next == Some(u[k + 1].id) by {
        if k < position - 1 {
            assert(s[k].next == Some(s[k + 1].id));
        } else if k == position - 1 {
            assert(s[position].next == Some(s[position + 1].id));
        } else {
            assert(s[k + 1].next == Some(s[k + 2].id));
        }
    }
    if u.len() > 0 {
        if position == s.len() - 1 {
            if position > 0 {
                assert(u[u.len() - 1].next == s[position].next);
            }
        } else {
            assert(u[u.len() - 1] == s[s.len() - 1]);
        }
    }
    assert forall|i: int, j: int| 0 <= i < u.len() && 0 <= j < u.len() && i != j implies #[trigger] u[i].id
        != #[trigger] u[j].id by {
        let i0 = if i < position { i } else { i + 1 };
        let j0 = if j < position { j } else { j + 1 };
        assert(s[i0].id != s[j0].id);
    }
    assert(ids(u) =~= ids(s).remove(position));
    let e = run_end(u, position);
    lemma_reparented_same_links(u, position, e, None);
    lemma_same_links_transfer(u, deleted(s, position));
    lemma_run_end_at_least(u, position);
    if u.len() > 0 && position > 0 {
        assert(u[0].parent == s[0].parent);
    }
}

proof fn lemma_deleted_shape(s: Seq<Item>, p: int)
    requires
        0 <= p < s.len(),
    ensures
        deleted(s, p).len() == s.len() - 1,
        forall|i: int| 0 <= i < p ==> (#[trigger] deleted(s, p)[i]).id == s[i].id && deleted(s, p)[i].parent == s[i].parent,
        forall|i: int| p <= i < s.len() - 1 ==> (#[trigger] deleted(s, p)[i]).id == s[i + 1].id,
        s[p].parent is Some ==> forall|i: int| p <= i < s.len() - 1 ==> (#[trigger] deleted(s, p)[i]).parent == s[i + 1].parent,
        s[p].parent is None ==> {
            let e = run_end(unlinked(s, p), p);
            &&& p <= e <= s.len() - 1
            &&& forall|i: int| p <= i < e ==> (#[trigger] deleted(s, p)[i]).parent is None
            &&& forall|i: int| e <= i < s.len() - 1 ==> (#[trigger] deleted(s, p)[i]).parent == s[i + 1].parent
            &&& e < s.len() - 1 ==> deleted(s, p)[e].parent is None
        },
{
    let u = unlinked(s, p);
    crate::ops::lemma_run_end_bounds(u, p);
}

#[verifier::rlimit(30)]
proof fn lemma_delete_parents_at(s: Seq<Item>, d: Seq<Item>, p: int, e: int, k: int)
    requires
        parents_match(s),
        0 <= p < s.len(),
        d.len() == s.len() - 1,
        forall|i: int| 0 <= i < p ==> (#[trigger] d[i]).id == s[i].id && d[i].parent == s[i].parent,
        forall|i: int| p <= i < d.len() ==> (#[trigger] d[i]).id == s[i + 1].id,
        s[p].parent is Some ==> forall|i: int| p <= i < d.len() ==> (#[trigger] d[i]).parent == s[i + 1].parent,
        s[p].parent is None ==> {
            &&& p <= e <= d.len()
            &&& forall|i: int| p <= i < e ==> (#[trigger] d[i]).parent is None
            &&& forall|i: int| e <= i < d.len() ==> (#[trigger] d[i]).parent == s[i + 1].parent
            &&& e < d.len() ==> d[e].parent is None
        },
        0 <= k < d.len(),
        d[k].parent is Some,
    ensures
        0 <= nearest_root(d, k),
        d[k].parent == Some(d[nearest_root(d, k)].id),
{
    if k < p {
        lemma_nearest_root_same_prefix(d, s, k);
        lemma_nearest_root_facts(s, k);
        assert(s[k].parent is Some);
    } else if s[p].parent is None {
        assert(k > e);
        lemma_nearest_root_shifted(d, s, e, k, 1);
        lemma_nearest_root_facts(d, k);
        assert(s[k + 1].parent is Some);
        assert(nearest_root(d, k) >= e);
    } else {
        assert(s[k + 1].parent is Some);
        let r = nearest_root(s, k + 1);
        lemma_nearest_root_facts(s, k + 1);
        if r > p {
            lemma_nearest_root_shifted(d, s, r - 1, k, 1);
        } else {
            assert(r != p);
            assert(s[k].parent is Some);
            assert(nearest_root(s, k + 1) == nearest_root(s, k));
            assert forall|i: int| r <= i < k implies ((#[trigger] d[i]).parent is None) == (s[i].parent is None) by {
                if i >= p {
                    assert(s[i + 1].parent is Some);
                }
            }
            lemma_nearest_root_shifted(d, s, r, k, 0);
        }
    }
}

/// Deleting an item keeps every indented item under the closest top-level item
/// before it: the children of a deleted top-level item go to the top level, and
/// the items after a deleted indented item stay under the same item.
pub proof fn lemma_delete_keeps_parents(s: Seq<Item>, position: int)
    requires
        parents_match(s),
        0 <= position < s.len(),
    ensures
        parents_match(deleted(s, position)),
{
    let p = position;
    let d = deleted(s, p);
    let e = run_end(unlinked(s, p), p);
    lemma_deleted_shape(s, p);
    assert forall|k: int| 0 <= k < d.len() && (#[trigger] d[k]).parent is Some implies {
        &&& 0 <= nearest_root(d, k)
        &&& d[k].parent == Some(d[nearest_root(d, k)].id)
    } by {
        lemma_delete_parents_at(s, d, p, e, k);
    }
}

/// Edits of an item's text, completion, recurrence or schedule keep the list
/// well formed.
pub proof fn lemma_field_edits_keep_well_formed(s: Seq<Item>, position: int, text: String, period: i64, start: Timing)
    requires
        well_formed(s),
        0 <= position < s.len(),
    ensures
        well_formed(edited(s, position, text)),
        well_formed(marked(s, position)),
        well_formed(recurred(s, position, period, start)),
        well_formed(scheduled(s, position, start)),
{
    assert(same_links(s, edited(s, position, text)));
    lemma_same_links_transfer(s, edited(s, position, text));
    assert(same_links(s, marked(s, position)));
    lemma_same_links_transfer(s, marked(s, position));
    assert(same_links(s, recurred(s, position, period, start)));
    lemma_same_links_transfer(s, recurred(s, position, period, start));
    assert(same_links(s, scheduled(s, position, start)));
    lemma_same_links_transfer(s, scheduled(s, position, start));
}

/// On a well-formed list, indenting any item is safe and keeps the list well
/// formed.
pub proof fn lemma_indent_keeps_well_formed(s: Seq<Item>, position: int)
    requires
        well_formed(s),
        0 <= position < s.len(),
    ensures
        s[position].parent is None && position > 0 ==> root_before(s, position),
        well_formed(indented(s, position)),
{
    if position > 0 {
        assert(s[0].parent is None);
    }
    assert(same_links(s, indented(s, position)));
    lemma_same_links_transfer(s, indented(s, position));
}

/// Indenting an item and indenting it again gives back the list, for every
/// top-level item but the first.
pub proof fn lemma_indent_twice_restores(s: Seq<Item>, position: int)
    requires
        0 < position < s.len(),
        s[position].parent is None,
    ensures
        indented(indented(s, position), position) == s,
{
    assert(indented(indented(s, position), position) =~= s);
}

/// Marking an item twice gives back the list.
pub proof fn lemma_mark_twice_restores(s: Seq<Item>, position: int)
    requires
        0 <= position < s.len(),
    ensures
        marked(marked(s, position), position) == s,
{
    assert(marked(marked(s, position), position) =~= s);
}

/// Toggling whether completed items are hidden twice gives back the list header.
pub proof fn lemma_hide_twice_restores(l: List)
    ensures
        (List { hide_complete: !(List { hide_complete: !l.hide_complete, ..l }).hide_complete, ..l }) == l,
{
}

/// Deleting an item just added gives back the list, unless the item that
/// followed the new one was indented (deleting lifts it to the top level).
pub proof fn lemma_add_then_delete_restores(s: Seq<Item>, position: int, text: String, id: i32)
    requires
        linked(s),
        0 <= position <= s.len(),
        position < s.len() ==> s[position].parent is None,
    ensures
        ({
            let next_id = if position < s.len() { Some(s[position].id) } else { None::<i32> };
            deleted(added(s, position, new_item(id, text, next_id)), position) == s
        }),
{
    let next_id = if position < s.len() { Some(s[position].id) } else { None::<i32> };
    let a = added(s, position, new_item(id, text, next_id));
    let u = unlinked(a, position);
    if position > 0 {
        if position < s.len() {
            assert(s[position - 1].next == Some(s[position].id));
        } else {
            assert(s[position - 1].next is None);
        }
    }
    assert(u =~= s);
    assert(run_end(u, position) == position);
    assert(deleted(a, position) =~= s);
}

/// Where the item at position `k` of a list came from before the item at
/// `old_pos` moved to `new_pos`.
pub open spec fn source_position(old_pos: int, new_pos: int, k: int) -> int {
    if k == new_pos {
        old_pos
    } else if old_pos < new_pos && old_pos <= k < new_pos {
        k + 1
    } else if new_pos < old_pos && new_pos < k <= old_pos {
        k - 1
    } else {
        k
    }
}

/// Where the item at position `j` goes when the item at `o` moves to `n`.
pub open spec fn target_position(o: int, n: int, j: int) -> int {
    if j == o {
        n
    } else if o < n && o < j <= n {
        j - 1
    } else if n < o && n <= j < o {
        j + 1
    } else {
        j
    }
}

pub(crate) proof fn lemma_reordered_shape(s: Seq<Item>, o: int, n: int)
    requires
        0 <= o < s.len(),
        0 <= n < s.len(),
        o != n,
    ensures
        reordered(s, o, n).len() == s.len(),
        forall|k: int| 0 <= k < s.len() ==> {
            &&& 0 <= #[trigger] source_position(o, n, k) < s.len()
            &&& reordered(s, o, n)[k].id == s[source_position(o, n, k)].id
            &&& reordered(s, o, n)[k].parent == (if k == n {
                move_parent(s, o, n)
            } else {
                s[source_position(o, n, k)].parent
            })
        },
        forall|i: int, j: int| 0 <= i < s.len() && 0 <= j < s.len() && i != j ==> source_position(o, n, i) != source_position(o, n, j),
{
}

proof fn lemma_reordered_links_down(s: Seq<Item>, o: int, n: int)
    requires
        linked(s),
        0 <= o < n < s.len(),
    ensures
        forall|k: int| 0 <= k < s.len() - 1 ==> #[trigger] reordered(s, o, n)[k].next == Some(reordered(s, o, n)[k + 1].id),
        reordered(s, o, n).last().next is None,
{
    let r = reordered(s, o, n);
    let len = s.len();
    lemma_reordered_shape(s, o, n);
    assert forall|k: int| 0 <= k < len - 1 implies #[trigger] r[k].next == Some(r[k + 1].id) by {
        if k < o - 1 {
            assert(s[k].next == Some(s[k + 1].id));
        } else if k == o - 1 {
            assert(s[o].next == Some(s[o + 1].id));
        } else if k < n - 1 {
            assert(s[k + 1].next == Some(s[k + 2].id));
        } else if k == n - 1 {
        } else if k == n {
            assert(s[n].next == Some(s[n + 1].id));
        } else {
            assert(s[k].next == Some(s[k + 1].id));
        }
    }
    if n == len - 1 {
        assert(r[len - 1].next == s[n].next);
    } else {
        assert(r[len - 1] == s[len - 1]);
    }
}

proof fn lemma_reordered_links_up(s: Seq<Item>, o: int, n: int)
    requires
        linked(s),
        0 <= n < o < s.len(),
    ensures
        forall|k: int| 0 <= k < s.len() - 1 ==> #[trigger] reordered(s, o, n)[k].next == Some(reordered(s, o, n)[k + 1].id),
        reordered(s, o, n).last().next is None,
{
    let r = reordered(s, o, n);
    let len = s.len();
    lemma_reordered_shape(s, o, n);
    assert forall|k: int| 0 <= k < len - 1 implies #[trigger] r[k].next == Some(r[k + 1].id) by {
        if k < n - 1 {
            assert(s[k].next == Some(s[k + 1].id));
        } else if k == n - 1 {
        } else if k == n {
        } else if k < o {
            assert(s[k - 1].next == Some(s[k].id));
        } else if k == o {
            assert(s[o].next == Some(s[o + 1].id));
        } else {
            assert(s[k].next == Some(s[k + 1].id));
        }
    }
    if o == len - 1 {
        assert(r[len - 1].next == s[o].next);
    } else {
        assert(r[len - 1] == s[len - 1]);
    }
}

pub(crate) proof fn lemma_reordered_linked(s: Seq<Item>, o: int, n: int)
    requires
        linked(s),
        distinct_ids(s),
        0 <= o < s.len(),
        0 <= n < s.len(),
        o != n,
    ensures
        linked(reordered(s, o, n)),
        distinct_ids(reordered(s, o, n)),
        ids(reordered(s, o, n)) == ids(s).remove(o).insert(n, s[o].id),
{
    let r = reordered(s, o, n);
    let len = s.len();
    lemma_reordered_shape(s, o, n);
    if o < n {
        lemma_reordered_links_down(s, o, n);
    } else {
        lemma_reordered_links_up(s, o, n);
    }
    assert forall|i: int, j: int| 0 <= i < len && 0 <= j < len && i != j implies #[trigger] r[i].id
        != #[trigger] r[j].id by {
        assert(s[source_position(o, n, i)].id != s[source_position(o, n, j)].id);
    }
    assert(ids(r) =~= ids(s).remove(o).insert(n, s[o].id)) by {
        assert forall|k: int| 0 <= k < len implies ids(r)[k] == ids(s).remove(o).insert(n, s[o].id)[k] by {
            assert(r[k].id == s[source_position(o, n, k)].id);
        }
    }
}

proof fn lemma_same_links_trans(a: Seq<Item>, b: Seq<Item>, c: Seq<Item>)
    requires
        same_links(a, b),
        same_links(b, c),
    ensures
        same_links(a, c),
{
    assert forall|k: int| 0 <= k < a.len() implies (#[trigger] a[k]).id == c[k].id && a[k].next == c[k].next by {
        assert(b[k].id == c[k].id);
    }
}

proof fn lemma_children_same_links(s: Seq<Item>, o: int, n: int)
    requires
        0 <= o < s.len(),
        0 <= n < s.len(),
        o != n,
    ensures
        same_links(s, children_after_move(s, o, n).0),
        o > 0 && n > 0 ==> children_after_move(s, o, n).0[0].parent == s[0].parent,
        o == 0 || n == 0 ==> children_after_move(s, o, n).0[0].parent == (if o == 0 {
            None::<i32>
        } else {
            s[0].parent
        }),
{
    let s0 = if o > 0 { s } else { s.update(0, with_parent(s[0], None)) };
    assert(same_links(s, s0));
    let root = if o > 0 { nearest_root(s, o) } else { 0 };
    if o < n {
        let a = if o == 0 { 1 } else { o };
        let e1 = run_end(s0, a);
        let s1 = reparented(s0, a, e1, Some(s0[root].id));
        lemma_reparented_same_links(s0, a, e1, Some(s0[root].id));
        lemma_same_links_trans(s, s0, s1);
        if e1 < n || o == 0 {
            let e2 = run_end(s1, n + 1);
            lemma_reparented_same_links(s1, n + 1, e2, Some(s1[n].id));
            lemma_same_links_trans(s, s1, reparented(s1, n + 1, e2, Some(s1[n].id)));
        }
    } else {
        let e1 = run_end(s0, n + 1);
        let s1 = reparented(s0, n + 1, e1, Some(s0[n].id));
        lemma_reparented_same_links(s0, n + 1, e1, Some(s0[n].id));
        lemma_same_links_trans(s, s0, s1);
        if e1 <= o {
            let root2 = if s1[o].parent is None { o } else { root };
            let e2 = run_end(s1, o + 1);
            lemma_reparented_same_links(s1, o + 1, e2, Some(s1[root2].id));
            lemma_same_links_trans(s, s1, reparented(s1, o + 1, e2, Some(s1[root2].id)));
        }
    }
}

/// On a well-formed list, moving any item to any place is safe, keeps the list
/// well formed, and moves exactly that item's id from `old_pos` to `new_pos`.
pub proof fn lemma_move_keeps_well_formed(s: Seq<Item>, old_pos: int, new_pos: int)
    requires
        well_formed(s),
        0 <= old_pos < s.len(),
        0 <= new_pos < s.len(),
    ensures
        move_safe(s, old_pos, new_pos),
        well_formed(moved(s, old_pos, new_pos)),
        ids(moved(s, old_pos, new_pos)) == ids(s).remove(old_pos).insert(new_pos, s[old_pos].id),
{
    let o = old_pos;
    let n = new_pos;
    assert(s[0].parent is None);
    if o == n {
        assert(ids(s).remove(o).insert(n, s[o].id) =~= ids(s));
        return;
    }
    let r = reordered(s, o, n);
    lemma_reordered_linked(s, o, n);
    lemma_reordered_shape(s, o, n);
    if r[n].parent is None {
        lemma_children_same_links(r, o, n);
        lemma_same_links_transfer(r, moved(s, o, n));
        if o > 0 && n > 0 {
            assert(source_position(o, n, 0) == 0);
        }
    } else {
        if n > 0 && o > 0 {
            assert(source_position(o, n, 0) == 0);
        }
        if n == 0 {
            assert(r[0].parent is None);
        }
        if o == 0 {
            assert(move_parent(s, o, n) is None);
            assert(r[n].parent is None);
        }
    }
}

/// An indented item at `k` whose parent is the top-level item at `j`, with only
/// indented items between them, sits under the closest top-level item before it.
proof fn lemma_parent_witness(t: Seq<Item>, k: int, j: int)
    requires
        0 <= j < k < t.len(),
        t[j].parent is None,
        forall|i: int| j < i < k ==> (#[trigger] t[i]).parent is Some,
        t[k].parent == Some(t[j].id),
    ensures
        0 <= nearest_root(t, k),
        t[k].parent == Some(t[nearest_root(t, k)].id),
{
    lemma_nearest_root_is(t, j, k);
}

/// Moving an indented item anywhere but to the front keeps every indented item
/// under the closest top-level item before it.
#[verifier::rlimit(30)]
proof fn lemma_move_indented_keeps_parents(s: Seq<Item>, o: int, n: int)
    requires
        well_formed(s),
        parents_match(s),
        0 <= o < s.len(),
        0 < n < s.len(),
        o != n,
        s[o].parent is Some,
    ensures
        parents_match(reordered(s, o, n)),
{
    let r = reordered(s, o, n);
    lemma_reordered_shape(s, o, n);
    assert forall|k: int| 0 <= k < r.len() && (#[trigger] r[k]).parent is Some implies {
        &&& 0 <= nearest_root(r, k)
        &&& r[k].parent == Some(r[nearest_root(r, k)].id)
    } by {
        // `i`: where the item at `k` stands in `s`; for the moved item, the
        // place it is put before
        let i = if k == n {
            if o < n {
                n + 1
            } else {
                n
            }
        } else {
            source_position(o, n, k)
        };
        let q = nearest_root(s, i);
        lemma_nearest_root_facts(s, i);
        assert(s[0].parent is None);
        assert(q >= 0);
        assert(q != o);
        if k != n {
            assert(s[i].parent is Some);
        }
        assert(r[k].parent == Some(s[q].id));
        let j = target_position(o, n, q);
        assert(source_position(o, n, j) == q);
        assert(j != n);
        assert(j < k);
        assert forall|t: int| j < t < k implies (#[trigger] r[t]).parent is Some by {
            if t != n {
                let st = source_position(o, n, t);
                assert(q < st < i);
                assert(st != o);
            }
        }
        lemma_parent_witness(r, k, j);
    }
}

/// The list after an item moved up to stand top-level at `n` and the children
/// around both places were mended: where its runs of mended items end (`e1`,
/// `e2`) and which item the moved item's former children went under (`root2`).
proof fn lemma_reordered_up(s: Seq<Item>, o: int, n: int)
    requires
        0 <= n < o < s.len(),
    ensures
        reordered(s, o, n).len() == s.len(),
        forall|k: int| 0 <= k < s.len() ==> (#[trigger] reordered(s, o, n)[k]).id == (if k < n {
            s[k].id
        } else if k == n {
            s[o].id
        } else if k <= o {
            s[k - 1].id
        } else {
            s[k].id
        }),
        forall|k: int| 0 <= k < s.len() && k != n ==> (#[trigger] reordered(s, o, n)[k]).parent == (if k < n {
            s[k].parent
        } else if k <= o {
            s[k - 1].parent
        } else {
            s[k].parent
        }),
{
    lemma_reordered_shape(s, o, n);
    assert forall|k: int| 0 <= k < s.len() implies source_position(o, n, k) == (if k < n {
        k
    } else if k == n {
        o
    } else if k <= o {
        k - 1
    } else {
        k
    }) by {}
}

#[verifier::rlimit(40)]
proof fn lemma_move_up_shape(s: Seq<Item>, o: int, n: int) -> (b: (int, int, int))
    requires
        0 <= n < o < s.len(),
        reordered(s, o, n)[n].parent is None,
    ensures
        ({
            let m = children_after_move(reordered(s, o, n), o, n).0;
            let (e1, root2, e2) = b;
            &&& m.len() == s.len()
            &&& forall|k: int| 0 <= k < s.len() ==> (#[trigger] m[k]).id == (if k < n {
                s[k].id
            } else if k == n {
                s[o].id
            } else if k <= o {
                s[k - 1].id
            } else {
                s[k].id
            })
            &&& n + 1 <= e1 <= s.len()
            &&& forall|k: int| 0 <= k < n ==> (#[trigger] m[k]).parent == s[k].parent
            &&& m[n].parent is None
            &&& forall|k: int| n < k < e1 ==> (#[trigger] m[k]).parent == Some(s[o].id)
            &&& e1 <= o ==> {
                &&& s[e1 - 1].parent is None
                &&& forall|k: int| e1 <= k <= o ==> (#[trigger] m[k]).parent == s[k - 1].parent
                &&& e1 <= root2 <= o
                &&& m[root2].parent is None
                &&& forall|t: int| root2 < t <= o ==> (#[trigger] m[t]).parent is Some
                &&& o + 1 <= e2 <= s.len()
                &&& forall|k: int| o < k < e2 ==> (#[trigger] m[k]).parent == Some(m[root2].id)
                &&& forall|k: int| e2 <= k < s.len() ==> (#[trigger] m[k]).parent == s[k].parent
                &&& e2 < s.len() ==> s[e2].parent is None
            }
            &&& o < e1 ==> {
                &&& forall|k: int| e1 <= k < s.len() ==> (#[trigger] m[k]).parent == s[k].parent
                &&& e1 < s.len() ==> s[e1].parent is None
            }
        }),
{
    let r = reordered(s, o, n);
    lemma_reordered_up(s, o, n);
    let root = nearest_root(r, o);
    let e1 = run_end(r, n + 1);
    crate::ops::lemma_run_end_bounds(r, n + 1);
    let s1 = reparented(r, n + 1, e1, Some(r[n].id));
    lemma_nearest_root_facts(r, o);
    if e1 <= o {
        let root2 = if s1[o].parent is None { o } else { root };
        let e2 = run_end(s1, o + 1);
        crate::ops::lemma_run_end_bounds(s1, o + 1);
        if root2 != o {
            assert(r[n].parent is None);
            assert(root >= n);
            if e1 < o {
                assert(r[e1].parent is None);
            }
        }
        (e1, root2, e2)
    } else {
        (e1, 0, 0)
    }
}

/// The indented item at `k` of the list `m` left by an upward move sits under
/// the closest top-level item before it.
#[verifier::rlimit(30)]
proof fn lemma_move_up_parent_at(s: Seq<Item>, m: Seq<Item>, o: int, n: int, e1: int, root2: int, e2: int, k: int)
    requires
        parents_match(s),
        s[0].parent is None,
        0 <= n < o < s.len(),
        m.len() == s.len(),
        forall|k: int| 0 <= k < s.len() ==> (#[trigger] m[k]).id == (if k < n {
            s[k].id
        } else if k == n {
            s[o].id
        } else if k <= o {
            s[k - 1].id
        } else {
            s[k].id
        }),
        n + 1 <= e1 <= s.len(),
        forall|k: int| 0 <= k < n ==> (#[trigger] m[k]).parent == s[k].parent,
        m[n].parent is None,
        forall|k: int| n < k < e1 ==> (#[trigger] m[k]).parent == Some(s[o].id),
        e1 <= o ==> {
            &&& s[e1 - 1].parent is None
            &&& forall|k: int| e1 <= k <= o ==> (#[trigger] m[k]).parent == s[k - 1].parent
            &&& e1 <= root2 <= o
            &&& m[root2].parent is None
            &&& forall|t: int| root2 < t <= o ==> (#[trigger] m[t]).parent is Some
            &&& o + 1 <= e2 <= s.len()
            &&& forall|k: int| o < k < e2 ==> (#[trigger] m[k]).parent == Some(m[root2].id)
            &&& forall|k: int| e2 <= k < s.len() ==> (#[trigger] m[k]).parent == s[k].parent
            &&& e2 < s.len() ==> s[e2].parent is None
        },
        o < e1 ==> {
            &&& forall|k: int| e1 <= k < s.len() ==> (#[trigger] m[k]).parent == s[k].parent
            &&& e1 < s.len() ==> s[e1].parent is None
        },
        0 <= k < s.len(),
        m[k].parent is Some,
    ensures
        0 <= nearest_root(m, k),
        m[k].parent == Some(m[nearest_root(m, k)].id),
{
    if k < n {
        let q = nearest_root(s, k);
        lemma_nearest_root_facts(s, k);
        assert(s[k].parent is Some);
        lemma_parent_witness(m, k, q);
    } else if k < e1 {
        assert(k > n);
        lemma_parent_witness(m, k, n);
    } else if e1 <= o {
        if k <= o {
            assert(k != e1);
            let q = nearest_root(s, k - 1);
            lemma_nearest_root_facts(s, k - 1);
            assert(s[k - 1].parent is Some);
            assert(q >= e1 - 1);
            assert forall|t: int| q + 1 < t < k implies (#[trigger] m[t]).parent is Some by {
                assert(s[t - 1].parent is Some);
            }
            lemma_parent_witness(m, k, q + 1);
        } else if k < e2 {
            lemma_parent_witness(m, k, root2);
        } else {
            assert(k != e2);
            let q = nearest_root(s, k);
            lemma_nearest_root_facts(s, k);
            assert(s[k].parent is Some);
            assert(q >= e2);
            lemma_parent_witness(m, k, q);
        }
    } else {
        assert(k != e1);
        let q = nearest_root(s, k);
        lemma_nearest_root_facts(s, k);
        assert(s[k].parent is Some);
        assert(q >= e1);
        lemma_parent_witness(m, k, q);
    }
}

/// Moving an item up so that it stands top-level at its new place, then mending
/// the children around both places, keeps every indented item under the
/// closest top-level item before it.
proof fn lemma_move_up_keeps_parents(s: Seq<Item>, o: int, n: int)
    requires
        well_formed(s),
        parents_match(s),
        0 <= n < o < s.len(),
        reordered(s, o, n)[n].parent is None,
    ensures
        parents_match(children_after_move(reordered(s, o, n), o, n).0),
{
    let m = children_after_move(reordered(s, o, n), o, n).0;
    let (e1, root2, e2) = lemma_move_up_shape(s, o, n);
    assert(s[0].parent is None);
    assert forall|k: int| 0 <= k < m.len() && (#[trigger] m[k]).parent is Some implies {
        &&& 0 <= nearest_root(m, k)
        &&& m[k].parent == Some(m[nearest_root(m, k)].id)
    } by {
        lemma_move_up_parent_at(s, m, o, n, e1, root2, e2, k);
    }
}

proof fn lemma_reordered_down(s: Seq<Item>, o: int, n: int)
    requires
        0 <= o < n < s.len(),
    ensures
        reordered(s, o, n).len() == s.len(),
        forall|k: int| 0 <= k < s.len() ==> (#[trigger] reordered(s, o, n)[k]).id == (if k < o {
            s[k].id
        } else if k < n {
            s[k + 1].id
        } else if k == n {
            s[o].id
        } else {
            s[k].id
        }),
        forall|k: int| 0 <= k < s.len() && k != n ==> (#[trigger] reordered(s, o, n)[k]).parent == (if k < o {
            s[k].parent
        } else if k < n {
            s[k + 1].parent
        } else {
            s[k].parent
        }),
{
    lemma_reordered_shape(s, o, n);
    assert forall|k: int| 0 <= k < s.len() implies source_position(o, n, k) == (if k < o {
        k
    } else if k < n {
        k + 1
    } else if k == n {
        o
    } else {
        k
    }) by {}
}

/// The list after a top-level item moved down to `n` and the children around
/// both places were mended: where the first run of mended items starts (`a`)
/// and ends (`e1`), the item it went under (`root`), and where the second run
/// ends (`e2`).
#[verifier::rlimit(40)]
proof fn lemma_move_down_shape(s: Seq<Item>, o: int, n: int) -> (b: (int, int, int, int))
    requires
        0 <= o < n < s.len(),
        s[0].parent is None,
        s[o].parent is None,
    ensures
        ({
            let m = children_after_move(reordered(s, o, n), o, n).0;
            let (a, root, e1, e2) = b;
            let second = e1 < n || o == 0;
            &&& m.len() == s.len()
            &&& forall|k: int| 0 <= k < s.len() ==> (#[trigger] m[k]).id == (if k < o {
                s[k].id
            } else if k < n {
                s[k + 1].id
            } else if k == n {
                s[o].id
            } else {
                s[k].id
            })
            &&& a == (if o == 0 { 1 } else { o })
            &&& a <= e1 <= n
            &&& 0 <= root < a
            &&& m[root].parent is None
            &&& forall|t: int| root < t < a ==> (#[trigger] m[t]).parent is Some
            &&& o > 0 ==> forall|k: int| 0 <= k < o ==> (#[trigger] m[k]).parent == s[k].parent
            &&& forall|k: int| a <= k < e1 ==> (#[trigger] m[k]).parent == Some(m[root].id)
            &&& forall|k: int| e1 <= k < n ==> (#[trigger] m[k]).parent == s[k + 1].parent
            &&& e1 < n ==> s[e1 + 1].parent is None
            &&& m[n].parent is None
            &&& second ==> {
                &&& n + 1 <= e2 <= s.len()
                &&& forall|k: int| n < k < e2 ==> (#[trigger] m[k]).parent == Some(s[o].id)
                &&& forall|k: int| e2 <= k < s.len() ==> (#[trigger] m[k]).parent == s[k].parent
                &&& e2 < s.len() ==> s[e2].parent is None
            }
            &&& !second ==> {
                &&& forall|k: int| n < k < s.len() ==> (#[trigger] m[k]).parent == s[k].parent
                &&& forall|t: int| o < t <= n ==> (#[trigger] s[t]).parent is Some
            }
        }),
{
    let r = reordered(s, o, n);
    lemma_reordered_down(s, o, n);
    let s0 = if o > 0 { r } else { r.update(0, with_parent(r[0], None)) };
    let root = if o > 0 { nearest_root(r, o) } else { 0 };
    let a = if o == 0 { 1 } else { o };
    let e1 = run_end(s0, a);
    crate::ops::lemma_run_end_bounds(s0, a);
    assert(r[n].parent is None);
    assert(s0[n].parent is None);
    if o > 0 {
        lemma_nearest_root_same_prefix(r, s, o);
        lemma_nearest_root_facts(s, o);
        lemma_nearest_root_facts(r, o);
    }
    let s1 = reparented(s0, a, e1, Some(s0[root].id));
    if e1 < n || o == 0 {
        let e2 = run_end(s1, n + 1);
        crate::ops::lemma_run_end_bounds(s1, n + 1);
        (a, root, e1, e2)
    } else {
        assert forall|t: int| o < t <= n implies (#[trigger] s[t]).parent is Some by {
            crate::ops::lemma_run_end_bounds(s0, a);
            assert(s0[t - 1].parent is Some);
        }
        (a, root, e1, 0)
    }
}

/// The indented item at `k` of the list `m` left by a downward move of a
/// top-level item sits under the closest top-level item before it.
#[verifier::rlimit(30)]
proof fn lemma_move_down_parent_at(
    s: Seq<Item>,
    m: Seq<Item>,
    o: int,
    n: int,
    a: int,
    root: int,
    e1: int,
    e2: int,
    k: int,
)
    requires
        parents_match(s),
        s[0].parent is None,
        s[o].parent is None,
        0 <= o < n < s.len(),
        m.len() == s.len(),
        forall|k: int| 0 <= k < s.len() ==> (#[trigger] m[k]).id == (if k < o {
            s[k].id
        } else if k < n {
            s[k + 1].id
        } else if k == n {
            s[o].id
        } else {
            s[k].id
        }),
        a == (if o == 0 { 1 } else { o }),
        a <= e1 <= n,
        0 <= root < a,
        m[root].parent is None,
        forall|t: int| root < t < a ==> (#[trigger] m[t]).parent is Some,
        o > 0 ==> forall|k: int| 0 <= k < o ==> (#[trigger] m[k]).parent == s[k].parent,
        forall|k: int| a <= k < e1 ==> (#[trigger] m[k]).parent == Some(m[root].id),
        forall|k: int| e1 <= k < n ==> (#[trigger] m[k]).parent == s[k + 1].parent,
        e1 < n ==> s[e1 + 1].parent is None,
        m[n].parent is None,
        e1 < n || o == 0 ==> {
            &&& n + 1 <= e2 <= s.len()
            &&& forall|k: int| n < k < e2 ==> (#[trigger] m[k]).parent == Some(s[o].id)
            &&& forall|k: int| e2 <= k < s.len() ==> (#[trigger] m[k]).parent == s[k].parent
            &&& e2 < s.len() ==> s[e2].parent is None
        },
        !(e1 < n || o == 0) ==> {
            &&& forall|k: int| n < k < s.len() ==> (#[trigger] m[k]).parent == s[k].parent
            &&& forall|t: int| o < t <= n ==> (#[trigger] s[t]).parent is Some
        },
        0 <= k < s.len(),
        m[k].parent is Some,
    ensures
        0 <= nearest_root(m, k),
        m[k].parent == Some(m[nearest_root(m, k)].id),
{
    if k < a {
        assert(k != root);
        if o == 0 {
            assert(false);
        }
        let q = nearest_root(s, k);
        lemma_nearest_root_facts(s, k);
        assert(s[k].parent is Some);
        lemma_parent_witness(m, k, q);
    } else if k < e1 {
        lemma_parent_witness(m, k, root);
    } else if k < n {
        assert(k != e1);
        let q = nearest_root(s, k + 1);
        lemma_nearest_root_facts(s, k + 1);
        assert(s[k + 1].parent is Some);
        assert(q >= e1 + 1);
        assert forall|t: int| q - 1 < t < k implies (#[trigger] m[t]).parent is Some by {
            assert(s[t + 1].parent is Some);
        }
        lemma_parent_witness(m, k, q - 1);
    } else if e1 < n || o == 0 {
        assert(k > n);
        if k < e2 {
            lemma_parent_witness(m, k, n);
        } else {
            assert(k != e2);
            let q = nearest_root(s, k);
            lemma_nearest_root_facts(s, k);
            assert(s[k].parent is Some);
            assert(q >= e2);
            lemma_parent_witness(m, k, q);
        }
    } else {
        assert(k > n);
        let q = nearest_root(s, k);
        lemma_nearest_root_facts(s, k);
        assert(s[k].parent is Some);
        if q > n {
            lemma_parent_witness(m, k, q);
        } else {
            assert(q >= o);
            assert(q == o);
            lemma_parent_witness(m, k, n);
        }
    }
}

/// Moving a top-level item down, then mending the children around both
/// places, keeps every indented item under the closest top-level item before it.
proof fn lemma_move_down_keeps_parents(s: Seq<Item>, o: int, n: int)
    requires
        well_formed(s),
        parents_match(s),
        0 <= o < n < s.len(),
        s[o].parent is None,
    ensures
        parents_match(children_after_move(reordered(s, o, n), o, n).0),
{
    let m = children_after_move(reordered(s, o, n), o, n).0;
    assert(s[0].parent is None);
    let (a, root, e1, e2) = lemma_move_down_shape(s, o, n);
    assert forall|k: int| 0 <= k < m.len() && (#[trigger] m[k]).parent is Some implies {
        &&& 0 <= nearest_root(m, k)
        &&& m[k].parent == Some(m[nearest_root(m, k)].id)
    } by {
        lemma_move_down_parent_at(s, m, o, n, a, root, e1, e2, k);
    }
}

/// Moving any item keeps every indented item under the closest top-level item
/// before it: an indented item goes under the top-level item before its new
/// place, and when a top-level item moves, the items it leaves behind go under
/// the top-level item before them and those it comes before go under it.
pub proof fn lemma_move_keeps_parents(s: Seq<Item>, old_pos: int, new_pos: int)
    requires
        well_formed(s),
        parents_match(s),
        0 <= old_pos < s.len(),
        0 <= new_pos < s.len(),
    ensures
        parents_match(moved(s, old_pos, new_pos)),
{
    let o = old_pos;
    let n = new_pos;
    if o == n {
        return;
    }
    let r = reordered(s, o, n);
    lemma_reordered_shape(s, o, n);
    if s[o].parent is Some && n > 0 {
        assert(r[n].parent is Some);
        lemma_move_indented_keeps_parents(s, o, n);
    } else if o < n {
        assert(s[o].parent is None);
        assert(r[n].parent is None);
        lemma_move_down_keeps_parents(s, o, n);
    } else {
        assert(r[n].parent is None);
        lemma_move_up_keeps_parents(s, o, n);
    }
}

#[verifier::rlimit(30)]
proof fn lemma_same_parents_match(a: Seq<Item>, b: Seq<Item>)
    requires
        parents_match(a),
        a.len() == b.len(),
        forall|k: int| 0 <= k < a.len() ==> (#[trigger] a[k]).id == b[k].id && a[k].parent == b[k].parent,
    ensures
        parents_match(b),
{
    assert forall|k: int| 0 <= k < b.len() && (#[trigger] b[k]).parent is Some implies {
        &&& 0 <= nearest_root(b, k)
        &&& b[k].parent == Some(b[nearest_root(b, k)].id)
    } by {
        assert forall|i: int| 0 <= i < k implies ((#[trigger] a[i]).parent is None) == (b[i].parent is None) by {
            assert(a[i].parent == b[i].parent);
        }
        lemma_nearest_root_same_prefix(a, b, k);
        assert(a[k].parent == b[k].parent);
        let q = nearest_root(a, k);
        lemma_nearest_root_facts(a, k);
        assert(a[q].id == b[q].id);
    }
}

/// Edits of an item's text, completion, recurrence or schedule keep every
/// indented item under the closest top-level item before it.
pub proof fn lemma_field_edits_keep_parents(s: Seq<Item>, position: int, text: String, period: i64, start: Timing)
    requires
        parents_match(s),
        0 <= position < s.len(),
    ensures
        parents_match(edited(s, position, text)),
        parents_match(marked(s, position)),
        parents_match(recurred(s, position, period, start)),
        parents_match(scheduled(s, position, start)),
{
    lemma_same_parents_match(s, edited(s, position, text));
    lemma_same_parents_match(s, marked(s, position));
    lemma_same_parents_match(s, recurred(s, position, period, start));
    lemma_same_parents_match(s, scheduled(s, position, start));
}

/// Adding an item keeps every indented item under the closest top-level item
/// before it, where the new item goes before a top-level item or at the end
/// (placed before an indented item, the new top-level item would stand between
/// that item and its parent).
#[verifier::rlimit(30)]
pub proof fn lemma_add_keeps_parents(s: Seq<Item>, position: int, text: String, next_id: Option<i32>, id: i32)
    requires
        parents_match(s),
        0 <= position <= s.len(),
        position < s.len() ==> s[position].parent is None,
    ensures
        parents_match(added(s, position, new_item(id, text, next_id))),
{
    let p = position;
    let t = added(s, p, new_item(id, text, next_id));
    assert(t.len() == s.len() + 1);
    assert forall|k: int| 0 <= k < t.len() implies (#[trigger] t[k]).id == (if k < p {
        s[k].id
    } else if k == p {
        id
    } else {
        s[k - 1].id
    }) && t[k].parent == (if k < p {
        s[k].parent
    } else if k == p {
        None::<i32>
    } else {
        s[k - 1].parent
    }) by {}
    assert forall|k: int| 0 <= k < t.len() && (#[trigger] t[k]).parent is Some implies {
        &&& 0 <= nearest_root(t, k)
        &&& t[k].parent == Some(t[nearest_root(t, k)].id)
    } by {
        if k < p {
            let q = nearest_root(s, k);
            lemma_nearest_root_facts(s, k);
            assert(s[k].parent is Some);
            lemma_parent_witness(t, k, q);
        } else {
            assert(k > p);
            let q = nearest_root(s, k - 1);
            lemma_nearest_root_facts(s, k - 1);
            assert(s[k - 1].parent is Some);
            assert(q >= p);
            assert forall|i: int| q + 1 < i < k implies (#[trigger] t[i]).parent is Some by {
                assert(s[i - 1].parent is Some);
            }
            lemma_parent_witness(t, k, q + 1);
        }
    }
}

/// Indenting or unindenting an item of a well-formed list keeps every indented
/// item under the closest top-level item before it, where the item after it
/// is top-level or there is none (an item with children would take them along
/// when indented, and one unindented in the middle of a run would stand between
/// the rest of the run and its parent).
#[verifier::rlimit(30)]
pub proof fn lemma_indent_keeps_parents(s: Seq<Item>, position: int)
    requires
        well_formed(s),
        parents_match(s),
        0 <= position < s.len(),
        position + 1 < s.len() ==> s[position + 1].parent is None,
    ensures
        parents_match(indented(s, position)),
{
    let p = position;
    let t = indented(s, p);
    assert(s[0].parent is None);
    assert forall|k: int| 0 <= k < t.len() && (#[trigger] t[k]).parent is Some implies {
        &&& 0 <= nearest_root(t, k)
        &&& t[k].parent == Some(t[nearest_root(t, k)].id)
    } by {
        if k < p {
            let q = nearest_root(s, k);
            lemma_nearest_root_facts(s, k);
            assert(s[k].parent is Some);
            lemma_parent_witness(t, k, q);
        } else if k == p {
            let q = nearest_root(s, p);
            lemma_nearest_root_facts(s, p);
            lemma_parent_witness(t, k, q);
        } else {
            assert(k > p + 1);
            let q = nearest_root(s, k);
            lemma_nearest_root_facts(s, k);
            assert(s[k].parent is Some);
            assert(q >= p + 1);
            lemma_parent_witness(t, k, q);
        }
    }
}

proof fn lemma_open_lines_members(items: Seq<Item>, n: int)
    requires
        0 <= n <= items.len(),
    ensures
        forall|k: int| 0 <= k < n && #[trigger] shown_open(items, k) ==> open_lines(items, n).contains(
            Line::Item(item_line(items[k], k as usize)),
        ),
        forall|j: int| 0 <= j < open_lines(items, n).len() ==> exists|k: int|
            0 <= k < n && shown_open(items, k) && #[trigger] open_lines(items, n)[j] == Line::Item(
                item_line(items[k], k as usize),
            ),
    decreases n,
{
    broadcast use vstd::seq_lib::group_seq_properties;

    if n > 0 {
        lemma_open_lines_members(items, n - 1);
        let prev = open_lines(items, n - 1);
        let cur = open_lines(items, n);
        assert forall|k: int| 0 <= k < n && #[trigger] shown_open(items, k) implies cur.contains(
            Line::Item(item_line(items[k], k as usize)),
        ) by {
            if k < n - 1 {
                let j = choose|j: int| 0 <= j < prev.len() && prev[j] == Line::Item(item_line(items[k], k as usize));
                assert(cur[j] == prev[j]);
            } else {
                assert(cur.last() == Line::Item(item_line(items[k], k as usize)));
            }
        }
        assert forall|j: int| 0 <= j < cur.len() implies exists|k: int|
            0 <= k < n && shown_open(items, k) && #[trigger] cur[j] == Line::Item(item_line(items[k], k as usize)) by {
            if j < prev.len() {
                assert(cur[j] == prev[j]);
                let k = choose|k: int|
                    0 <= k < n - 1 && shown_open(items, k) && #[trigger] prev[j] == Line::Item(item_line(items[k], k as usize));
                assert(shown_open(items, k));
            } else {
                assert(shown_open(items, n - 1));
                assert(cur[j] == Line::Item(item_line(items[n - 1], (n - 1) as usize)));
            }
        }
    }
}

/// A list with check boxes is shown in two sections. The open section shows,
/// in order, exactly the open items whose top-level item is open too; every
/// other item is listed in the completed section. So an item under a completed
/// top-level item is shown as completed, and a completed indented item has its
/// top-level item listed with it. The completed section lists nothing open but
/// top-level items given as context.
pub proof fn lemma_completion_sections(items: Seq<Item>)
    requires
        items.len() <= usize::MAX,
    ensures
        ({
            let n = items.len() as int;
            let open = gathered(items, n).4;
            let completed = gathered(items, n).1;
            &&& open == open_lines(items, n)
            &&& forall|k: int| 0 <= k < n && #[trigger] shown_open(items, k) ==> open.contains(
                Line::Item(item_line(items[k], k as usize)),
            )
            &&& forall|j: int| 0 <= j < open.len() ==> exists|k: int|
                0 <= k < n && shown_open(items, k) && #[trigger] open[j] == Line::Item(item_line(items[k], k as usize))
            &&& forall|k: int| 0 <= k < n && !#[trigger] shown_open(items, k) ==> completed.contains(entry(items, k))
            &&& forall|k: int|
                0 <= k < n && (#[trigger] items[k]).parent is Some && nearest_root(items, k) >= 0 && items[nearest_root(
                    items,
                    k,
                )].complete ==> !shown_open(items, k) && completed.contains(entry(items, k))
            &&& forall|k: int|
                0 <= k < n && (#[trigger] items[k]).complete && items[k].parent is Some && nearest_root(items, k) >= 0
                    ==> completed.contains(entry(items, nearest_root(items, k)))
            &&& forall|j: int| 0 <= j < completed.len() ==> {
                &&& (#[trigger] completed[j]) == entry(items, completed[j].index as int)
                &&& is_stub(completed[j]) || !shown_open(items, completed[j].index as int)
            }
        }),
{
    let n = items.len() as int;
    lemma_gathered(items, n);
    lemma_open_lines_members(items, n);
    assert forall|k: int|
        0 <= k < n && (#[trigger] items[k]).parent is Some && nearest_root(items, k) >= 0 && items[nearest_root(
            items,
            k,
        )].complete implies !shown_open(items, k) && gathered(items, n).1.contains(entry(items, k)) by {
        assert(!shown_open(items, k));
    }
}

} // verus!
