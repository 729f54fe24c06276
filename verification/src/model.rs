//! The items and lists of the to-do manager and the shape their order takes.

use vstd::prelude::*;

verus! {

/// How often an item comes back: every `period` seconds, counted from `time_last`.
#[derive(Debug, Clone, Copy, PartialEq, Eq)]
pub struct Recurrence {
    pub period: i64,
    pub time_last: i64,
}

/// One entry of a to-do list.
///
/// `next` is the id of the item shown after this one (`None` for the last item);
/// `parent` is set when the item is indented under a top-level item.
#[derive(Debug, PartialEq, Eq)]
pub struct Item {
    pub id: i32,
    pub complete: bool,
    pub text: String,
    pub parent: Option<i32>,
    pub next: Option<i32>,
    pub recurrence: Option<Recurrence>,
    pub schedule_date: Option<i64>,
}

impl Clone for Item {
    fn clone(&self) -> (r: Self)
        ensures
            r == *self,
    {
        Item {
            id: self.id,
            complete: self.complete,
            text: self.text.clone(),
            parent: self.parent,
            next: self.next,
            recurrence: self.recurrence,
            schedule_date: self.schedule_date,
        }
    }
}

/// An item together with its position in the displayed list.
#[derive(Debug, PartialEq, Eq)]
pub struct IndexedItem {
    pub index: usize,
    pub item: Item,
}

impl Clone for IndexedItem {
    fn clone(&self) -> (r: Self)
        ensures
            r == *self,
    {
        IndexedItem { index: self.index, item: self.item.clone() }
    }
}

/// The header information of a to-do list.
#[derive(Debug, PartialEq, Eq)]
pub struct List {
    pub id: i32,
    pub name: String,
    pub check_boxes: bool,
    pub archived: bool,
    pub hide_complete: bool,
    pub time_created: i64,
    pub time_edited: i64,
    pub item_count: i32,
}

impl Clone for List {
    fn clone(&self) -> (r: Self)
        ensures
            r == *self,
    {
        List {
            id: self.id,
            name: self.name.clone(),
            check_boxes: self.check_boxes,
            archived: self.archived,
            hide_complete: self.hide_complete,
            time_created: self.time_created,
            time_edited: self.time_edited,
            item_count: self.item_count,
        }
    }
}

/// Each item links to the one after it, and the last item links to nothing.
pub open spec fn linked(s: Seq<Item>) -> bool {
    &&& forall|k: int| 0 <= k < s.len() - 1 ==> #[trigger] s[k].next == Some(s[k + 1].id)
    &&& s.len() > 0 ==> s.last().next is None
}

/// No two items share an id.
pub open spec fn distinct_ids(s: Seq<Item>) -> bool {
    forall|i: int, j: int| 0 <= i < s.len() && 0 <= j < s.len() && i != j ==> #[trigger] s[i].id != #[trigger] s[j].id
}

/// Some item before `position` is a top-level (not indented) item.
pub open spec fn root_before(s: Seq<Item>, position: int) -> bool {
    exists|j: int| 0 <= j < position && j < s.len() && (#[trigger] s[j]).parent is None
}

/// The position of the closest item before `position` that has no parent
/// (`-1` when there is none).
pub open spec fn nearest_root(s: Seq<Item>, position: int) -> int
    decreases position,
{
    if position <= 0 {
        -1
    } else if s[position - 1].parent is None {
        position - 1
    } else {
        nearest_root(s, position - 1)
    }
}

/// Every indented item sits under the closest top-level item before it.
pub open spec fn parents_match(s: Seq<Item>) -> bool {
    forall|k: int|
        0 <= k < s.len() && (#[trigger] s[k]).parent is Some ==> {
            &&& 0 <= nearest_root(s, k)
            &&& s[k].parent == Some(s[nearest_root(s, k)].id)
        }
}

/// The closest top-level item before `position` comes before it, and every
/// item between the two is indented.
pub(crate) proof fn lemma_nearest_root_facts(s: Seq<Item>, position: int)
    requires
        0 <= position <= s.len(),
    ensures
        -1 <= nearest_root(s, position) < position,
        nearest_root(s, position) >= 0 ==> s[nearest_root(s, position)].parent is None,
        forall|i: int| nearest_root(s, position) < i < position ==> (#[trigger] s[i]).parent is Some,
    decreases position,
{
    if position > 0 {
        lemma_nearest_root_facts(s, position - 1);
    }
}

/// Two lists whose items before `position` are indented at the same places
/// have the same closest top-level item before it.
pub(crate) proof fn lemma_nearest_root_same_prefix(a: Seq<Item>, b: Seq<Item>, position: int)
    requires
        0 <= position <= a.len(),
        position <= b.len(),
        forall|i: int| 0 <= i < position ==> ((#[trigger] a[i]).parent is None) == (b[i].parent is None),
    ensures
        nearest_root(a, position) == nearest_root(b, position),
    decreases position,
{
    if position > 0 {
        lemma_nearest_root_same_prefix(a, b, position - 1);
    }
}

/// Two lists whose items, shifted by `d`, are indented at the same places from
/// a top-level item at `m` up to `position` have the same closest top-level
/// item before it, shifted.
pub(crate) proof fn lemma_nearest_root_shifted(a: Seq<Item>, b: Seq<Item>, m: int, position: int, d: int)
    requires
        0 <= m < position <= a.len(),
        0 <= m + d,
        position + d <= b.len(),
        a[m].parent is None,
        forall|i: int| m <= i < position ==> ((#[trigger] a[i]).parent is None) == (b[i + d].parent is None),
    ensures
        nearest_root(a, position) == nearest_root(b, position + d) - d,
    decreases position,
{
    if position > m + 1 {
        lemma_nearest_root_shifted(a, b, m, position - 1, d);
        assert((a[position - 1].parent is None) == (b[position - 1 + d].parent is None));
    } else {
        assert(b[m + d].parent is None);
    }
}

/// A top-level item at `j` followed up to `position` by indented items only is
/// the closest top-level item before `position`.
pub(crate) proof fn lemma_nearest_root_is(s: Seq<Item>, j: int, position: int)
    requires
        0 <= j < position <= s.len(),
        s[j].parent is None,
        forall|i: int| j < i < position ==> (#[trigger] s[i]).parent is Some,
    ensures
        nearest_root(s, position) == j,
    decreases position,
{
    if position > j + 1 {
        lemma_nearest_root_is(s, j, position - 1);
    }
}

/// The in-memory list as the program keeps it: in link order, with unique ids,
/// and starting with a top-level item.
pub open spec fn well_formed(s: Seq<Item>) -> bool {
    &&& linked(s)
    &&& distinct_ids(s)
    &&& s.len() > 0 ==> s[0].parent is None
}

/// The ids of the items, in order.
pub open spec fn ids(s: Seq<Item>) -> Seq<i32> {
    s.map_values(|it: Item| it.id)
}

/// `true` when `next` links to the item with id `id`.
pub fn links_to(next: Option<i32>, id: i32) -> (r: bool)
    ensures
        r == (next == Some(id)),
{
    match next {
        Some(n) => n == id,
        None => false,
    }
}

/// Whether some item before `position` is not indented.
pub fn has_root_before(position: usize, item_list: &Vec<Item>) -> (r: bool)
    ensures
        r == root_before(item_list@, position as int),
{
    let mut j: usize = 0;
    while j < position && j < item_list.len()
        invariant
            forall|k: int| 0 <= k < j ==> (#[trigger] item_list@[k]).parent is Some,
            j <= item_list.len(),
        decreases item_list.len() - j,
    {
        if item_list[j].parent.is_none() {
            return true;
        }
        j += 1;
    }
    false
}

/// The position of the closest item before `position` that has no parent.
pub fn get_parent(position: usize, item_list: &Vec<Item>) -> (r: usize)
    requires
        1 <= position <= item_list.len(),
        root_before(item_list@, position as int),
    ensures
        r == nearest_root(item_list@, position as int),
        r < position,
        item_list@[r as int].parent is None,
        forall|j: int| r < j < position ==> (#[trigger] item_list@[j]).parent is Some,
{
    let mut pos_parent: usize = position - 1;
    while item_list[pos_parent].parent.is_some()
        invariant
            pos_parent < position <= item_list.len(),
            root_before(item_list@, pos_parent + 1),
            forall|j: int| pos_parent < j < position ==> (#[trigger] item_list@[j]).parent is Some,
            nearest_root(item_list@, position as int) == nearest_root(item_list@, pos_parent + 1),
        decreases pos_parent,
    {
        pos_parent -= 1;
    }
    pos_parent
}

/// The recurrence stored for an item: present when both its period and its
/// last time are.
pub fn recurrence_from_columns(period: Option<i64>, time_last: Option<i64>) -> (r: Option<Recurrence>)
    ensures
        r == match (period, time_last) {
            (Some(p), Some(t)) => Some(Recurrence { period: p, time_last: t }),
            _ => None::<Recurrence>,
        },
{
    match (period, time_last) {
        (Some(period), Some(time_last)) => Some(Recurrence { period, time_last }),
        _ => None,
    }
}

} // verus!
