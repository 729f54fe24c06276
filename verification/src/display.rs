//! What the program shows of a list: the items in order, or, for a list with
//! check boxes, the open items first and the completed ones after them.
//! Showing is building the lines; the program around the library prints them.

use vstd::prelude::*;

use crate::model::{IndexedItem, Item, List, nearest_root};
use crate::time::{MAX_TIMESTAMP, MIN_TIMESTAMP, is_showable_timestamp};

verus! {

/// One shown item: its position, whether it is indented, its text, and the
/// timestamps of its next recurrence and of its activation, each kept only when
/// it can be shown as a date.
#[derive(Debug, Clone, PartialEq, Eq)]
pub struct ItemLine {
    pub index: usize,
    pub indented: bool,
    pub text: String,
    pub recurring: Option<i64>,
    pub scheduled: Option<i64>,
}

/// One line of output.
#[derive(Debug, Clone, PartialEq, Eq)]
pub enum Line {
    /// `Un-Completed:`
    UncompletedHeader,
    /// `Completed:`
    CompletedHeader,
    /// An item.
    Item(ItemLine),
    /// `...`: the section above is empty.
    Nothing,
    /// `--- HIDDEN`: completed items are hidden.
    Hidden,
    /// `--- text`: an open top-level item shown only to give its completed
    /// children context.
    ParentStub(String),
    /// `No Items In List..`
    NoItems,
}

/// The next recurrence of the item falls within `i64` (showing it adds the
/// period to the last time).
pub open spec fn recurrence_fits(it: Item) -> bool {
    match it.recurrence {
        Some(r) => i64::MIN <= r.time_last + r.period <= i64::MAX,
        None => true,
    }
}

/// A timestamp that can be shown as a date.
pub open spec fn showable(secs: int) -> bool {
    MIN_TIMESTAMP <= secs <= MAX_TIMESTAMP
}

/// The line that shows `it` at position `index`.
pub open spec fn item_line(it: Item, index: usize) -> ItemLine {
    ItemLine {
        index,
        indented: it.parent is Some,
        text: it.text,
        recurring: match it.recurrence {
            Some(r) => if showable(r.time_last + r.period) {
                Some((r.time_last + r.period) as i64)
            } else {
                None
            },
            None => None,
        },
        scheduled: match it.schedule_date {
            Some(d) => if showable(d as int) {
                Some(d)
            } else {
                None
            },
            None => None,
        },
    }
}

/// Shows one item.
pub fn print_item(item: &Item, index: usize, out: &mut Vec<Line>)
    requires
        recurrence_fits(*item),
    ensures
        final(out)@ == old(out)@.push(Line::Item(item_line(*item, index))),
{
    let recurring = match item.recurrence {
        Some(r) => {
            let next_reoccurence = r.time_last + r.period;
            if is_showable_timestamp(next_reoccurence) {
                Some(next_reoccurence)
            } else {
                None
            }
        },
        None => None,
    };
    let scheduled = match item.schedule_date {
        Some(d) => if is_showable_timestamp(d) {
            Some(d)
        } else {
            None
        },
        None => None,
    };
    out.push(
        Line::Item(
            ItemLine { index, indented: item.parent.is_some(), text: item.text.clone(), recurring, scheduled },
        ),
    );
}

/// The lines that show every item in order.
pub open spec fn basic_lines(items: Seq<Item>) -> Seq<Line> {
    Seq::new(items.len(), |k: int| Line::Item(item_line(items[k], k as usize))) + if items.len() == 0 {
        seq![Line::NoItems]
    } else {
        Seq::<Line>::empty()
    }
}

/// Shows every item in order.
pub fn print_basic(item_list: &Vec<Item>, out: &mut Vec<Line>)
    requires
        forall|k: int| 0 <= k < item_list@.len() ==> recurrence_fits(#[trigger] item_list@[k]),
    ensures
        final(out)@ == old(out)@ + basic_lines(item_list@),
{
    let ghost start = out@;
    let mut i: usize = 0;
    while i < item_list.len()
        invariant
            i <= item_list@.len(),
            forall|k: int| 0 <= k < item_list@.len() ==> recurrence_fits(#[trigger] item_list@[k]),
            out@ == start + Seq::new(i as nat, |k: int| Line::Item(item_line(item_list@[k], k as usize))),
        decreases item_list@.len() - i,
    {
        print_item(&item_list[i], i, out);
        i += 1;
        assert(out@ =~= start + Seq::new(i as nat, |k: int| Line::Item(item_line(item_list@[k], k as usize))));
    }
    if i == 0 {
        out.push(Line::NoItems);
    }
    assert(out@ =~= start + basic_lines(item_list@));
}

/// How a completed-section entry is shown: an open top-level item only by its
/// text, anything else as an item.
pub open spec fn entry_line(e: IndexedItem) -> Line {
    if e.item.parent is None && !e.item.complete {
        Line::ParentStub(e.item.text)
    } else {
        Line::Item(item_line(e.item, e.index))
    }
}

/// The entry is shown as an item (not only by its text).
pub open spec fn shown_as_item(e: IndexedItem) -> bool {
    e.item.parent is Some || e.item.complete
}

/// The lines of the completed section.
pub open spec fn completed_lines(completed: Seq<IndexedItem>) -> Seq<Line> {
    seq![Line::CompletedHeader] + Seq::new(completed.len(), |k: int| entry_line(completed[k])) + if (exists|k: int|
        0 <= k < completed.len() && shown_as_item(#[trigger] completed[k])) {
        Seq::<Line>::empty()
    } else {
        seq![Line::Nothing]
    }
}

/// Shows the completed section.
pub fn print_completed_items(completed: Vec<IndexedItem>, out: &mut Vec<Line>)
    requires
        forall|k: int| 0 <= k < completed@.len() && shown_as_item(#[trigger] completed@[k]) ==> recurrence_fits(completed@[k].item),
    ensures
        final(out)@ == old(out)@ + completed_lines(completed@),
{
    let ghost start = out@;
    let mut empty = true;
    out.push(Line::CompletedHeader);
    let mut i: usize = 0;
    while i < completed.len()
        invariant
            i <= completed@.len(),
            forall|k: int| 0 <= k < completed@.len() && shown_as_item(#[trigger] completed@[k]) ==> recurrence_fits(completed@[k].item),
            out@ == start + seq![Line::CompletedHeader] + Seq::new(i as nat, |k: int| entry_line(completed@[k])),
            empty == !(exists|k: int| 0 <= k < i && shown_as_item(#[trigger] completed@[k])),
        decreases completed@.len() - i,
    {
        let indexed_item = &completed[i];
        if indexed_item.item.parent.is_none() && !indexed_item.item.complete {
            out.push(Line::ParentStub(indexed_item.item.text.clone()));
        } else {
            print_item(&indexed_item.item, indexed_item.index, out);
            empty = false;
        }
        i += 1;
        assert(out@ =~= start + seq![Line::CompletedHeader] + Seq::new(i as nat, |k: int| entry_line(completed@[k])));
    }
    if empty {
        out.push(Line::Nothing);
    }
    assert(out@ =~= start + completed_lines(completed@));
}

/// What the loop over the items has gathered so far: whether nothing open was
/// shown yet, the completed-section entries, the last top-level item seen,
/// whether that item still has to be added before a completed child, and the
/// lines of the open section.
pub type Gathered = (bool, Seq<IndexedItem>, Option<IndexedItem>, bool, Seq<Line>);

/// An open item: shown directly when top-level or when the top-level item
/// before it is open too; otherwise put with the completed ones after that
/// top-level item (when it is not there yet) and itself.
pub open spec fn handle_uncompleted(
    it: Item,
    index: usize,
    empty: bool,
    add_parent: bool,
    last_parent: Option<IndexedItem>,
    completed: Seq<IndexedItem>,
    lines: Seq<Line>,
) -> (bool, Seq<IndexedItem>, Seq<Line>) {
    if it.parent is None {
        (false, completed, lines.push(Line::Item(item_line(it, index))))
    } else if last_parent is Some && last_parent.unwrap().item.complete {
        let c = if add_parent { completed.push(last_parent.unwrap()) } else { completed };
        (empty, c.push(IndexedItem { index, item: it }), lines)
    } else {
        (false, completed, lines.push(Line::Item(item_line(it, index))))
    }
}

/// A completed item goes with the completed ones, after the top-level item
/// before it when that one is not there yet.
pub open spec fn handle_completed(
    it: Item,
    index: usize,
    add_parent: bool,
    last_parent: Option<IndexedItem>,
    completed: Seq<IndexedItem>,
) -> (bool, Seq<IndexedItem>) {
    let ap = if it.parent is None { false } else { add_parent };
    if last_parent is Some && ap {
        (false, completed.push(last_parent.unwrap()).push(IndexedItem { index, item: it }))
    } else {
        (ap, completed.push(IndexedItem { index, item: it }))
    }
}

/// The gathering after one more item.
pub open spec fn gather_step(g: Gathered, it: Item, index: usize) -> Gathered {
    let (empty, completed, last_parent, add_parent, lines) = g;
    let last_parent = if it.parent is None { Some(IndexedItem { index, item: it }) } else { last_parent };
    let add_parent = if it.parent is None { true } else { add_parent };
    if !it.complete {
        let (e, c, l) = handle_uncompleted(it, index, empty, add_parent, last_parent, completed, lines);
        (e, c, last_parent, add_parent, l)
    } else {
        let (ap, c) = handle_completed(it, index, add_parent, last_parent, completed);
        (empty, c, last_parent, ap, lines)
    }
}

/// The gathering over the first `n` items.
pub open spec fn gathered(items: Seq<Item>, n: int) -> Gathered
    decreases n,
{
    if n <= 0 {
        (true, Seq::empty(), None, false, Seq::empty())
    } else {
        gather_step(gathered(items, n - 1), items[n - 1], (n - 1) as usize)
    }
}

/// The lines that show a list with check boxes.
pub open spec fn completion_lines(list_info: List, items: Seq<Item>) -> Seq<Line> {
    let g = gathered(items, items.len() as int);
    seq![Line::UncompletedHeader] + g.4 + (if g.0 {
        seq![Line::Nothing]
    } else {
        Seq::<Line>::empty()
    }) + if !list_info.hide_complete {
        completed_lines(g.1)
    } else {
        seq![Line::CompletedHeader, Line::Hidden]
    }
}

/// The item at `k` is open and so is the top-level item it sits under (if any).
pub open spec fn shown_open(items: Seq<Item>, k: int) -> bool {
    &&& !items[k].complete
    &&& items[k].parent is Some ==> (nearest_root(items, k) < 0 || !items[nearest_root(items, k)].complete)
}

/// Showing the list adds the next recurrence of each item it shows as an item
/// to its last time within `i64`.
pub open spec fn completion_fits(list_info: List, items: Seq<Item>) -> bool {
    forall|k: int| 0 <= k < items.len() && (!list_info.hide_complete || shown_open(items, k)) ==> recurrence_fits(#[trigger] items[k])
}

/// Shows an open item, or sets it aside for the completed section.
pub fn print_handle_uncompleted(
    item: &Item,
    index: usize,
    empty: &mut bool,
    add_parent: &bool,
    last_parent: &Option<IndexedItem>,
    completed: &mut Vec<IndexedItem>,
    out: &mut Vec<Line>,
)
    requires
        recurrence_fits(*item) || (item.parent is Some && last_parent is Some && last_parent.unwrap().item.complete),
    ensures
        ({
            let (e, c, l) = handle_uncompleted(*item, index, *old(empty), *add_parent, *last_parent, old(completed)@, old(out)@);
            &&& *final(empty) == e
            &&& final(completed)@ == c
            &&& final(out)@ == l
        }),
{
    if item.parent.is_none() {
        print_item(item, index, out);
        *empty = false;
    } else {
        let parent_complete = match last_parent {
            Some(unwrapped_parent) => unwrapped_parent.item.complete,
            None => false,
        };
        if parent_complete {
            // the top-level item above is completed: this item goes with it
            if let Some(unwrapped_parent) = last_parent {
                if *add_parent {
                    completed.push(IndexedItem { index: unwrapped_parent.index, item: unwrapped_parent.item.clone() });
                }
            }
            completed.push(IndexedItem { index: index, item: item.clone() });
        } else {
            // the item and the top-level item above are open: show it
            print_item(item, index, out);
            *empty = false;
        }
    }
}

/// Sets a completed item aside for the completed section, after the top-level
/// item it sits under when that one is not there yet.
pub fn print_handle_completed(
    item: &Item,
    index: usize,
    add_parent: &mut bool,
    last_parent: &Option<IndexedItem>,
    completed: &mut Vec<IndexedItem>,
)
    ensures
        ({
            let (ap, c) = handle_completed(*item, index, *old(add_parent), *last_parent, old(completed)@);
            &&& *final(add_parent) == ap
            &&& final(completed)@ == c
        }),
{
    if item.parent.is_none() {
        *add_parent = false;
    }
    match last_parent {
        Some(unwrapped_parent) => {
            if *add_parent {
                completed.push(IndexedItem { index: unwrapped_parent.index, item: unwrapped_parent.item.clone() });
                *add_parent = false;
            }
        },
        None => {},
    }
    completed.push(IndexedItem { index: index, item: item.clone() });
}

/// The lines of the open section: every item shown open, in order.
pub open spec fn open_lines(items: Seq<Item>, n: int) -> Seq<Line>
    decreases n,
{
    if n <= 0 {
        Seq::empty()
    } else if shown_open(items, n - 1) {
        open_lines(items, n - 1).push(Line::Item(item_line(items[n - 1], (n - 1) as usize)))
    } else {
        open_lines(items, n - 1)
    }
}

/// The entry for the item at `k`.
pub open spec fn entry(items: Seq<Item>, k: int) -> IndexedItem {
    IndexedItem { index: k as usize, item: items[k] }
}

/// An open top-level item, shown in the completed section only by its text.
pub open spec fn is_stub(e: IndexedItem) -> bool {
    e.item.parent is None && !e.item.complete
}

/// What the gathering over the first `n` items holds.
pub proof fn lemma_gathered(items: Seq<Item>, n: int)
    requires
        0 <= n <= items.len(),
        items.len() <= usize::MAX,
    ensures
        ({
            let (empty, completed, last_parent, add_parent, lines) = gathered(items, n);
            &&& last_parent == if nearest_root(items, n) >= 0 {
                Some(entry(items, nearest_root(items, n)))
            } else {
                None::<IndexedItem>
            }
            &&& lines == open_lines(items, n)
            &&& empty == !(exists|k: int| 0 <= k < n && #[trigger] shown_open(items, k))
            &&& forall|j: int| 0 <= j < completed.len() ==> {
                &&& 0 <= (#[trigger] completed[j]).index < n
                &&& completed[j] == entry(items, completed[j].index as int)
                &&& is_stub(completed[j]) || !shown_open(items, completed[j].index as int)
            }
            &&& forall|k: int| 0 <= k < n && !#[trigger] shown_open(items, k) ==> completed.contains(entry(items, k))
            &&& forall|k: int|
                0 <= k < n && (#[trigger] items[k]).complete && items[k].parent is Some && nearest_root(items, k) >= 0
                    ==> completed.contains(entry(items, nearest_root(items, k)))
            &&& last_parent is Some && !add_parent ==> completed.contains(last_parent.unwrap())
        }),
    decreases n,
{
    broadcast use vstd::seq_lib::group_seq_properties;

    if n > 0 {
        lemma_gathered(items, n - 1);
        lemma_nearest_root_bounds(items, n - 1);
        let k = n - 1;
        let it = items[k];
        let prev = gathered(items, n - 1);
        let (empty0, completed0, last_parent0, add_parent0, lines0) = prev;
        let g = gathered(items, n);
        assert(g == gather_step(prev, it, k as usize));
        assert(entry(items, k) == IndexedItem { index: k as usize, item: it });
        if it.parent is None {
            assert(nearest_root(items, n) == k);
        } else {
            assert(nearest_root(items, n) == nearest_root(items, k));
        }
        let (empty, completed, last_parent, add_parent, lines) = g;
        // entries only get added
        assert forall|x: IndexedItem| completed0.contains(x) implies completed.contains(x) by {
            let j = choose|j: int| 0 <= j < completed0.len() && completed0[j] == x;
            assert(completed.len() >= completed0.len());
            assert(completed[j] == x);
        }
        assert forall|j: int| 0 <= j < completed.len() implies {
            &&& 0 <= (#[trigger] completed[j]).index < n
            &&& completed[j] == entry(items, completed[j].index as int)
            &&& is_stub(completed[j]) || !shown_open(items, completed[j].index as int)
        } by {
            if j < completed0.len() {
                assert(completed[j] == completed0[j]);
            } else {
                let r = nearest_root(items, n);
                if r >= 0 {
                    assert(items[r].parent is None);
                }
            }
        }
        assert(forall|kk: int| 0 <= kk < n - 1 ==> #[trigger] shown_open(items, kk) == shown_open(items, kk));
        if !shown_open(items, k) {
            assert(completed.contains(entry(items, k))) by {
                assert(completed.last() == entry(items, k));
            }
        }
        if it.complete && it.parent is Some && nearest_root(items, k) >= 0 {
            assert(completed.contains(entry(items, nearest_root(items, k)))) by {
                if add_parent0 {
                    assert(completed[completed.len() - 2] == entry(items, nearest_root(items, k)));
                }
            }
        }
        if last_parent is Some && !add_parent {
            if it.parent is None {
                assert(completed.last() == entry(items, k));
            } else if it.complete && add_parent0 {
                assert(completed[completed.len() - 2] == last_parent.unwrap());
            }
        }
        if empty != !(exists|kk: int| 0 <= kk < n && #[trigger] shown_open(items, kk)) {
            if shown_open(items, k) {
                assert(!empty);
            } else {
                assert forall|kk: int| 0 <= kk < n && #[trigger] shown_open(items, kk) implies kk < k by {}
            }
        }
    }
}

proof fn lemma_nearest_root_bounds(items: Seq<Item>, p: int)
    requires
        0 <= p <= items.len(),
    ensures
        -1 <= nearest_root(items, p) < p,
        nearest_root(items, p) >= 0 ==> items[nearest_root(items, p)].parent is None,
    decreases p,
{
    if p > 0 {
        lemma_nearest_root_bounds(items, p - 1);
    }
}

/// Shows a list with check boxes: first the open items (an item under a
/// completed top-level item counts as completed), then the completed ones,
/// each completed child after its top-level item; or, when the list hides
/// completed items, a note that they are hidden.
#[verifier::rlimit(100)]
pub fn print_completion(list_info: &List, item_list: &Vec<Item>, out: &mut Vec<Line>)
    requires
        completion_fits(*list_info, item_list@),
    ensures
        final(out)@ == old(out)@ + completion_lines(*list_info, item_list@),
{
    let ghost items = item_list@;
    let ghost start = out@;
    let mut i: usize = 0;
    let mut empty = true;
    let mut completed: Vec<IndexedItem> = Vec::new();
    let mut last_parent: Option<IndexedItem> = None;
    let mut add_parent = false;
    out.push(Line::UncompletedHeader);
    while i < item_list.len()
        invariant
            items == item_list@,
            i <= items.len(),
            completion_fits(*list_info, items),
            gathered(items, i as int).0 == empty,
            gathered(items, i as int).1 == completed@,
            gathered(items, i as int).2 == last_parent,
            gathered(items, i as int).3 == add_parent,
            out@ == start.push(Line::UncompletedHeader) + gathered(items, i as int).4,
        decreases items.len() - i,
    {
        let item = &item_list[i];
        proof {
            lemma_gathered(items, i as int);
            lemma_gathered(items, i + 1);
        }
        let ghost before = out@;
        if item.parent.is_none() {
            last_parent = Some(IndexedItem { index: i, item: item.clone() });
            add_parent = true;
        }
        proof {
            if !item.complete && item.parent is Some {
                if !(last_parent is Some && last_parent.unwrap().item.complete) {
                    assert(shown_open(items, i as int));
                }
            }
        }
        if !item.complete {
            print_handle_uncompleted(item, i, &mut empty, &add_parent, &last_parent, &mut completed, out);
        } else {
            print_handle_completed(item, i, &mut add_parent, &last_parent, &mut completed);
        }
        assert(out@ =~= start.push(Line::UncompletedHeader) + gathered(items, i + 1).4);
        i += 1;
    }
    proof {
        lemma_gathered(items, items.len() as int);
    }
    assert(out@ =~= start + seq![Line::UncompletedHeader] + gathered(items, items.len() as int).4);
    if empty {
        out.push(Line::Nothing);
    }
    if !list_info.hide_complete {
        proof {
            assert forall|k: int| 0 <= k < completed@.len() && shown_as_item(#[trigger] completed@[k]) implies recurrence_fits(
                completed@[k].item,
            ) by {
                let idx = completed@[k].index as int;
                assert(recurrence_fits(items[idx]));
            }
        }
        print_completed_items(completed, out);
    } else {
        out.push(Line::CompletedHeader);
        out.push(Line::Hidden);
    }
    assert(out@ =~= start + completion_lines(*list_info, items));
}

/// Whether showing the list stays within `i64` when adding each shown item's
/// period to its last time.
pub open spec fn print_fits(list_info: List, items: Seq<Item>) -> bool {
    if list_info.check_boxes {
        completion_fits(list_info, items)
    } else {
        forall|k: int| 0 <= k < items.len() ==> recurrence_fits(#[trigger] items[k])
    }
}

/// The lines that show a list.
pub open spec fn item_lines(list_info: List, items: Seq<Item>) -> Seq<Line> {
    if list_info.check_boxes {
        completion_lines(list_info, items)
    } else {
        basic_lines(items)
    }
}

/// Shows the items of a list: split into open and completed when the list has
/// check boxes, otherwise all in order.
pub fn print_items(list_info: &List, item_list: &Vec<Item>, out: &mut Vec<Line>)
    requires
        print_fits(*list_info, item_list@),
    ensures
        final(out)@ == old(out)@ + item_lines(*list_info, item_list@),
{
    if list_info.check_boxes {
        print_completion(list_info, item_list, out);
    } else {
        print_basic(item_list, out);
    }
}

/// Whether `print_items` can show the list.
pub fn can_print(list_info: &List, item_list: &Vec<Item>) -> (r: bool)
    ensures
        r == print_fits(*list_info, item_list@),
{
    let mut i: usize = 0;
    let mut last_root: Option<usize> = None;
    while i < item_list.len()
        invariant
            i <= item_list@.len(),
            last_root == if nearest_root(item_list@, i as int) >= 0 {
                Some(nearest_root(item_list@, i as int) as usize)
            } else {
                None::<usize>
            },
            forall|k: int| 0 <= k < i ==> {
                if list_info.check_boxes {
                    (!list_info.hide_complete || shown_open(item_list@, k)) ==> recurrence_fits(#[trigger] item_list@[k])
                } else {
                    recurrence_fits(item_list@[k])
                }
            },
        decreases item_list@.len() - i,
    {
        proof {
            lemma_nearest_root_bounds(item_list@, i as int);
        }
        let item = &item_list[i];
        let open = !item.complete && (item.parent.is_none() || match last_root {
            Some(r) => !item_list[r].complete,
            None => true,
        });
        let needed = !list_info.check_boxes || !list_info.hide_complete || open;
        if needed {
            let fits = match item.recurrence {
                Some(r) => r.time_last.checked_add(r.period).is_some(),
                None => true,
            };
            if !fits {
                return false;
            }
        }
        if item.parent.is_none() {
            last_root = Some(i);
        }
        i += 1;
    }
    true
}

} // verus!
