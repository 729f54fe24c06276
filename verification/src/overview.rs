//! The overview of all lists: a line for each list in the file, with its
//! creation and edit times kept only when they can be shown as dates.

use vstd::prelude::*;

use crate::display::showable;
use crate::model::List;
use crate::time::is_showable_timestamp;

verus! {

/// One list as the list overview shows it: its header fields, with its
/// creation and last edit times kept only when they can be shown as dates.
#[derive(Debug, Clone, PartialEq, Eq)]
pub struct ListSummary {
    pub id: i32,
    pub name: String,
    pub check_boxes: bool,
    pub archived: bool,
    pub created: Option<i64>,
    pub edited: Option<i64>,
    pub item_count: i32,
}

/// One line of the list overview.
#[derive(Debug, Clone, PartialEq, Eq)]
pub enum ListLine {
    /// A list.
    List(ListSummary),
    /// `No Lists In File..`: the file holds no list.
    NoLists,
}

/// The timestamp, when it can be shown as a date.
pub open spec fn shown_time(secs: i64) -> Option<i64> {
    if showable(secs as int) {
        Some(secs)
    } else {
        None::<i64>
    }
}

/// The overview line of the list `l`.
pub open spec fn summary_of(l: List) -> ListSummary {
    ListSummary {
        id: l.id,
        name: l.name,
        check_boxes: l.check_boxes,
        archived: l.archived,
        created: shown_time(l.time_created),
        edited: shown_time(l.time_edited),
        item_count: l.item_count,
    }
}

/// The lines of the lists read from the file, in order; a row that could not
/// be read (`None`) shows nothing.
pub open spec fn shown_lists(rows: Seq<Option<List>>) -> Seq<ListLine>
    decreases rows.len(),
{
    if rows.len() == 0 {
        Seq::empty()
    } else {
        shown_lists(rows.drop_last()) + match rows.last() {
            Some(l) => seq![ListLine::List(summary_of(l))],
            None => Seq::<ListLine>::empty(),
        }
    }
}

/// The list overview: a line for each list read, or a note that the file holds
/// none.
pub open spec fn list_lines_of(rows: Seq<Option<List>>) -> Seq<ListLine> {
    if rows.len() == 0 {
        seq![ListLine::NoLists]
    } else {
        shown_lists(rows)
    }
}

fn shown_time_of(secs: i64) -> (r: Option<i64>)
    ensures
        r == shown_time(secs),
{
    if is_showable_timestamp(secs) {
        Some(secs)
    } else {
        None
    }
}

/// Builds the list overview from the rows of the `List` table (`None` for a
/// row that could not be read).
pub fn list_lines(lists: &Vec<Option<List>>) -> (r: Vec<ListLine>)
    ensures
        r@ == list_lines_of(lists@),
{
    let mut out: Vec<ListLine> = Vec::new();
    if lists.len() == 0 {
        out.push(ListLine::NoLists);
        return out;
    }
    let mut i: usize = 0;
    while i < lists.len()
        invariant
            i <= lists@.len(),
            out@ == shown_lists(lists@.take(i as int)),
        decreases lists@.len() - i,
    {
        assert(lists@.take(i + 1).drop_last() =~= lists@.take(i as int));
        match &lists[i] {
            Some(l) => {
                let summary = ListSummary {
                    id: l.id,
                    name: l.name.clone(),
                    check_boxes: l.check_boxes,
                    archived: l.archived,
                    created: shown_time_of(l.time_created),
                    edited: shown_time_of(l.time_edited),
                    item_count: l.item_count,
                };
                out.push(ListLine::List(summary));
            },
            None => {},
        }
        i += 1;
        assert(out@ =~= shown_lists(lists@.take(i as int)));
    }
    assert(lists@.take(lists@.len() as int) =~= lists@);
    out
}

/// The overview line `line` shows the list `l`: its id, name, flags and item
/// count, and its times when they can be shown as dates.
pub open spec fn shows(line: ListLine, l: List) -> bool {
    match line {
        ListLine::List(x) => {
            &&& x.id == l.id
            &&& x.name == l.name
            &&& x.check_boxes == l.check_boxes
            &&& x.archived == l.archived
            &&& x.item_count == l.item_count
            &&& x.created == (if showable(l.time_created as int) { Some(l.time_created) } else { None::<i64> })
            &&& x.edited == (if showable(l.time_edited as int) { Some(l.time_edited) } else { None::<i64> })
        },
        ListLine::NoLists => false,
    }
}

/// Some list read from the file is the one `line` shows.
pub open spec fn shows_some_row(rows: Seq<Option<List>>, line: ListLine) -> bool {
    exists|k: int| 0 <= k < rows.len() && rows[k] is Some && shows(line, rows[k]->0)
}

proof fn lemma_shown_lists_complete(rows: Seq<Option<List>>)
    ensures
        forall|k: int|
            0 <= k < rows.len() && (#[trigger] rows[k]) is Some ==> exists|j: int|
                0 <= j < shown_lists(rows).len() && shows(shown_lists(rows)[j], rows[k]->0),
    decreases rows.len(),
{
    if rows.len() > 0 {
        let prev = rows.drop_last();
        lemma_shown_lists_complete(prev);
        let w = shown_lists(rows);
        let wp = shown_lists(prev);
        assert(w == wp + match rows.last() {
            Some(l) => seq![ListLine::List(summary_of(l))],
            None => Seq::<ListLine>::empty(),
        });
        assert forall|k: int| 0 <= k < rows.len() && (#[trigger] rows[k]) is Some implies exists|j: int|
            0 <= j < w.len() && shows(w[j], rows[k]->0) by {
            if k < rows.len() - 1 {
                assert(prev[k] == rows[k]);
                let j = choose|j: int| 0 <= j < wp.len() && shows(wp[j], prev[k]->0);
                assert(w[j] == wp[j]);
            } else {
                assert(rows[k] == rows.last());
                assert(w[wp.len() as int] == ListLine::List(summary_of(rows[k]->0)));
            }
        }
    }
}

#[verifier::rlimit(60)]
proof fn lemma_shown_lists_sound(rows: Seq<Option<List>>)
    ensures
        forall|j: int| 0 <= j < shown_lists(rows).len() ==> shows_some_row(rows, #[trigger] shown_lists(rows)[j]),
    decreases rows.len(),
{
    if rows.len() > 0 {
        let prev = rows.drop_last();
        lemma_shown_lists_sound(prev);
        let w = shown_lists(rows);
        let wp = shown_lists(prev);
        assert(w == wp + match rows.last() {
            Some(l) => seq![ListLine::List(summary_of(l))],
            None => Seq::<ListLine>::empty(),
        });
        assert forall|j: int| 0 <= j < w.len() implies shows_some_row(rows, #[trigger] w[j]) by {
            if j < wp.len() {
                assert(w[j] == wp[j]);
                assert(shows_some_row(prev, wp[j]));
                let k = choose|k: int| 0 <= k < prev.len() && prev[k] is Some && shows(wp[j], prev[k]->0);
                assert(rows[k] == prev[k]);
            } else {
                let k = rows.len() - 1;
                assert(rows[k] == rows.last());
                assert(w[j] == ListLine::List(summary_of(rows.last()->0)));
            }
        }
    }
}

/// The overview of the lists read from the file: when the file holds no list,
/// a note saying so and nothing else; otherwise every list read is shown by a
/// line with its fields, and every line shows a list that was read.
pub proof fn lemma_list_lines_show_lists(rows: Seq<Option<List>>)
    ensures
        rows.len() == 0 ==> list_lines_of(rows) == seq![ListLine::NoLists],
        rows.len() > 0 ==> forall|k: int|
            0 <= k < rows.len() && (#[trigger] rows[k]) is Some ==> exists|j: int|
                0 <= j < list_lines_of(rows).len() && shows(list_lines_of(rows)[j], rows[k]->0),
        rows.len() > 0 ==> forall|j: int|
            0 <= j < list_lines_of(rows).len() ==> shows_some_row(rows, #[trigger] list_lines_of(rows)[j]),
{
    lemma_shown_lists_complete(rows);
    lemma_shown_lists_sound(rows);
    if rows.len() > 0 {
        assert(list_lines_of(rows) == shown_lists(rows));
    }
}

} // verus!
