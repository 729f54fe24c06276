//! Rebuilding the display order of a list from the `next` links of its items.

use vstd::prelude::*;

use crate::model::{Item, distinct_ids, linked, links_to};

verus! {

broadcast use vstd::seq_lib::group_to_multiset_ensures, vstd::multiset::group_multiset_axioms;

/// `order` holds exactly the items of `items`, arranged so that every item links
/// to the one after it.
pub open spec fn is_ordering(order: Seq<Item>, items: Seq<Item>) -> bool {
    &&& linked(order)
    &&& order.to_multiset() =~= items.to_multiset()
}

/// The links of `items` form one chain that passes through every item.
pub open spec fn has_ordering(items: Seq<Item>) -> bool {
    exists|order: Seq<Item>| is_ordering(order, items)
}

/// Whether an item may be taken next while the order is rebuilt back to front:
/// it links to the item taken last, or it links to nothing.
pub open spec fn matches_next(x: Item, taken: Seq<Item>) -> bool {
    (taken.len() > 0 && x.next == Some(taken.last().id)) || x.next is None
}

/// A sequence of items with distinct ids holds no item twice.
pub(crate) proof fn lemma_distinct_ids_no_duplicates(s: Seq<Item>)
    requires
        distinct_ids(s),
    ensures
        s.no_duplicates(),
{
    assert forall|i: int, j: int| 0 <= i < s.len() && 0 <= j < s.len() && i != j implies s[i] != s[j] by {
        assert(s[i].id != s[j].id);
    }
}

/// Rearranging items keeps their ids distinct.
pub proof fn lemma_distinct_ids_rearranged(o: Seq<Item>, items: Seq<Item>)
    requires
        distinct_ids(items),
        o.to_multiset() =~= items.to_multiset(),
    ensures
        distinct_ids(o),
{
    lemma_distinct_ids_no_duplicates(items);
    items.lemma_multiset_has_no_duplicates();
    o.lemma_multiset_has_no_duplicates_conv();
    assert forall|a: int, b: int| 0 <= a < o.len() && 0 <= b < o.len() && a != b implies #[trigger] o[a].id
        != #[trigger] o[b].id by {
        assert(o.contains(o[a]));
        assert(o.contains(o[b]));
        assert(o.to_multiset().count(o[a]) > 0);
        assert(o.to_multiset().count(o[b]) > 0);
        assert(items.to_multiset().count(o[a]) > 0);
        assert(items.to_multiset().count(o[b]) > 0);
        assert(items.contains(o[a]));
        assert(items.contains(o[b]));
        let p = choose|p: int| 0 <= p < items.len() && items[p] == o[a];
        let q = choose|q: int| 0 <= q < items.len() && items[q] == o[b];
        assert(p != q);
    }
}

/// An item held by a multiset copy of a prefix of `o` sits in that prefix.
proof fn lemma_in_prefix(o: Seq<Item>, m: int, u: Seq<Item>, x: Item) -> (j: int)
    requires
        0 <= m <= o.len(),
        u.to_multiset() =~= o.take(m).to_multiset(),
        u.contains(x),
    ensures
        0 <= j < m,
        o[j] == x,
{
    assert(o.take(m).to_multiset().count(x) > 0);
    assert(o.take(m).contains(x));
    let j = choose|j: int| 0 <= j < o.take(m).len() && o.take(m)[j] == x;
    j
}

/// While the order is rebuilt back to front, the item that may be taken next
/// is exactly the one that precedes the part already taken.
proof fn lemma_match_is_predecessor(o: Seq<Item>, u: Seq<Item>, taken: Seq<Item>, x: Item)
    requires
        linked(o),
        distinct_ids(o),
        taken.len() < o.len(),
        forall|k: int| 0 <= k < taken.len() ==> taken[k] == o[o.len() - 1 - k],
        u.to_multiset() =~= o.take(o.len() - taken.len()).to_multiset(),
        u.contains(x),
    ensures
        matches_next(x, taken) <==> x == o[o.len() - taken.len() - 1],
{
    let n = o.len();
    let m = n - taken.len();
    let j = lemma_in_prefix(o, m, u, x);
    if taken.len() > 0 {
        assert(taken.last() == o[m]);
    }
    if x == o[m - 1] {
        if m < n {
            assert(o[m - 1].next == Some(o[m].id));
        }
    }
    if matches_next(x, taken) {
        if x.next is None {
            if j < n - 1 {
                assert(o[j].next == Some(o[j + 1].id));
            }
        } else {
            assert(o[j].next == Some(o[j + 1].id));
            assert(o[j + 1].id == o[m].id);
        }
    }
}

/// The item that precedes the taken part is still among the items not taken.
proof fn lemma_predecessor_present(o: Seq<Item>, m: int, u: Seq<Item>) -> (t: int)
    requires
        0 < m <= o.len(),
        u.to_multiset() =~= o.take(m).to_multiset(),
    ensures
        0 <= t < u.len(),
        u[t] == o[m - 1],
{
    assert(o.take(m)[m - 1] == o[m - 1]);
    assert(o.take(m).contains(o[m - 1]));
    assert(u.to_multiset().count(o[m - 1]) > 0);
    assert(u.contains(o[m - 1]));
    choose|t: int| 0 <= t < u.len() && u[t] == o[m - 1]
}

/// Taking the predecessor out leaves a multiset copy of the shorter prefix.
proof fn lemma_take_predecessor(o: Seq<Item>, m: int, u: Seq<Item>, i: int)
    requires
        0 < m <= o.len(),
        u.to_multiset() =~= o.take(m).to_multiset(),
        0 <= i < u.len(),
        u[i] == o[m - 1],
    ensures
        u.remove(i).to_multiset() =~= o.take(m - 1).to_multiset(),
{
    assert(o.take(m) =~= o.take(m - 1).push(o[m - 1]));
    assert(o.take(m).to_multiset() =~= o.take(m - 1).to_multiset().insert(o[m - 1]));
    assert(u.remove(i).to_multiset() =~= u.to_multiset().remove(u[i]));
}

/// Two linked arrangements of the same items agree on their last `t` items.
proof fn lemma_suffix_agrees(o1: Seq<Item>, o2: Seq<Item>, t: int)
    requires
        o1.len() == o2.len(),
        0 <= t <= o1.len(),
        linked(o1),
        linked(o2),
        distinct_ids(o1),
        distinct_ids(o2),
        o1.to_multiset() =~= o2.to_multiset(),
    ensures
        forall|k: int| o1.len() - t <= k < o1.len() ==> o1[k] == o2[k],
    decreases t,
{
    if t > 0 {
        lemma_suffix_agrees(o1, o2, t - 1);
        let n = o1.len();
        let m = n - (t - 1);
        let taken = Seq::new((t - 1) as nat, |k: int| o2[n - 1 - k]);
        assert(o1.take(m).to_multiset() =~= o2.take(m).to_multiset()) by {
            assert(o1 =~= o1.take(m) + o1.skip(m));
            assert(o2 =~= o2.take(m) + o2.skip(m));
            assert(o1.skip(m) =~= o2.skip(m));
            vstd::seq_lib::lemma_multiset_commutative(o1.take(m), o1.skip(m));
            vstd::seq_lib::lemma_multiset_commutative(o2.take(m), o2.skip(m));
            assert forall|x: Item| o1.take(m).to_multiset().count(x) == o2.take(m).to_multiset().count(x) by {
                assert(o1.to_multiset().count(x) == o1.take(m).to_multiset().count(x) + o1.skip(m).to_multiset().count(x));
                assert(o2.to_multiset().count(x) == o2.take(m).to_multiset().count(x) + o2.skip(m).to_multiset().count(x));
            }
        }
        assert(o1.take(m).contains(o1[m - 1])) by {
            assert(o1.take(m)[m - 1] == o1[m - 1]);
        }
        assert forall|k: int| 0 <= k < taken.len() implies taken[k] == o1[o1.len() - 1 - k] by {
            assert(o1[n - 1 - k] == o2[n - 1 - k]);
        }
        lemma_match_is_predecessor(o1, o1.take(m), taken, o1[m - 1]);
        lemma_match_is_predecessor(o2, o1.take(m), taken, o1[m - 1]);
    }
}

/// Two arrangements of the same items with distinct ids in which every item
/// links to the next one are the same arrangement.
pub proof fn lemma_ordering_unique(o1: Seq<Item>, o2: Seq<Item>, items: Seq<Item>)
    requires
        distinct_ids(items),
        is_ordering(o1, items),
        is_ordering(o2, items),
    ensures
        o1 == o2,
{
    lemma_distinct_ids_rearranged(o1, items);
    lemma_distinct_ids_rearranged(o2, items);
    assert(o1.len() == o2.len()) by {
        assert(o1.to_multiset().len() == o2.to_multiset().len());
    }
    lemma_suffix_agrees(o1, o2, o1.len() as int);
    assert(o1 =~= o2);
}

/// The scan that orders the items, read back to front: going round the items
/// not yet taken from position `i`, it takes the first that may follow the
/// items taken (see `matches_next`), and starts again from the same position.
/// `misses` counts the items passed over since the last one was taken; when a
/// whole round passes without one, nothing can ever be taken and the scan
/// would go round for ever (`None`).
pub open spec fn scan(unsorted: Seq<Item>, taken: Seq<Item>, i: int, misses: int) -> Option<Seq<Item>>
    decreases unsorted.len(), unsorted.len() - misses,
{
    if unsorted.len() == 0 {
        Some(taken)
    } else if misses < 0 || misses >= unsorted.len() || i < 0 || i >= unsorted.len() {
        None
    } else if matches_next(unsorted[i], taken) {
        let rest = unsorted.remove(i);
        scan(rest, taken.push(unsorted[i]), if rest.len() != 0 { i % (rest.len() as int) } else { i }, 0)
    } else {
        scan(unsorted, taken, (i + 1) % (unsorted.len() as int), misses + 1)
    }
}

/// The order `get_sorted_items` gives the items, or `None` when its scan
/// would never end.
pub open spec fn sort_result(items: Seq<Item>) -> Option<Seq<Item>> {
    match scan(items, Seq::empty(), 0, 0) {
        Some(taken) => Some(taken.reverse()),
        None => None,
    }
}

/// How far the scan at `i` still has to go round to reach position `j`.
pub open spec fn distance(i: int, j: int, len: int) -> int {
    if j >= i {
        j - i
    } else {
        j - i + len
    }
}

proof fn lemma_next_position(i: int, len: int)
    requires
        0 <= i < len,
    ensures
        0 <= (i + 1) % len < len,
        (i + 1) % len == if i + 1 < len { i + 1 } else { 0 },
{
    if i + 1 < len {
        vstd::arithmetic::div_mod::lemma_small_mod((i + 1) as nat, len as nat);
    } else {
        vstd::arithmetic::div_mod::lemma_mod_self_0(len);
    }
}

proof fn lemma_position_in_range(i: int, len: int)
    requires
        0 <= i,
        0 < len,
    ensures
        0 <= i % len < len,
{
    vstd::arithmetic::div_mod::lemma_mod_bound(i, len);
}

/// The scan never loses or invents an item: what it takes holds the items it
/// had taken and those it had not.
pub proof fn lemma_scan_keeps_items(unsorted: Seq<Item>, taken: Seq<Item>, i: int, misses: int)
    ensures
        scan(unsorted, taken, i, misses) matches Some(r) ==> r.to_multiset() =~= unsorted.to_multiset().add(
            taken.to_multiset(),
        ),
    decreases unsorted.len(), unsorted.len() - misses,
{
    if unsorted.len() == 0 {
        assert(unsorted.to_multiset() =~= vstd::multiset::Multiset::empty());
    } else if misses < 0 || misses >= unsorted.len() || i < 0 || i >= unsorted.len() {
    } else if matches_next(unsorted[i], taken) {
        let rest = unsorted.remove(i);
        lemma_scan_keeps_items(rest, taken.push(unsorted[i]), if rest.len() != 0 { i % (rest.len() as int) } else { i }, 0);
        assert(rest.to_multiset() =~= unsorted.to_multiset().remove(unsorted[i]));
        assert(taken.push(unsorted[i]).to_multiset() =~= taken.to_multiset().insert(unsorted[i]));
        assert(unsorted.to_multiset().count(unsorted[i]) > 0);
    } else {
        lemma_scan_keeps_items(unsorted, taken, (i + 1) % (unsorted.len() as int), misses + 1);
    }
}

/// On items whose links form one chain, the scan takes the chain back to front.
proof fn lemma_scan_follows_chain(o: Seq<Item>, unsorted: Seq<Item>, taken: Seq<Item>, i: int, misses: int, target: int)
    requires
        linked(o),
        distinct_ids(o),
        taken.len() + unsorted.len() == o.len(),
        forall|k: int| 0 <= k < taken.len() ==> taken[k] == o[o.len() - 1 - k],
        unsorted.to_multiset() =~= o.take(o.len() - taken.len()).to_multiset(),
        unsorted.len() > 0 ==> {
            &&& 0 <= i < unsorted.len()
            &&& 0 <= target < unsorted.len()
            &&& unsorted[target] == o[o.len() - taken.len() - 1]
            &&& 0 <= misses
            &&& misses + distance(i, target, unsorted.len() as int) < unsorted.len()
        },
    ensures
        scan(unsorted, taken, i, misses) == Some(o.reverse()),
    decreases unsorted.len(), unsorted.len() - misses,
{
    let n = o.len();
    if unsorted.len() == 0 {
        assert(taken =~= o.reverse());
    } else {
        assert(unsorted.contains(unsorted[i]));
        lemma_match_is_predecessor(o, unsorted, taken, unsorted[i]);
        if matches_next(unsorted[i], taken) {
            let m = n - taken.len();
            lemma_take_predecessor(o, m, unsorted, i);
            let rest = unsorted.remove(i);
            let next_i = if rest.len() != 0 { i % (rest.len() as int) } else { i };
            if rest.len() > 0 {
                lemma_position_in_range(i, rest.len() as int);
                let t = lemma_predecessor_present(o, m - 1, rest);
                lemma_scan_follows_chain(o, rest, taken.push(unsorted[i]), next_i, 0, t);
            } else {
                lemma_scan_follows_chain(o, rest, taken.push(unsorted[i]), next_i, 0, 0);
            }
        } else {
            assert(i != target);
            lemma_next_position(i, unsorted.len() as int);
            lemma_scan_follows_chain(o, unsorted, taken, (i + 1) % (unsorted.len() as int), misses + 1, target);
        }
    }
}

/// On items with distinct ids whose links form one chain through all of them,
/// the scan ends, and it gives the chain.
pub proof fn lemma_sort_result_on_chain(items: Seq<Item>, order: Seq<Item>)
    requires
        distinct_ids(items),
        is_ordering(order, items),
    ensures
        sort_result(items) == Some(order),
{
    lemma_distinct_ids_rearranged(order, items);
    let n = order.len();
    assert(order.to_multiset().len() == items.to_multiset().len());
    assert(order.take(n as int) =~= order);
    if n > 0 {
        let t = lemma_predecessor_present(order, n as int, items);
        lemma_scan_follows_chain(order, items, Seq::empty(), 0, 0, t);
    } else {
        lemma_scan_follows_chain(order, items, Seq::empty(), 0, 0, 0);
    }
    assert(order.reverse().reverse() =~= order);
}

/// Puts the items of a list in display order by following their `next` links:
/// going round the items, it takes first one that links to nothing, then each
/// time one that links to the item taken last (or to nothing), and turns the
/// result around. On items whose links form one chain this is that chain.
pub fn get_sorted_items(unsorted_list: Vec<Item>) -> (sorted: Vec<Item>)
    requires
        sort_result(unsorted_list@) is Some,
    ensures
        sort_result(unsorted_list@) == Some(sorted@),
        sorted@.to_multiset() =~= unsorted_list@.to_multiset(),
        distinct_ids(unsorted_list@) && has_ordering(unsorted_list@) ==> is_ordering(sorted@, unsorted_list@),
        distinct_ids(unsorted_list@) ==> forall|o: Seq<Item>| #[trigger] is_ordering(o, unsorted_list@) ==> sorted@ == o,
{
    let ghost items = unsorted_list@;
    let ghost whole = scan(items, Seq::empty(), 0, 0);
    let mut unsorted_list = unsorted_list;
    let mut sorted_list: Vec<Item> = Vec::new();
    let mut i: usize = 0;
    let ghost mut misses: int = 0;
    // Go round the remaining items, taking each time the one that links to the
    // item taken last (or one linking to nothing).
    while unsorted_list.len() > 0
        invariant
            whole is Some,
            scan(unsorted_list@, sorted_list@, i as int, misses) == whole,
            unsorted_list@.len() > 0 ==> i < unsorted_list@.len() && 0 <= misses < unsorted_list@.len(),
        decreases unsorted_list@.len(), unsorted_list@.len() - misses,
    {
        let follows_last = sorted_list.len() > 0
            && links_to(unsorted_list[i].next, sorted_list[sorted_list.len() - 1].id);
        if follows_last || unsorted_list[i].next.is_none() {
            let matched_item = unsorted_list.remove(i);
            sorted_list.push(matched_item);
            if unsorted_list.len() != 0 {
                proof {
                    lemma_position_in_range(i as int, unsorted_list@.len() as int);
                }
                i = i % unsorted_list.len();
            }
            proof {
                misses = 0;
            }
        } else {
            proof {
                lemma_next_position(i as int, unsorted_list@.len() as int);
                misses = misses + 1;
            }
            i = (i + 1) % unsorted_list.len();
        }
    }
    let ghost taken = sorted_list@;
    assert(whole == Some(taken));
    // The items were taken back to front; turn them around.
    let n = sorted_list.len();
    let mut result: Vec<Item> = Vec::new();
    while sorted_list.len() > 0
        invariant
            n == taken.len(),
            sorted_list@.len() + result@.len() == n,
            sorted_list@ == taken.take(sorted_list@.len() as int),
            forall|k: int| 0 <= k < result@.len() ==> result@[k] == taken[n - 1 - k],
        decreases sorted_list@.len(),
    {
        match sorted_list.pop() {
            Some(last) => {
                result.push(last);
            },
            None => {},
        }
    }
    assert(result@ =~= taken.reverse());
    proof {
        lemma_scan_keeps_items(items, Seq::empty(), 0, 0);
        taken.lemma_reverse_to_multiset();
        assert(Seq::<Item>::empty().to_multiset() =~= vstd::multiset::Multiset::empty());
        if distinct_ids(items) && has_ordering(items) {
            let o = choose|o: Seq<Item>| is_ordering(o, items);
            lemma_sort_result_on_chain(items, o);
        }
        if distinct_ids(items) {
            assert forall|o: Seq<Item>| #[trigger] is_ordering(o, items) implies result@ == o by {
                lemma_sort_result_on_chain(items, o);
            }
        }
    }
    result
}

/// Whether the scan of `get_sorted_items` ends on these items (it goes round
/// for ever when, at some point, no remaining item may follow those taken).
pub fn sorting_ends(items: &Vec<Item>) -> (r: bool)
    ensures
        r == (sort_result(items@) is Some),
{
    let mut unsorted: Vec<Item> = Vec::new();
    let mut k: usize = 0;
    while k < items.len()
        invariant
            k <= items@.len(),
            unsorted@ =~= items@.take(k as int),
        decreases items@.len() - k,
    {
        unsorted.push(items[k].clone());
        k += 1;
    }
    assert(items@.take(items@.len() as int) =~= items@);
    let ghost whole = scan(items@, Seq::empty(), 0, 0);
    let mut taken: Vec<Item> = Vec::new();
    let mut i: usize = 0;
    let mut misses: usize = 0;
    while unsorted.len() > 0
        invariant
            whole == scan(items@, Seq::empty(), 0, 0),
            scan(unsorted@, taken@, i as int, misses as int) == whole,
            unsorted@.len() > 0 ==> i < unsorted@.len() && misses <= unsorted@.len(),
        decreases unsorted@.len(), unsorted@.len() - misses,
    {
        if misses >= unsorted.len() {
            assert(scan(unsorted@, taken@, i as int, misses as int) is None);
            return false;
        }
        let follows_last = taken.len() > 0 && links_to(unsorted[i].next, taken[taken.len() - 1].id);
        if follows_last || unsorted[i].next.is_none() {
            let matched_item = unsorted.remove(i);
            taken.push(matched_item);
            if unsorted.len() != 0 {
                proof {
                    lemma_position_in_range(i as int, unsorted@.len() as int);
                }
                i = i % unsorted.len();
            }
            misses = 0;
        } else {
            proof {
                lemma_next_position(i as int, unsorted@.len() as int);
            }
            i = (i + 1) % unsorted.len();
            misses = misses + 1;
        }
    }
    true
}

} // verus!
