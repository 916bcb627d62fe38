//! The order in which planned renames are carried out: directories before
//! files, deeper directories before shallower ones, shallower files before
//! deeper ones. Items of equal standing keep the order they were found in.

use vstd::prelude::*;
use crate::model::{ItemType, RenameItem, RenameItemView};

verus! {

/// The place of an item in the order: the smaller, the earlier. Directories
/// stand below zero, the deeper the lower; files stand at their depth.
pub open spec fn rank(item: RenameItemView) -> int {
    match item.item_type {
        ItemType::Directory => -(item.depth as int) - 1,
        ItemType::File => item.depth as int,
    }
}

/// Each item stands no later than every item after it.
pub open spec fn in_order(items: Seq<RenameItemView>) -> bool {
    forall|i: int, j: int| 0 <= i < j < items.len() ==> rank(items[i]) <= rank(items[j])
}

/// `items`, which are in order, with `item` put in behind the last item
/// that does not stand later than it.
pub open spec fn inserted(items: Seq<RenameItemView>, item: RenameItemView) -> Seq<RenameItemView>
    decreases items.len(),
{
    if items.len() == 0 {
        seq![item]
    } else if rank(items.last()) <= rank(item) {
        items.push(item)
    } else {
        inserted(items.drop_last(), item).push(items.last())
    }
}

/// The items in execution order: each in turn is put in among those before
/// it, so items of equal rank keep their order.
pub open spec fn ordered(items: Seq<RenameItemView>) -> Seq<RenameItemView>
    decreases items.len(),
{
    if items.len() == 0 {
        Seq::empty()
    } else {
        inserted(ordered(items.drop_last()), items.last())
    }
}

/// Whether `first` stands no later than `second`.
pub fn stands_before(first: &RenameItem, second: &RenameItem) -> (yes: bool)
    ensures
        yes == (rank(first@) <= rank(second@)),
{
    match first.item_type {
        ItemType::Directory => match second.item_type {
            ItemType::Directory => first.depth >= second.depth,
            ItemType::File => true,
        },
        ItemType::File => match second.item_type {
            ItemType::Directory => false,
            ItemType::File => first.depth <= second.depth,
        },
    }
}

/// Putting an item in at index `k` is `inserted` when everything from `k`
/// on stands later and what is just before `k` does not.
proof fn lemma_inserted_at(items: Seq<RenameItemView>, item: RenameItemView, k: int)
    requires
        0 <= k <= items.len(),
        forall|j: int| k <= j < items.len() ==> rank(items[j]) > rank(item),
        k > 0 ==> rank(items[k - 1]) <= rank(item),
    ensures
        inserted(items, item) == items.insert(k, item),
    decreases items.len() - k,
{
    if items.len() == 0 {
        assert(items.insert(k, item) =~= seq![item]);
    } else if k == items.len() {
        assert(items.insert(k, item) =~= items.push(item));
    } else {
        let front = items.drop_last();
        lemma_inserted_at(front, item, k);
        assert(front.insert(k, item).push(items.last()) =~= items.insert(k, item));
    }
}

/// Sorts the items into execution order: see `ordered`.
pub fn sort_for_execution(items: Vec<RenameItem>) -> (sorted: Vec<RenameItem>)
    ensures
        sorted.deep_view() == ordered(items.deep_view()),
{
    let mut sorted: Vec<RenameItem> = Vec::new();
    let rest = items;
    let ghost all = items.deep_view();
    let total = rest.len();
    let mut i: usize = 0;
    assert(all.take(0) =~= Seq::empty());
    assert(sorted.deep_view() =~= Seq::empty());
    while i < total
        invariant
            i <= total,
            total == rest.len(),
            rest.deep_view() == all,
            sorted.deep_view() == ordered(all.take(i as int)),
            sorted.len() == i,
        decreases total - i,
    {
        let item = rest[i].clone();
        assert(item@ == all[i as int]) by {
            assert(rest.deep_view()[i as int] == rest[i as int]@);
        }
        let mut k: usize = sorted.len();
        while k > 0 && !stands_before(&sorted[k - 1], &item)
            invariant
                k <= sorted.len(),
                forall|j: int|
                    k <= j < sorted.len() ==> rank(#[trigger] sorted.deep_view()[j]) > rank(item@),
            decreases k,
        {
            assert(sorted.deep_view()[k - 1] == sorted[k - 1]@);
            k -= 1;
        }
        proof {
            if k > 0 {
                assert(sorted.deep_view()[k - 1] == sorted[k - 1]@);
            }
            lemma_inserted_at(sorted.deep_view(), item@, k as int);
            assert(all.take(i + 1).drop_last() =~= all.take(i as int));
            assert(all.take(i + 1).last() == all[i as int]);
        }
        let ghost before = sorted.deep_view();
        let ghost placed = item@;
        sorted.insert(k, item);
        assert(sorted.deep_view() =~= before.insert(k as int, placed));
        i += 1;
    }
    assert(all.take(i as int) =~= all);
    sorted
}

/// Putting an item in keeps the order.
pub proof fn lemma_inserted_in_order(items: Seq<RenameItemView>, item: RenameItemView)
    requires
        in_order(items),
    ensures
        in_order(inserted(items, item)),
        inserted(items, item).len() == items.len() + 1,
        inserted(items, item).to_multiset() == items.to_multiset().insert(item),
    decreases items.len(),
{
    broadcast use vstd::seq_lib::group_to_multiset_ensures;

    if items.len() == 0 {
        assert(items =~= Seq::empty());
        assert(seq![item] =~= Seq::<RenameItemView>::empty().push(item));
    } else if rank(items.last()) <= rank(item) {
    } else {
        let front = items.drop_last();
        assert(in_order(front));
        lemma_inserted_in_order(front, item);
        let placed = inserted(front, item);
        let out = placed.push(items.last());
        assert(items =~= front.push(items.last()));
        assert forall|a: int| 0 <= a < placed.len() implies rank(#[trigger] placed[a]) <= rank(
            items.last(),
        ) by {
            assert(placed.to_multiset().count(placed[a]) > 0);
            if placed[a] != item {
                assert(front.to_multiset().count(placed[a]) > 0);
                let b = choose|b: int| 0 <= b < front.len() && front[b] == placed[a];
                assert(rank(items[b]) <= rank(items[items.len() - 1]));
            }
        }
        assert(out.to_multiset() =~= items.to_multiset().insert(item));
    }
}

/// The execution order is in order and holds exactly the items it was
/// given, each as often as it was given.
pub proof fn lemma_ordered_is_sorted(items: Seq<RenameItemView>)
    ensures
        in_order(ordered(items)),
        ordered(items).len() == items.len(),
        ordered(items).to_multiset() == items.to_multiset(),
    decreases items.len(),
{
    broadcast use vstd::seq_lib::group_to_multiset_ensures;

    if items.len() == 0 {
        assert(items =~= Seq::empty());
    } else {
        lemma_ordered_is_sorted(items.drop_last());
        lemma_inserted_in_order(ordered(items.drop_last()), items.last());
        assert(items =~= items.drop_last().push(items.last()));
    }
}

/// In execution order every directory comes before every file, and of two
/// directories the deeper comes first: a directory nested in one that is
/// itself to be renamed is renamed before the outer one moves.
pub proof fn lemma_deeper_directories_first(items: Seq<RenameItemView>, i: int, j: int)
    requires
        0 <= i < ordered(items).len(),
        0 <= j < ordered(items).len(),
        ordered(items)[i].item_type == ItemType::Directory,
        ordered(items)[j].item_type == ItemType::File || ordered(items)[j].depth < ordered(
            items,
        )[i].depth,
    ensures
        i < j,
{
    lemma_ordered_is_sorted(items);
    let sorted = ordered(items);
    if j < i {
        assert(rank(sorted[j]) <= rank(sorted[i]));
    }
}

} // verus!
