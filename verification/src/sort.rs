//! Sorting that leaves what ranks alike in the order in which it came.
use vstd::prelude::*;

verus! {

/// What has an order among its kind.
pub trait Ordered: View + Sized {
    /// Whether the first may stand before the second.
    spec fn le(a: Self::V, b: Self::V) -> bool;

    /// Any two can stand in one order or the other.
    proof fn lemma_total(a: Self::V, b: Self::V)
        ensures
            Self::le(a, b) || Self::le(b, a),
    ;

    /// What may stand before something may stand before what that may stand before.
    proof fn lemma_transitive(a: Self::V, b: Self::V, c: Self::V)
        requires
            Self::le(a, b),
            Self::le(b, c),
        ensures
            Self::le(a, c),
    ;

    /// Tells whether this may stand before the other.
    fn not_after(&self, other: &Self) -> (le: bool)
        ensures
            le == Self::le(self@, other@),
    ;
}

/// The items by their views.
pub open spec fn views<T: Ordered>(items: Seq<T>) -> Seq<T::V> {
    items.map_values(|item: T| item@)
}

/// The list with one more item, behind the last that may stand before it.
pub open spec fn with_item<T: Ordered>(list: Seq<T::V>, item: T::V) -> Seq<T::V>
    decreases list.len(),
{
    if list.len() == 0 || T::le(list.last(), item) {
        list.push(item)
    } else {
        with_item::<T>(list.drop_last(), item).push(list.last())
    }
}

/// The items in order; those that rank alike stay in the order in which they came.
pub open spec fn sorted<T: Ordered>(items: Seq<T::V>) -> Seq<T::V>
    decreases items.len(),
{
    if items.len() == 0 {
        items
    } else {
        with_item::<T>(sorted::<T>(items.drop_last()), items.last())
    }
}

/// Whether no item stands before one that it may not stand before.
pub open spec fn is_sorted<T: Ordered>(list: Seq<T::V>) -> bool {
    forall|i: int, j: int| 0 <= i < j < list.len() ==> T::le(list[i], list[j])
}

proof fn lemma_with_item<T: Ordered>(list: Seq<T::V>, item: T::V)
    requires
        is_sorted::<T>(list),
    ensures
        is_sorted::<T>(with_item::<T>(list, item)),
        with_item::<T>(list, item).len() == list.len() + 1,
        with_item::<T>(list, item).to_multiset() == list.to_multiset().insert(item),
        forall|other: T::V|
            with_item::<T>(list, item).contains(other) ==> other == item || list.contains(other),
    decreases list.len(),
{
    broadcast use vstd::seq_lib::group_to_multiset_ensures;

    let longer = with_item::<T>(list, item);
    if list.len() == 0 || T::le(list.last(), item) {
        assert forall|i: int, j: int| 0 <= i < j < longer.len() implies T::le(
            longer[i],
            longer[j],
        ) by {
            if j == list.len() && i < list.len() - 1 {
                T::lemma_transitive(list[i], list.last(), item);
            }
        }
        assert forall|other: T::V| longer.contains(other) implies other == item || list.contains(
            other,
        ) by {
            let i = choose|i: int| 0 <= i < longer.len() && longer[i] == other;
            if i < list.len() {
                assert(list[i] == other);
            }
        }
    } else {
        let rest = list.drop_last();
        let shorter = with_item::<T>(rest, item);
        lemma_with_item::<T>(rest, item);
        T::lemma_total(list.last(), item);
        assert forall|other: T::V| rest.contains(other) implies list.contains(other) && T::le(
            other,
            list.last(),
        ) by {
            let i = choose|i: int| 0 <= i < rest.len() && rest[i] == other;
            assert(list[i] == other);
        }
        assert forall|i: int, j: int| 0 <= i < j < longer.len() implies T::le(
            longer[i],
            longer[j],
        ) by {
            assert(longer[i] == shorter[i]);
            if j == shorter.len() {
                assert(longer[j] == list.last());
                assert(shorter.contains(shorter[i]));
                if shorter[i] != item {
                    assert(rest.contains(shorter[i]));
                }
            } else {
                assert(longer[j] == shorter[j]);
            }
        }
        assert forall|other: T::V| longer.contains(other) implies other == item || list.contains(
            other,
        ) by {
            let i = choose|i: int| 0 <= i < longer.len() && longer[i] == other;
            if i < shorter.len() {
                assert(shorter.contains(other));
            } else {
                assert(list[list.len() - 1] == other);
            }
        }
        assert(list =~= rest.push(list.last()));
        assert(rest.to_multiset().insert(item).insert(list.last()) =~= rest.to_multiset().insert(
            list.last(),
        ).insert(item));
    }
}

/// Sorting puts the items in order and neither loses nor adds any.
pub proof fn law_sorted<T: Ordered>(items: Seq<T::V>)
    ensures
        is_sorted::<T>(sorted::<T>(items)),
        sorted::<T>(items).len() == items.len(),
        sorted::<T>(items).to_multiset() == items.to_multiset(),
    decreases items.len(),
{
    broadcast use vstd::seq_lib::group_to_multiset_ensures;

    if items.len() > 0 {
        let rest = items.drop_last();
        law_sorted::<T>(rest);
        lemma_with_item::<T>(sorted::<T>(rest), items.last());
        assert(items =~= rest.push(items.last()));
    }
}

/// Those of the items that rank with the given one, in order.
pub open spec fn ranking_with<T: Ordered>(list: Seq<T::V>, rank: T::V) -> Seq<T::V>
    decreases list.len(),
{
    if list.len() == 0 {
        list
    } else {
        let earlier = ranking_with::<T>(list.drop_last(), rank);
        if T::le(list.last(), rank) && T::le(rank, list.last()) {
            earlier.push(list.last())
        } else {
            earlier
        }
    }
}

proof fn lemma_ranking_of_push<T: Ordered>(list: Seq<T::V>, item: T::V, rank: T::V)
    ensures
        ranking_with::<T>(list.push(item), rank) == if T::le(item, rank) && T::le(rank, item) {
            ranking_with::<T>(list, rank).push(item)
        } else {
            ranking_with::<T>(list, rank)
        },
{
    assert(list.push(item).drop_last() =~= list);
}

proof fn lemma_with_item_keeps<T: Ordered>(list: Seq<T::V>, item: T::V, rank: T::V)
    ensures
        ranking_with::<T>(with_item::<T>(list, item), rank) == ranking_with::<T>(
            list.push(item),
            rank,
        ),
    decreases list.len(),
{
    if list.len() > 0 && !T::le(list.last(), item) {
        let rest = list.drop_last();
        let last = list.last();
        lemma_with_item_keeps::<T>(rest, item, rank);
        assert(list =~= rest.push(last));
        lemma_ranking_of_push::<T>(with_item::<T>(rest, item), last, rank);
        lemma_ranking_of_push::<T>(rest, item, rank);
        lemma_ranking_of_push::<T>(rest, last, rank);
        lemma_ranking_of_push::<T>(list, item, rank);
        if T::le(last, rank) && T::le(rank, last) && T::le(item, rank) && T::le(rank, item) {
            T::lemma_transitive(last, rank, item);
        }
    }
}

/// Sorting leaves items that rank alike in the order in which they came.
pub proof fn law_sort_is_stable<T: Ordered>(items: Seq<T::V>, rank: T::V)
    ensures
        ranking_with::<T>(sorted::<T>(items), rank) == ranking_with::<T>(items, rank),
    decreases items.len(),
{
    if items.len() > 0 {
        let rest = items.drop_last();
        law_sort_is_stable::<T>(rest, rank);
        lemma_with_item_keeps::<T>(sorted::<T>(rest), items.last(), rank);
        lemma_ranking_of_push::<T>(sorted::<T>(rest), items.last(), rank);
    }
}

proof fn lemma_insertion<T: Ordered>(list: Seq<T::V>, item: T::V, place: int)
    requires
        0 <= place <= list.len(),
        place > 0 ==> T::le(list[place - 1], item),
        forall|i: int| place <= i < list.len() ==> !T::le(#[trigger] list[i], item),
    ensures
        with_item::<T>(list, item) == list.insert(place, item),
    decreases list.len(),
{
    if place == list.len() {
        assert(list.insert(place, item) =~= list.push(item));
    } else {
        let rest = list.drop_last();
        assert(!T::le(list[list.len() - 1], item));
        lemma_insertion::<T>(rest, item, place);
        assert(list.insert(place, item) =~= rest.insert(place, item).push(list.last()));
    }
}

/// Sorts the items; those that rank alike stay in the order in which they came.
pub fn sort<T: Ordered>(items: Vec<T>) -> (list: Vec<T>)
    ensures
        views(list@) == sorted::<T>(views(items@)),
{
    let ghost all = views(items@);
    let mut items = items;
    let mut list: Vec<T> = Vec::new();
    let mut coming: Vec<T> = Vec::new();
    assert(items@.take(items@.len() as int) =~= items@);
    while items.len() > 0
        invariant
            all == views(items@) + views(coming@).reverse(),
        decreases items@.len(),
    {
        let ghost before = items@;
        let ghost moved = coming@;
        if let Some(item) = items.pop() {
            coming.push(item);
            proof {
                assert(views(before) =~= views(items@).push(item@));
                assert(views(coming@) =~= views(moved).push(item@));
                assert(views(coming@).reverse() =~= seq![item@] + views(moved).reverse());
                assert(views(items@) + views(coming@).reverse() =~= views(before) + views(
                    moved,
                ).reverse());
            }
        }
    }
    assert(views(items@) =~= Seq::empty());
    assert(all =~= views(coming@).reverse());
    assert(views(list@) =~= Seq::empty());
    assert(all.take(0) =~= Seq::empty());
    while coming.len() > 0
        invariant
            coming@.len() <= all.len(),
            views(coming@).reverse() == all.skip(all.len() - coming@.len()),
            views(list@) == sorted::<T>(all.take(all.len() - coming@.len())),
        decreases coming@.len(),
    {
        let ghost done = all.len() - coming@.len();
        let ghost before = coming@;
        if let Some(item) = coming.pop() {
            proof {
                assert(views(before) =~= views(coming@).push(item@));
                assert(views(before).reverse()[0] == item@);
                assert(all.skip(done)[0] == all[done]);
                assert(all.take(done + 1).drop_last() =~= all.take(done));
                assert(all.take(done + 1).last() == item@);
                assert(views(coming@).reverse() =~= views(before).reverse().skip(1));
                assert(all.skip(done).skip(1) =~= all.skip(done + 1));
            }
            let ghost placed = views(list@);
            let mut place: usize = list.len();
            while place > 0 && !list[place - 1].not_after(&item)
                invariant
                    place <= list@.len(),
                    placed == views(list@),
                    forall|i: int| place <= i < placed.len() ==> !T::le(#[trigger] placed[i], item@),
                decreases place,
            {
                place -= 1;
            }
            proof {
                lemma_insertion::<T>(placed, item@, place as int);
            }
            list.insert(place, item);
            assert(views(list@) =~= placed.insert(place as int, item@));
        }
    }
    assert(all.take(all.len() as int) =~= all);
    list
}

} // verus!
