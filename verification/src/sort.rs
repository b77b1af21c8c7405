//! A stable sort by path.
use vstd::prelude::*;

use crate::path::{
    lemma_parts_before_total, lemma_parts_before_transitive, parts_before, parts_come_before,
    Component, ComponentView,
};
use crate::seqs::views;

verus! {

/// The sort keys, by index.
pub type Keys = Seq<Seq<ComponentView>>;

pub open spec fn key_before(keys: Keys, i: int, j: int) -> bool {
    parts_before(keys[i], keys[j])
}

/// The index put before the first one whose key is not before its own.
pub open spec fn placed(keys: Keys, order: Seq<int>, index: int) -> Seq<int>
    decreases order.len(),
{
    if order.len() == 0 || !key_before(keys, order[0], index) {
        seq![index] + order
    } else {
        seq![order[0]] + placed(keys, order.skip(1), index)
    }
}

/// The indices from `low` up to `high`, by key; those with one key keep their
/// order.
pub open spec fn order_between(keys: Keys, low: int, high: int) -> Seq<int>
    decreases high - low,
{
    if low >= high {
        Seq::empty()
    } else {
        placed(keys, order_between(keys, low + 1, high), low)
    }
}

/// The indices of the keys in sorted order.
pub open spec fn order(keys: Keys) -> Seq<int> {
    order_between(keys, 0, keys.len() as int)
}

/// The items in the order of their indices.
pub open spec fn arranged<T>(items: Seq<T>, indices: Seq<int>) -> Seq<T> {
    Seq::new(indices.len(), |i: int| items[indices[i]])
}

/// Two orders made one; on a tie the first goes first.
spec fn merged(keys: Keys, a: Seq<int>, b: Seq<int>) -> Seq<int>
    decreases a.len() + b.len(),
{
    if a.len() == 0 {
        b
    } else if b.len() == 0 {
        a
    } else if key_before(keys, b[0], a[0]) {
        seq![b[0]] + merged(keys, a, b.skip(1))
    } else {
        seq![a[0]] + merged(keys, a.skip(1), b)
    }
}

proof fn lemma_not_before(keys: Keys, i: int, j: int, k: int)
    requires
        !key_before(keys, j, i),
        !key_before(keys, k, j),
    ensures
        !key_before(keys, k, i),
{
    lemma_parts_before_total(keys[j], keys[i]);
    lemma_parts_before_total(keys[k], keys[j]);
    if key_before(keys, k, i) && keys[k] != keys[j] {
        lemma_parts_before_transitive(keys[j], keys[k], keys[i]);
    }
}

proof fn lemma_placed_merged(keys: Keys, a: Seq<int>, b: Seq<int>, index: int)
    ensures
        placed(keys, merged(keys, a, b), index) == merged(keys, placed(keys, a, index), b),
    decreases a.len() + b.len(),
{
    let left = placed(keys, merged(keys, a, b), index);
    let with = placed(keys, a, index);
    if a.len() == 0 {
        assert(with =~= seq![index]);
        if b.len() > 0 && key_before(keys, b[0], index) {
            lemma_placed_merged(keys, a, b.skip(1), index);
            assert(merged(keys, a, b.skip(1)) =~= b.skip(1));
        } else {
            assert(with.skip(1) =~= a);
        }
    } else if b.len() == 0 {
    } else if key_before(keys, b[0], a[0]) {
        let rest = merged(keys, a, b.skip(1));
        assert(merged(keys, a, b) =~= seq![b[0]] + rest);
        assert(merged(keys, a, b).skip(1) =~= rest);
        lemma_placed_merged(keys, a, b.skip(1), index);
        if !key_before(keys, b[0], index) {
            if key_before(keys, a[0], index) {
                lemma_parts_before_transitive(keys[b[0]], keys[a[0]], keys[index]);
            }
            assert(with.skip(1) =~= a);
        } else {
            assert(with[0] == index || with[0] == a[0]);
        }
    } else {
        let rest = merged(keys, a.skip(1), b);
        assert(merged(keys, a, b) =~= seq![a[0]] + rest);
        assert(merged(keys, a, b).skip(1) =~= rest);
        lemma_placed_merged(keys, a.skip(1), b, index);
        if !key_before(keys, a[0], index) {
            lemma_not_before(keys, index, a[0], b[0]);
            assert(with.skip(1) =~= a);
        } else {
            assert(with.skip(1) =~= placed(keys, a.skip(1), index));
        }
    }
}

proof fn lemma_merged_order(keys: Keys, low: int, middle: int, high: int)
    requires
        low <= middle <= high,
    ensures
        merged(keys, order_between(keys, low, middle), order_between(keys, middle, high))
            == order_between(keys, low, high),
    decreases middle - low,
{
    if low < middle {
        lemma_merged_order(keys, low + 1, middle, high);
        lemma_placed_merged(
            keys,
            order_between(keys, low + 1, middle),
            order_between(keys, middle, high),
            low,
        );
    }
}

proof fn lemma_placed_elements(keys: Keys, order: Seq<int>, index: int)
    ensures
        placed(keys, order, index).len() == order.len() + 1,
        forall|x: int|
            #[trigger] placed(keys, order, index).contains(x) <==> x == index || order.contains(x),
    decreases order.len(),
{
    let result = placed(keys, order, index);
    if order.len() == 0 || !key_before(keys, order[0], index) {
        assert forall|x: int| #[trigger] result.contains(x) <==> x == index || order.contains(
            x,
        ) by {
            assert(result[0] == index);
            if order.contains(x) {
                let k = order.index_of(x);
                assert(result[k + 1] == x);
            }
            if result.contains(x) && x != index {
                let k = result.index_of(x);
                assert(order[k - 1] == x);
            }
        }
    } else {
        let rest = placed(keys, order.skip(1), index);
        lemma_placed_elements(keys, order.skip(1), index);
        assert forall|x: int| #[trigger] result.contains(x) <==> x == index || order.contains(
            x,
        ) by {
            assert(result[0] == order[0]);
            if order.contains(x) && x != order[0] {
                let k = order.index_of(x);
                assert(order.skip(1)[k - 1] == x);
                assert(rest.contains(x));
            }
            if x == index || rest.contains(x) {
                assert(rest.contains(x));
                let k = rest.index_of(x);
                assert(result[k + 1] == x);
            }
            if result.contains(x) && x != order[0] {
                let k = result.index_of(x);
                assert(rest[k - 1] == x);
                assert(rest.contains(x));
                if x != index {
                    assert(order.skip(1).contains(x));
                    let m = order.skip(1).index_of(x);
                    assert(order[m + 1] == x);
                }
            }
        }
    }
}

/// Whether no index stands after one that it should stand before.
pub open spec fn stands_in_order(keys: Keys, order: Seq<int>) -> bool {
    forall|i: int, j: int|
        #![trigger order[i], order[j]]
        0 <= i < j < order.len() ==> !key_before(keys, order[j], order[i]) && (keys[order[i]]
            == keys[order[j]] ==> order[i] < order[j])
}

proof fn lemma_placed_order(keys: Keys, order: Seq<int>, index: int)
    requires
        stands_in_order(keys, order),
        forall|i: int| 0 <= i < order.len() ==> index < #[trigger] order[i],
    ensures
        stands_in_order(keys, placed(keys, order, index)),
    decreases order.len(),
{
    let result = placed(keys, order, index);
    if order.len() == 0 || !key_before(keys, order[0], index) {
        assert forall|i: int, j: int|
            #![trigger result[i], result[j]]
            0 <= i < j < result.len() implies !key_before(keys, result[j], result[i]) && (
        keys[result[i]] == keys[result[j]] ==> result[i] < result[j]) by {
            assert(result[j] == order[j - 1]);
            if i > 0 {
                assert(result[i] == order[i - 1]);
            } else if j > 1 {
                assert(!key_before(keys, order[j - 1], order[0]));
                lemma_not_before(keys, index, order[0], order[j - 1]);
            }
        }
    } else {
        let tail = order.skip(1);
        assert forall|i: int, j: int|
            #![trigger tail[i], tail[j]]
            0 <= i < j < tail.len() implies !key_before(keys, tail[j], tail[i]) && (keys[tail[i]]
            == keys[tail[j]] ==> tail[i] < tail[j]) by {
            assert(tail[i] == order[i + 1] && tail[j] == order[j + 1]);
        }
        assert forall|i: int| 0 <= i < tail.len() implies index < #[trigger] tail[i] by {
            assert(tail[i] == order[i + 1]);
        }
        lemma_placed_order(keys, tail, index);
        lemma_placed_elements(keys, tail, index);
        let rest = placed(keys, tail, index);
        assert forall|i: int, j: int|
            #![trigger result[i], result[j]]
            0 <= i < j < result.len() implies !key_before(keys, result[j], result[i]) && (
        keys[result[i]] == keys[result[j]] ==> result[i] < result[j]) by {
            assert(result[j] == rest[j - 1]);
            if i > 0 {
                assert(result[i] == rest[i - 1]);
            } else {
                assert(rest.contains(rest[j - 1]));
                if rest[j - 1] == index {
                    lemma_parts_before_total(keys[order[0]], keys[index]);
                } else {
                    let k = tail.index_of(rest[j - 1]);
                    assert(order[k + 1] == rest[j - 1]);
                }
            }
        }
    }
}

proof fn lemma_order_between(keys: Keys, low: int, high: int)
    requires
        low <= high,
    ensures
        order_between(keys, low, high).len() == high - low,
        forall|x: int|
            #[trigger] order_between(keys, low, high).contains(x) <==> low <= x < high,
        stands_in_order(keys, order_between(keys, low, high)),
    decreases high - low,
{
    if low < high {
        let rest = order_between(keys, low + 1, high);
        lemma_order_between(keys, low + 1, high);
        lemma_placed_elements(keys, rest, low);
        assert forall|i: int| 0 <= i < rest.len() implies low < #[trigger] rest[i] by {
            assert(rest.contains(rest[i]));
        }
        lemma_placed_order(keys, rest, low);
    }
}

/// Sorting keeps every index once, puts keys in order, and leaves those with
/// the same key in the order they had.
pub proof fn law_order_is_sorted(keys: Keys)
    ensures
        order(keys).len() == keys.len(),
        forall|x: int| #[trigger] order(keys).contains(x) <==> 0 <= x < keys.len(),
        stands_in_order(keys, order(keys)),
{
    lemma_order_between(keys, 0, keys.len() as int);
}

proof fn lemma_first_item<T>(x: T, rest: Seq<T>)
    ensures
        (seq![x] + rest).to_multiset() == rest.to_multiset().insert(x),
{
    broadcast use vstd::seq_lib::group_to_multiset_ensures;

    vstd::seq_lib::lemma_multiset_commutative(seq![x], rest);
    assert(seq![x] =~= Seq::empty().push(x));
    assert((seq![x] + rest).to_multiset() =~= rest.to_multiset().insert(x));
}

proof fn lemma_placed_items<T>(items: Seq<T>, keys: Keys, order: Seq<int>, index: int)
    ensures
        arranged(items, placed(keys, order, index)).to_multiset() == arranged(
            items,
            order,
        ).to_multiset().insert(items[index]),
    decreases order.len(),
{
    let all = arranged(items, placed(keys, order, index));
    if order.len() == 0 || !key_before(keys, order[0], index) {
        assert(all =~= seq![items[index]] + arranged(items, order));
        lemma_first_item(items[index], arranged(items, order));
    } else {
        let rest = order.skip(1);
        lemma_placed_items(items, keys, rest, index);
        assert(all =~= seq![items[order[0]]] + arranged(items, placed(keys, rest, index)));
        assert(arranged(items, order) =~= seq![items[order[0]]] + arranged(items, rest));
        lemma_first_item(items[order[0]], arranged(items, placed(keys, rest, index)));
        lemma_first_item(items[order[0]], arranged(items, rest));
        assert(all.to_multiset() =~= arranged(items, order).to_multiset().insert(items[index]));
    }
}

proof fn lemma_order_between_items<T>(items: Seq<T>, keys: Keys, low: int, high: int)
    requires
        0 <= low <= high <= items.len(),
    ensures
        arranged(items, order_between(keys, low, high)).to_multiset() == items.subrange(
            low,
            high,
        ).to_multiset(),
    decreases high - low,
{
    if low == high {
        assert(arranged(items, order_between(keys, low, high)) =~= items.subrange(low, high));
    } else {
        lemma_order_between_items(items, keys, low + 1, high);
        lemma_placed_items(items, keys, order_between(keys, low + 1, high), low);
        assert(items.subrange(low, high) =~= seq![items[low]] + items.subrange(low + 1, high));
        lemma_first_item(items[low], items.subrange(low + 1, high));
    }
}

/// Sorting items by their keys loses none, adds none and changes none.
pub proof fn law_sorting_keeps_every_item<T>(items: Seq<T>, keys: Keys)
    requires
        items.len() == keys.len(),
    ensures
        arranged(items, order(keys)).to_multiset() == items.to_multiset(),
{
    lemma_order_between_items(items, keys, 0, keys.len() as int);
    assert(items.subrange(0, items.len() as int) =~= items);
}

pub open spec fn as_ints(indices: Seq<usize>) -> Seq<int> {
    Seq::new(indices.len(), |i: int| indices[i] as int)
}

/// The keys, each a sequence of component views.
pub open spec fn key_views(keys: Seq<Vec<Component>>) -> Keys {
    Seq::new(keys.len(), |i: int| views(keys[i]@))
}

fn merge(keys: &Vec<Vec<Component>>, a: &Vec<usize>, b: &Vec<usize>) -> (result: Vec<usize>)
    requires
        forall|i: int| 0 <= i < a@.len() ==> #[trigger] a@[i] < keys@.len(),
        forall|i: int| 0 <= i < b@.len() ==> #[trigger] b@[i] < keys@.len(),
    ensures
        as_ints(result@) == merged(key_views(keys@), as_ints(a@), as_ints(b@)),
{
    let ghost k = key_views(keys@);
    let ghost x = as_ints(a@);
    let ghost y = as_ints(b@);
    let mut result: Vec<usize> = Vec::new();
    let mut i: usize = 0;
    let mut j: usize = 0;
    proof {
        assert(x.skip(0) =~= x);
        assert(y.skip(0) =~= y);
        assert(as_ints(result@) + merged(k, x, y) =~= merged(k, x, y));
    }
    while i < a.len() || j < b.len()
        invariant
            i <= a@.len(),
            j <= b@.len(),
            k == key_views(keys@),
            x == as_ints(a@),
            y == as_ints(b@),
            forall|i: int| 0 <= i < a@.len() ==> #[trigger] a@[i] < keys@.len(),
            forall|i: int| 0 <= i < b@.len() ==> #[trigger] b@[i] < keys@.len(),
            as_ints(result@) + merged(k, x.skip(i as int), y.skip(j as int)) == merged(k, x, y),
        decreases a@.len() - i + b@.len() - j,
    {
        let ghost done = as_ints(result@);
        let ghost left = x.skip(i as int);
        let ghost right = y.skip(j as int);
        proof {
            if i < a@.len() {
                assert(left[0] == x[i as int]);
                assert(left.skip(1) =~= x.skip(i + 1));
            }
            if j < b@.len() {
                assert(right[0] == y[j as int]);
                assert(right.skip(1) =~= y.skip(j + 1));
            }
        }
        let from_left = if i >= a.len() {
            false
        } else if j >= b.len() {
            true
        } else {
            !parts_come_before(&keys[b[j]], &keys[a[i]])
        };
        if from_left {
            proof {
                if j >= b@.len() {
                    assert(right =~= Seq::empty());
                    assert(merged(k, left.skip(1), right) =~= left.skip(1));
                    assert(left =~= seq![left[0]] + left.skip(1));
                }
                assert(merged(k, left, right) =~= seq![left[0]] + merged(k, left.skip(1), right));
                assert(done + (seq![left[0]] + merged(k, left.skip(1), right)) =~= done.push(
                    left[0],
                ) + merged(k, left.skip(1), right));
            }
            result.push(a[i]);
            proof {
                assert(as_ints(result@) =~= done.push(left[0]));
            }
            i += 1;
        } else {
            proof {
                if i >= a@.len() {
                    assert(left =~= Seq::empty());
                    assert(merged(k, left, right.skip(1)) =~= right.skip(1));
                    assert(right =~= seq![right[0]] + right.skip(1));
                }
                assert(merged(k, left, right) =~= seq![right[0]] + merged(k, left, right.skip(1)));
                assert(done + (seq![right[0]] + merged(k, left, right.skip(1))) =~= done.push(
                    right[0],
                ) + merged(k, left, right.skip(1)));
            }
            result.push(b[j]);
            proof {
                assert(as_ints(result@) =~= done.push(right[0]));
            }
            j += 1;
        }
    }
    proof {
        assert(x.skip(i as int) =~= Seq::empty());
        assert(y.skip(j as int) =~= Seq::empty());
        assert(as_ints(result@) + Seq::<int>::empty() =~= as_ints(result@));
    }
    result
}

fn sort_between(keys: &Vec<Vec<Component>>, low: usize, high: usize) -> (result: Vec<usize>)
    requires
        low <= high <= keys@.len(),
    ensures
        as_ints(result@) == order_between(key_views(keys@), low as int, high as int),
        forall|i: int| 0 <= i < result@.len() ==> #[trigger] result@[i] < keys@.len(),
    decreases high - low,
{
    let ghost k = key_views(keys@);
    let mut result: Vec<usize> = Vec::new();
    if low < high {
        if high - low == 1 {
            result.push(low);
            proof {
                reveal_with_fuel(order_between, 2);
                assert(as_ints(result@) =~= seq![low as int]);
                assert(seq![low as int] + Seq::<int>::empty() =~= seq![low as int]);
            }
        } else {
            let middle = low + (high - low) / 2;
            let a = sort_between(keys, low, middle);
            let b = sort_between(keys, middle, high);
            result = merge(keys, &a, &b);
            proof {
                lemma_merged_order(k, low as int, middle as int, high as int);
            }
        }
    }
    proof {
        lemma_order_between(k, low as int, high as int);
        assert forall|i: int| 0 <= i < result@.len() implies #[trigger] result@[i]
            < keys@.len() by {
            let sorted = as_ints(result@);
            assert(sorted.contains(sorted[i]));
        }
        assert(as_ints(result@) =~= order_between(k, low as int, high as int));
    }
    result
}

/// The indices of the keys in sorted order.
pub fn sorted_indices(keys: &Vec<Vec<Component>>) -> (result: Vec<usize>)
    ensures
        as_ints(result@) == order(key_views(keys@)),
        forall|i: int| 0 <= i < result@.len() ==> #[trigger] result@[i] < keys@.len(),
{
    sort_between(keys, 0, keys.len())
}

} // verus!
