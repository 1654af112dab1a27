//! Stable sorting by a strict order.
use vstd::prelude::*;

use crate::table::Key;

verus! {

/// A strict order on values, as a program tests it.
pub trait Order<T: View> {
    /// Whether one value goes before another.
    spec fn before(&self, left: T::V, right: T::V) -> bool;

    /// Whether one value goes before another.
    fn is_before(&self, left: &T, right: &T) -> (result: bool)
        ensures
            result == self.before(left@, right@),
    ;
}

/// The order as a function.
pub open spec fn order_of<T: View, O: Order<T>>(order: &O) -> spec_fn(T::V, T::V) -> bool {
    |left: T::V, right: T::V| order.before(left, right)
}

/// The values as mathematical values, in order.
pub open spec fn views<T: View>(items: Seq<T>) -> Seq<T::V> {
    items.map_values(|item: T| item@)
}

/// A value put in front of the first one that does not go before it.
pub open spec fn inserted<V>(before: spec_fn(V, V) -> bool, value: V, items: Seq<V>) -> Seq<V>
    decreases items.len(),
{
    if items.len() > 0 && before(items[0], value) {
        seq![items[0]] + inserted(before, value, items.drop_first())
    } else {
        seq![value] + items
    }
}

/// The values in order; of two that neither goes before the other, the earlier
/// one stays first.
pub open spec fn ordered<V>(before: spec_fn(V, V) -> bool, items: Seq<V>) -> Seq<V>
    decreases items.len(),
{
    if items.len() == 0 {
        Seq::empty()
    } else {
        inserted(before, items[0], ordered(before, items.drop_first()))
    }
}

/// Sorts values.
pub fn sort_by<T: View, O: Order<T>>(items: Vec<T>, order: &O) -> (result: Vec<T>)
    ensures
        views(result@) == ordered(order_of(order), views(items@)),
{
    let ghost all = views(items@);
    let ghost before = order_of(order);
    let mut rest = items;
    let mut result: Vec<T> = Vec::new();
    assert(all.skip(all.len() as int) =~= Seq::empty());
    assert(views(result@) =~= Seq::empty());
    assert(views(rest@) =~= all.take(all.len() as int));
    while rest.len() > 0
        invariant
            rest.len() <= all.len(),
            views(rest@) == all.take(rest.len() as int),
            before == order_of(order),
            views(result@) == ordered(before, all.skip(rest.len() as int)),
        decreases rest.len(),
    {
        let ghost remaining = rest@;
        let value = rest.pop().unwrap();
        proof {
            assert(views(remaining).last() == value@);
            assert(views(rest@) =~= views(remaining).drop_last());
            assert(all.skip(rest.len() as int).drop_first() =~= all.skip(rest.len() + 1));
            assert(all.skip(rest.len() as int)[0] == value@);
            assert(all.take(rest.len() + 1).drop_last() =~= all.take(rest.len() as int));
        }
        insert_in_order(&mut result, value, order);
    }
    assert(all.skip(0) =~= all);
    result
}

/// Puts a value in front of the first one that does not go before it.
pub fn insert_in_order<T: View, O: Order<T>>(items: &mut Vec<T>, value: T, order: &O)
    ensures
        views(final(items)@) == inserted(order_of(order), value@, views(old(items)@)),
{
    let ghost all = views(items@);
    let ghost before = order_of(order);
    let mut position: usize = 0;
    assert(all.skip(0) =~= all);
    assert(all.take(0) + inserted(before, value@, all) =~= inserted(before, value@, all));
    while position < items.len() && order.is_before(&items[position], &value)
        invariant
            position <= items.len(),
            all == views(items@),
            before == order_of(order),
            items@ == old(items)@,
            all.take(position as int) + inserted(before, value@, all.skip(position as int))
                == inserted(before, value@, all),
        decreases items.len() - position,
    {
        proof {
            let tail = all.skip(position as int);
            assert(tail[0] == items@[position as int]@);
            assert(tail.drop_first() =~= all.skip(position + 1));
            assert(all.take(position + 1) =~= all.take(position as int).push(tail[0]));
            let rest = inserted(before, value@, all.skip(position + 1));
            assert(all.take(position as int) + (seq![tail[0]] + rest) =~= all.take(position + 1)
                + rest);
        }
        position = position + 1;
    }
    proof {
        let tail = all.skip(position as int);
        if position < items.len() {
            assert(tail[0] == items@[position as int]@);
        }
        assert(inserted(before, value@, tail) == seq![value@] + tail);
    }
    items.insert(position, value);
    proof {
        assert(views(items@) =~= all.take(position as int) + (seq![value@] + all.skip(
            position as int,
        )));
    }
}

/// Sorting keeps every value exactly as often as it occurred.
pub proof fn ordered_keeps_values<V>(before: spec_fn(V, V) -> bool, items: Seq<V>)
    ensures
        ordered(before, items).to_multiset() == items.to_multiset(),
        ordered(before, items).len() == items.len(),
    decreases items.len(),
{
    broadcast use vstd::seq_lib::group_to_multiset_ensures;

    if items.len() > 0 {
        ordered_keeps_values(before, items.drop_first());
        inserted_adds_value(before, items[0], ordered(before, items.drop_first()));
        assert(items =~= seq![items[0]] + items.drop_first());
        vstd::seq_lib::lemma_multiset_commutative(seq![items[0]], items.drop_first());
        assert(seq![items[0]] =~= Seq::<V>::empty().push(items[0]));
    } else {
        assert(items =~= Seq::empty());
    }
}

proof fn inserted_adds_value<V>(before: spec_fn(V, V) -> bool, value: V, items: Seq<V>)
    ensures
        inserted(before, value, items).to_multiset() == items.to_multiset().insert(value),
        inserted(before, value, items).len() == items.len() + 1,
    decreases items.len(),
{
    broadcast use vstd::seq_lib::group_to_multiset_ensures;

    assert(seq![value] =~= Seq::<V>::empty().push(value));
    if items.len() > 0 && before(items[0], value) {
        let rest = inserted(before, value, items.drop_first());
        inserted_adds_value(before, value, items.drop_first());
        vstd::seq_lib::lemma_multiset_commutative(seq![items[0]], rest);
        vstd::seq_lib::lemma_multiset_commutative(seq![items[0]], items.drop_first());
        assert(items =~= seq![items[0]] + items.drop_first());
        assert(seq![items[0]] =~= Seq::<V>::empty().push(items[0]));
        assert(inserted(before, value, items).to_multiset() =~= items.to_multiset().insert(value));
    } else {
        vstd::seq_lib::lemma_multiset_commutative(seq![value], items);
        assert(inserted(before, value, items).to_multiset() =~= items.to_multiset().insert(value));
    }
}

/// Whether a function is, on the values of a kind, a strict order in which
/// incomparability is transitive.
pub open spec fn is_weak_order<V>(
    before: spec_fn(V, V) -> bool,
    kind: spec_fn(V) -> bool,
) -> bool {
    &&& forall|a: V, b: V| kind(a) && kind(b) && #[trigger] before(a, b) ==> !before(b, a)
    &&& forall|a: V, b: V, c: V|
        kind(a) && kind(b) && kind(c) && (#[trigger] before(a, b)) && (#[trigger] before(b, c))
            ==> before(a, c)
    &&& forall|a: V, b: V, c: V|
        kind(a) && kind(b) && kind(c) && !(#[trigger] before(a, b)) && !(#[trigger] before(b, c))
            ==> !before(a, c)
}

/// Whether every value is of a kind.
pub open spec fn all_are<V>(kind: spec_fn(V) -> bool, items: Seq<V>) -> bool {
    forall|i: int| 0 <= i < items.len() ==> kind(#[trigger] items[i])
}

/// Whether no value goes before an earlier one.
pub open spec fn is_ordered<V>(before: spec_fn(V, V) -> bool, items: Seq<V>) -> bool {
    forall|i: int, j: int| 0 <= i < j < items.len() ==> !before(#[trigger] items[j], #[trigger] items[i])
}

/// Sorting puts the values in order.
pub proof fn ordered_is_ordered<V>(
    before: spec_fn(V, V) -> bool,
    kind: spec_fn(V) -> bool,
    items: Seq<V>,
)
    requires
        is_weak_order(before, kind),
        all_are(kind, items),
    ensures
        is_ordered(before, ordered(before, items)),
        all_are(kind, ordered(before, items)),
    decreases items.len(),
{
    if items.len() > 0 {
        assert(all_are(kind, items.drop_first()));
        ordered_is_ordered(before, kind, items.drop_first());
        inserted_is_ordered(before, kind, items[0], ordered(before, items.drop_first()));
    }
}

proof fn inserted_comes_from<V>(before: spec_fn(V, V) -> bool, value: V, items: Seq<V>, k: int)
    requires
        0 <= k < inserted(before, value, items).len(),
    ensures
        inserted(before, value, items)[k] == value || items.contains(
            inserted(before, value, items)[k],
        ),
    decreases items.len(),
{
    if items.len() > 0 && before(items[0], value) {
        if k > 0 {
            inserted_comes_from(before, value, items.drop_first(), k - 1);
            let rest = inserted(before, value, items.drop_first());
            let found = rest[k - 1];
            assert(inserted(before, value, items)[k] == found);
            if found != value {
                let m = choose|m: int|
                    0 <= m < items.drop_first().len() && items.drop_first()[m] == found;
                assert(items[m + 1] == found);
            }
        }
    } else if k > 0 {
        assert(inserted(before, value, items)[k] == items[k - 1]);
    }
}

proof fn inserted_is_ordered<V>(
    before: spec_fn(V, V) -> bool,
    kind: spec_fn(V) -> bool,
    value: V,
    items: Seq<V>,
)
    requires
        is_weak_order(before, kind),
        is_ordered(before, items),
        all_are(kind, items),
        kind(value),
    ensures
        is_ordered(before, inserted(before, value, items)),
        all_are(kind, inserted(before, value, items)),
    decreases items.len(),
{
    let result = inserted(before, value, items);
    if items.len() > 0 && before(items[0], value) {
        let rest = inserted(before, value, items.drop_first());
        assert(all_are(kind, items.drop_first()));
        inserted_is_ordered(before, kind, value, items.drop_first());
        assert forall|i: int| 0 <= i < result.len() implies kind(#[trigger] result[i]) by {
            if i > 0 {
                assert(result[i] == rest[i - 1]);
            }
        }
        assert forall|i: int, j: int| 0 <= i < j < result.len() implies !before(
            #[trigger] result[j],
            #[trigger] result[i],
        ) by {
            assert(result[j] == rest[j - 1]);
            if i == 0 {
                inserted_comes_from(before, value, items.drop_first(), j - 1);
                if result[j] != value {
                    let m = choose|m: int|
                        0 <= m < items.drop_first().len() && items.drop_first()[m] == result[j];
                    assert(items[m + 1] == result[j]);
                }
            } else {
                assert(result[i] == rest[i - 1]);
            }
        }
    } else {
        assert forall|i: int| 0 <= i < result.len() implies kind(#[trigger] result[i]) by {
            if i > 0 {
                assert(result[i] == items[i - 1]);
            }
        }
        assert forall|i: int, j: int| 0 <= i < j < result.len() implies !before(
            #[trigger] result[j],
            #[trigger] result[i],
        ) by {
            assert(result[j] == items[j - 1]);
            if i == 0 {
                if j > 1 {
                    assert(!before(items[j - 1], items[0]));
                }
            } else {
                assert(result[i] == items[i - 1]);
            }
        }
    }
}

/// Sorting leaves values alone that stand in order already.
pub proof fn ordered_leaves_ordered<V>(before: spec_fn(V, V) -> bool, items: Seq<V>)
    requires
        is_ordered(before, items),
    ensures
        ordered(before, items) == items,
    decreases items.len(),
{
    if items.len() > 0 {
        let rest = items.drop_first();
        assert(is_ordered(before, rest)) by {
            assert forall|i: int, j: int| 0 <= i < j < rest.len() implies !before(
                #[trigger] rest[j],
                #[trigger] rest[i],
            ) by {
                assert(!before(items[j + 1], items[i + 1]));
            }
        }
        ordered_leaves_ordered(before, rest);
        if rest.len() > 0 {
            assert(!before(items[1], items[0]));
            assert(rest[0] == items[1]);
        }
        assert(seq![items[0]] + rest =~= items);
    } else {
        assert(items =~= Seq::empty());
    }
}

/// The values of a kind, in the order in which they occur.
pub open spec fn those<V>(kind: spec_fn(V) -> bool, items: Seq<V>) -> Seq<V>
    decreases items.len(),
{
    if items.len() == 0 {
        Seq::empty()
    } else if kind(items[0]) {
        seq![items[0]] + those(kind, items.drop_first())
    } else {
        those(kind, items.drop_first())
    }
}

/// Sorting is stable: values of which none goes before another keep the order
/// in which they came.
pub proof fn ordered_is_stable<V>(
    before: spec_fn(V, V) -> bool,
    kind: spec_fn(V) -> bool,
    items: Seq<V>,
)
    requires
        forall|a: V, b: V| kind(a) && kind(b) ==> !#[trigger] before(a, b),
    ensures
        those(kind, ordered(before, items)) == those(kind, items),
    decreases items.len(),
{
    if items.len() > 0 {
        ordered_is_stable(before, kind, items.drop_first());
        inserted_is_stable(before, kind, items[0], ordered(before, items.drop_first()));
    }
}

proof fn inserted_is_stable<V>(
    before: spec_fn(V, V) -> bool,
    kind: spec_fn(V) -> bool,
    value: V,
    items: Seq<V>,
)
    requires
        forall|a: V, b: V| kind(a) && kind(b) ==> !#[trigger] before(a, b),
    ensures
        those(kind, inserted(before, value, items)) == if kind(value) {
            seq![value] + those(kind, items)
        } else {
            those(kind, items)
        },
    decreases items.len(),
{
    let result = inserted(before, value, items);
    if items.len() > 0 && before(items[0], value) {
        let rest = inserted(before, value, items.drop_first());
        inserted_is_stable(before, kind, value, items.drop_first());
        assert(result.drop_first() =~= rest);
        assert(result[0] == items[0]);
    } else {
        assert(result.drop_first() =~= items);
        assert(result[0] == value);
    }
}

/// The values without those that repeat their predecessor.
pub open spec fn deduped<V>(items: Seq<V>) -> Seq<V>
    decreases items.len(),
{
    if items.len() <= 1 {
        items
    } else if items.last() == items[items.len() - 2] {
        deduped(items.drop_last())
    } else {
        deduped(items.drop_last()).push(items.last())
    }
}

/// What remains ends as the values end.
proof fn deduped_ends_alike<V>(items: Seq<V>)
    requires
        items.len() > 0,
    ensures
        deduped(items).len() > 0,
        deduped(items).last() == items.last(),
    decreases items.len(),
{
    if items.len() > 1 && items.last() == items[items.len() - 2] {
        deduped_ends_alike(items.drop_last());
    }
}

/// Drops values that repeat their predecessor.
pub fn dedup<T: Key>(items: Vec<T>) -> (result: Vec<T>)
    ensures
        views(result@) == deduped(views(items@)),
{
    let ghost all = views(items@);
    let mut rest = items;
    let mut result: Vec<T> = Vec::new();
    assert(deduped(all) + views(result@) =~= deduped(all));
    while rest.len() > 0
        invariant
            deduped(views(rest@)) + views(result@) == deduped(all),
        decreases rest.len(),
    {
        let ghost remaining = views(rest@);
        let ghost kept = views(result@);
        let item = rest.pop().unwrap();
        proof {
            assert(views(rest@) =~= remaining.drop_last());
            assert(remaining.last() == item@);
            if rest@.len() > 0 {
                assert(remaining[remaining.len() - 2] == rest@[rest@.len() - 1]@);
            } else {
                assert(remaining =~= Seq::<T::V>::empty().push(item@));
                assert(views(rest@) =~= Seq::<T::V>::empty());
            }
        }
        let repeats = if rest.len() > 0 {
            rest[rest.len() - 1].same_key(&item)
        } else {
            false
        };
        if !repeats {
            result.insert(0, item);
            proof {
                assert(views(result@) =~= seq![item@] + kept);
                assert(deduped(views(rest@)).push(item@) + kept =~= deduped(views(rest@)) + (
                seq![item@] + kept));
            }
        }
    }
    proof {
        assert(views(rest@) =~= Seq::<T::V>::empty());
        assert(deduped(views(rest@)) + views(result@) =~= views(result@));
    }
    result
}

/// Whether every value goes before each later one.
pub open spec fn is_strictly_ordered<V>(before: spec_fn(V, V) -> bool, items: Seq<V>) -> bool {
    forall|i: int, j: int| 0 <= i < j < items.len() ==> before(#[trigger] items[i], #[trigger] items[j])
}

/// Sorted and deduplicated values stand in strict order and are the same
/// values, under an order that tells any two values apart.
pub proof fn sorted_unique<V>(before: spec_fn(V, V) -> bool, items: Seq<V>)
    requires
        is_ordered(before, items),
        is_weak_order(before, |value: V| true),
        forall|a: V, b: V| !#[trigger] before(a, b) && !before(b, a) ==> a == b,
    ensures
        is_strictly_ordered(before, deduped(items)),
        forall|value: V| #[trigger] deduped(items).contains(value) <==> items.contains(value),
        deduped(items).len() <= items.len(),
        deduped(items).len() == items.len() ==> deduped(items) == items,
    decreases items.len(),
{
    if items.len() > 1 {
        let rest = items.drop_last();
        assert(is_ordered(before, rest)) by {
            assert forall|i: int, j: int| 0 <= i < j < rest.len() implies !before(
                #[trigger] rest[j],
                #[trigger] rest[i],
            ) by {
                assert(!before(items[j], items[i]));
            }
        }
        sorted_unique(before, rest);
        deduped_ends_alike(rest);
        let short = deduped(rest);
        let all = deduped(items);
        let last = items.last();
        let previous = items[items.len() - 2];
        assert(rest.last() == previous);
        assert forall|value: V| #[trigger] all.contains(value) <==> items.contains(value) by {
            if items.contains(value) {
                let k = choose|k: int| 0 <= k < items.len() && items[k] == value;
                if k < rest.len() {
                    assert(rest[k] == value);
                    assert(short.contains(value));
                    let m = choose|m: int| 0 <= m < short.len() && short[m] == value;
                    assert(all[m] == value);
                } else if last == previous {
                    assert(rest[rest.len() - 1] == value);
                    assert(short.contains(value));
                } else {
                    assert(all[all.len() - 1] == value);
                }
            }
            if all.contains(value) {
                let k = choose|k: int| 0 <= k < all.len() && all[k] == value;
                if k < short.len() {
                    assert(short[k] == value);
                    assert(short.contains(value));
                    let m = choose|m: int| 0 <= m < rest.len() && rest[m] == value;
                    assert(items[m] == value);
                } else {
                    assert(items[items.len() - 1] == value);
                }
            }
        }
        if last != previous {
            assert(!before(last, previous));
            assert(before(previous, last));
            assert forall|i: int, j: int| 0 <= i < j < all.len() implies before(
                #[trigger] all[i],
                #[trigger] all[j],
            ) by {
                if j < short.len() {
                    assert(all[i] == short[i] && all[j] == short[j]);
                } else {
                    assert(all[i] == short[i]);
                    if i < short.len() - 1 {
                        assert(before(short[i], short[short.len() - 1]));
                    }
                    assert(short[short.len() - 1] == previous);
                }
            }
            if all.len() == items.len() {
                assert(all =~= items);
            }
        }
    } else {
        assert(deduped(items) == items);
    }
}

/// Under an order that tells any two values apart, sorting forgets the order
/// in which the values came.
pub proof fn sorting_forgets_arrival<V>(before: spec_fn(V, V) -> bool, left: Seq<V>, right: Seq<V>)
    requires
        is_weak_order(before, |value: V| true),
        forall|a: V, b: V| !#[trigger] before(a, b) && !before(b, a) ==> a == b,
        left.to_multiset() == right.to_multiset(),
    ensures
        ordered(before, left) == ordered(before, right),
{
    let kind = |value: V| true;
    let leq = |a: V, b: V| !before(b, a);
    assert(all_are(kind, left));
    assert(all_are(kind, right));
    ordered_is_ordered(before, kind, left);
    ordered_is_ordered(before, kind, right);
    ordered_keeps_values(before, left);
    ordered_keeps_values(before, right);
    let x = ordered(before, left);
    let y = ordered(before, right);
    assert(vstd::relations::sorted_by(x, leq)) by {
        assert forall|i: int, j: int| 0 <= i < j < x.len() implies #[trigger] leq(x[i], x[j]) by {
            assert(!before(x[j], x[i]));
        }
    }
    assert(vstd::relations::sorted_by(y, leq)) by {
        assert forall|i: int, j: int| 0 <= i < j < y.len() implies #[trigger] leq(y[i], y[j]) by {
            assert(!before(y[j], y[i]));
        }
    }
    assert(vstd::relations::total_ordering(leq)) by {
        assert forall|a: V, b: V, c: V| #[trigger] leq(a, b) && #[trigger] leq(b, c) implies leq(
            a,
            c,
        ) by {
            assert(!before(c, b) && !before(b, a));
        }
        assert forall|a: V, b: V| #[trigger] leq(a, b) && #[trigger] leq(b, a) implies a == b by {
            assert(!before(a, b));
        }
        assert forall|a: V| #[trigger] leq(a, a) by {
            assert(before(a, a) ==> !before(a, a));
        }
        assert forall|a: V, b: V| #[trigger] leq(a, b) || #[trigger] leq(b, a) by {
            assert(before(a, b) ==> !before(b, a));
        }
    }
    vstd::seq_lib::lemma_sorted_unique(x, y, leq);
}

/// Values in strict order are determined by which values they are.
pub proof fn strict_order_is_unique<V>(before: spec_fn(V, V) -> bool, left: Seq<V>, right: Seq<V>)
    requires
        is_weak_order(before, |value: V| true),
        is_strictly_ordered(before, left),
        is_strictly_ordered(before, right),
        forall|value: V| #[trigger] left.contains(value) <==> right.contains(value),
    ensures
        left == right,
    decreases left.len(),
{
    if left.len() == 0 {
        if right.len() > 0 {
            assert(right.contains(right[0]));
            assert(left.contains(right[0]));
        }
        assert(left =~= right);
    } else {
        let a = left.last();
        assert(left[left.len() - 1] == a);
        assert(left.contains(a));
        let k = choose|k: int| 0 <= k < right.len() && right[k] == a;
        let b = right.last();
        assert(right[right.len() - 1] == b);
        assert(right.contains(b));
        assert(left.contains(b));
        let m = choose|m: int| 0 <= m < left.len() && left[m] == b;
        if m < left.len() - 1 {
            assert(before(left[m], left[left.len() - 1]));
            if k < right.len() - 1 {
                assert(before(right[k], right[right.len() - 1]));
            }
        }
        assert(a == b);
        let x = left.drop_last();
        let y = right.drop_last();
        assert forall|value: V| #[trigger] x.contains(value) <==> y.contains(value) by {
            if x.contains(value) {
                let i = choose|i: int| 0 <= i < x.len() && x[i] == value;
                assert(left[i] == value);
                assert(before(left[i], left[left.len() - 1]));
                assert(left.contains(value));
                let j = choose|j: int| 0 <= j < right.len() && right[j] == value;
                assert(j < right.len() - 1);
                assert(y[j] == value);
            }
            if y.contains(value) {
                let i = choose|i: int| 0 <= i < y.len() && y[i] == value;
                assert(right[i] == value);
                assert(before(right[i], right[right.len() - 1]));
                assert(right.contains(value));
                assert(left.contains(value));
                let j = choose|j: int| 0 <= j < left.len() && left[j] == value;
                assert(j < left.len() - 1);
                assert(x[j] == value);
            }
        }
        assert(is_strictly_ordered(before, x)) by {
            assert forall|i: int, j: int| 0 <= i < j < x.len() implies before(
                #[trigger] x[i],
                #[trigger] x[j],
            ) by {
                assert(before(left[i], left[j]));
            }
        }
        assert(is_strictly_ordered(before, y)) by {
            assert forall|i: int, j: int| 0 <= i < j < y.len() implies before(
                #[trigger] y[i],
                #[trigger] y[j],
            ) by {
                assert(before(right[i], right[j]));
            }
        }
        strict_order_is_unique(before, x, y);
        assert(left =~= x.push(a));
        assert(right =~= y.push(a));
    }
}

/// The values in order, each once.
pub open spec fn distinct<V>(before: spec_fn(V, V) -> bool, items: Seq<V>) -> Seq<V> {
    deduped(ordered(before, items))
}

/// The distinct values stand in strict order and are the values.
pub proof fn distinct_is_strict<V>(before: spec_fn(V, V) -> bool, items: Seq<V>)
    requires
        is_weak_order(before, |value: V| true),
        forall|a: V, b: V| !#[trigger] before(a, b) && !before(b, a) ==> a == b,
    ensures
        is_strictly_ordered(before, distinct(before, items)),
        forall|value: V| #[trigger] distinct(before, items).contains(value) <==> items.contains(value),
{
    let any = |value: V| true;
    let sorted = ordered(before, items);
    assert(all_are(any, items));
    ordered_is_ordered(before, any, items);
    ordered_keeps_values(before, items);
    sorted_unique(before, sorted);
    assert forall|value: V| #[trigger] distinct(before, items).contains(value)
        <==> items.contains(value) by {
        broadcast use vstd::seq_lib::group_to_multiset_ensures;

        assert(sorted.contains(value) <==> sorted.to_multiset().count(value) > 0);
        assert(items.contains(value) <==> items.to_multiset().count(value) > 0);
    }
}

/// Sorting two parts, of which the first goes before the second, sorts both.
pub proof fn ordered_in_parts<V>(before: spec_fn(V, V) -> bool, left: Seq<V>, right: Seq<V>)
    requires
        is_weak_order(before, |value: V| true),
        forall|a: V, b: V| !#[trigger] before(a, b) && !before(b, a) ==> a == b,
        forall|i: int, j: int|
            0 <= i < left.len() && 0 <= j < right.len() ==> before(
                #[trigger] left[i],
                #[trigger] right[j],
            ),
    ensures
        ordered(before, left + right) == ordered(before, left) + ordered(before, right),
{
    broadcast use vstd::seq_lib::group_to_multiset_ensures;

    let any = |value: V| true;
    assert(all_are(any, left));
    assert(all_are(any, right));
    ordered_is_ordered(before, any, left);
    ordered_is_ordered(before, any, right);
    ordered_keeps_values(before, left);
    ordered_keeps_values(before, right);
    let x = ordered(before, left);
    let y = ordered(before, right);
    let whole = x + y;
    assert forall|i: int, j: int| 0 <= i < j < whole.len() implies !before(
        #[trigger] whole[j],
        #[trigger] whole[i],
    ) by {
        if j < x.len() {
            assert(whole[i] == x[i] && whole[j] == x[j]);
        } else if i >= x.len() {
            assert(whole[i] == y[i - x.len()] && whole[j] == y[j - x.len()]);
        } else {
            let a = whole[i];
            let b = whole[j];
            assert(x[i] == a && y[j - x.len()] == b);
            assert(x.to_multiset().count(a) > 0);
            assert(y.to_multiset().count(b) > 0);
            assert(left.contains(a) && right.contains(b));
            let m = choose|m: int| 0 <= m < left.len() && left[m] == a;
            let n = choose|n: int| 0 <= n < right.len() && right[n] == b;
            assert(before(left[m], right[n]));
        }
    }
    ordered_leaves_ordered(before, whole);
    vstd::seq_lib::lemma_multiset_commutative(x, y);
    vstd::seq_lib::lemma_multiset_commutative(left, right);
    sorting_forgets_arrival(before, whole, left + right);
}

/// Whether values are the first of others: as many of them as there may be, in
/// order, none of them more often than it occurs, and nothing that is left out
/// goes before one of them.
pub open spec fn are_first_of<V>(
    before: spec_fn(V, V) -> bool,
    kept: Seq<V>,
    items: Seq<V>,
    most: int,
) -> bool {
    &&& kept.len() == if most < items.len() {
        most
    } else {
        items.len() as int
    }
    &&& is_ordered(before, kept)
    &&& exists|left: Seq<V>|
        {
            &&& #[trigger] (kept + left).to_multiset() == items.to_multiset()
            &&& forall|i: int, j: int|
                0 <= i < kept.len() && 0 <= j < left.len() ==> !before(
                    #[trigger] left[j],
                    #[trigger] kept[i],
                )
        }
}

/// The first values after sorting are the first of all values.
pub proof fn sorting_brings_the_first<V>(
    before: spec_fn(V, V) -> bool,
    kind: spec_fn(V) -> bool,
    items: Seq<V>,
    most: int,
)
    requires
        0 <= most,
        is_weak_order(before, kind),
        all_are(kind, items),
    ensures
        are_first_of(
            before,
            ordered(before, items).take(
                if most < items.len() {
                    most
                } else {
                    items.len() as int
                },
            ),
            items,
            most,
        ),
{
    let all = ordered(before, items);
    let count = if most < items.len() {
        most
    } else {
        items.len() as int
    };
    ordered_is_ordered(before, kind, items);
    ordered_keeps_values(before, items);
    let kept = all.take(count);
    let left = all.skip(count);
    assert(kept + left =~= all);
    assert forall|i: int, j: int| 0 <= i < j < kept.len() implies !before(
        #[trigger] kept[j],
        #[trigger] kept[i],
    ) by {
        assert(kept[i] == all[i] && kept[j] == all[j]);
    }
    assert forall|i: int, j: int| 0 <= i < kept.len() && 0 <= j < left.len() implies !before(
        #[trigger] left[j],
        #[trigger] kept[i],
    ) by {
        assert(kept[i] == all[i] && left[j] == all[count + j]);
    }
}

/// Filtering knows no more of a value than whether it is of the kind.
pub proof fn filter_alike<V>(left: spec_fn(V) -> bool, right: spec_fn(V) -> bool, items: Seq<V>)
    requires
        forall|value: V| #[trigger] left(value) == right(value),
    ensures
        items.filter(left) == items.filter(right),
    decreases items.len(),
{
    reveal(Seq::filter);
    if items.len() > 0 {
        filter_alike(left, right, items.drop_last());
        assert(left(items.last()) == right(items.last()));
    }
}

} // verus!
