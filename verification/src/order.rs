//! Stable sorting by keys that are lists of texts.
use vstd::prelude::*;
use vstd::pervasive::cloned;

use crate::table::{rows, unique};
use crate::text::{text_less, texts};

verus! {

/// The lexicographic order of keys: their texts are compared one after the other.
pub open spec fn key_lt(left: Seq<Seq<char>>, right: Seq<Seq<char>>) -> bool
    decreases right.len(),
{
    right.len() > 0 && (left.len() == 0 || crate::text::text_lt(left[0], right[0]) || (left[0]
        == right[0] && key_lt(left.drop_first(), right.drop_first())))
}

/// No key precedes itself.
pub proof fn key_lt_irreflexive(key: Seq<Seq<char>>)
    ensures
        !key_lt(key, key),
    decreases key.len(),
{
    if key.len() > 0 {
        crate::text::text_lt_irreflexive(key[0]);
        key_lt_irreflexive(key.drop_first());
    }
}

/// The order of keys is transitive.
pub proof fn key_lt_transitive(a: Seq<Seq<char>>, b: Seq<Seq<char>>, c: Seq<Seq<char>>)
    requires
        key_lt(a, b),
        key_lt(b, c),
    ensures
        key_lt(a, c),
    decreases b.len(),
{
    if a.len() > 0 {
        if crate::text::text_lt(a[0], b[0]) && crate::text::text_lt(b[0], c[0]) {
            crate::text::text_lt_transitive(a[0], b[0], c[0]);
        } else if a[0] == b[0] && b[0] == c[0] && !crate::text::text_lt(a[0], c[0]) {
            key_lt_transitive(a.drop_first(), b.drop_first(), c.drop_first());
        }
    }
}

/// Of two different keys one precedes the other.
pub proof fn key_lt_total(a: Seq<Seq<char>>, b: Seq<Seq<char>>)
    ensures
        a == b || key_lt(a, b) || key_lt(b, a),
    decreases a.len(),
{
    if a.len() > 0 && b.len() > 0 {
        crate::text::text_lt_total(a[0], b[0]);
        if a[0] == b[0] {
            key_lt_total(a.drop_first(), b.drop_first());
            if a.drop_first() == b.drop_first() {
                assert(a =~= seq![a[0]] + a.drop_first());
                assert(b =~= seq![b[0]] + b.drop_first());
            }
        }
    } else if a.len() == 0 && b.len() == 0 {
        assert(a =~= b);
    }
}

fn key_less(left: &Vec<String>, right: &Vec<String>) -> (less: bool)
    ensures
        less == key_lt(texts(left@), texts(right@)),
{
    let ghost a = texts(left@);
    let ghost b = texts(right@);
    let mut i: usize = 0;
    proof {
        assert(a.skip(0) =~= a);
        assert(b.skip(0) =~= b);
    }
    while i < left.len() && i < right.len()
        invariant
            i <= left.len(),
            i <= right.len(),
            a == texts(left@),
            b == texts(right@),
            key_lt(a, b) == key_lt(a.skip(i as int), b.skip(i as int)),
        decreases left.len() - i,
    {
        proof {
            assert(a.skip(i as int).drop_first() =~= a.skip(i + 1));
            assert(b.skip(i as int).drop_first() =~= b.skip(i + 1));
            crate::text::text_lt_total(a[i as int], b[i as int]);
        }
        if text_less(left[i].as_str(), right[i].as_str()) {
            return true;
        }
        if left[i] != right[i] {
            return false;
        }
        proof {
            crate::text::text_lt_irreflexive(a[i as int]);
        }
        i = i + 1;
    }
    i < right.len()
}

/// The views of a list of keys.
pub open spec fn keys_view(keys: Seq<Vec<String>>) -> Seq<Seq<Seq<char>>> {
    keys.map_values(|key: Vec<String>| texts(key@))
}

/// Whether position `i` of a list comes before position `j` in its stable order by key.
pub open spec fn before(keys: Seq<Seq<Seq<char>>>, i: int, j: int) -> bool {
    key_lt(keys[i], keys[j]) || (keys[i] == keys[j] && i < j)
}

/// Whether `order` lists all positions of a list, in their stable order by key.
pub open spec fn sorts(keys: Seq<Seq<Seq<char>>>, order: Seq<int>) -> bool {
    &&& order.len() == keys.len()
    &&& forall|a: int| 0 <= a < order.len() ==> 0 <= #[trigger] order[a] < keys.len()
    &&& forall|i: int| 0 <= i < keys.len() ==> #[trigger] order.contains(i)
    &&& forall|a: int, b: int|
        0 <= a < b < order.len() ==> before(keys, #[trigger] order[a], #[trigger] order[b])
}

/// The positions that a list of machine integers names.
pub open spec fn positions(order: Seq<usize>) -> Seq<int> {
    order.map_values(|i: usize| i as int)
}

/// Finds the stable order of a list by key.
pub fn sort_order(keys: &Vec<Vec<String>>) -> (order: Vec<usize>)
    ensures
        sorts(keys_view(keys@), positions(order@)),
{
    let ghost views = keys_view(keys@);
    let mut order: Vec<usize> = Vec::new();
    for k in 0..keys.len()
        invariant
            views == keys_view(keys@),
            views.len() == keys@.len(),
            order@.len() == k,
            forall|a: int| 0 <= a < k ==> (#[trigger] order@[a]) < k,
            forall|i: usize| i < k ==> #[trigger] order@.contains(i),
            forall|a: int, b: int|
                0 <= a < b < k ==> before(
                    views,
                    #[trigger] order@[a] as int,
                    #[trigger] order@[b] as int,
                ),
    {
        let mut p: usize = 0;
        while p < order.len() && !key_less(&keys[k], &keys[order[p]])
            invariant
                views == keys_view(keys@),
                views.len() == keys@.len(),
                k < keys@.len(),
                p <= order@.len(),
                order@.len() == k,
                forall|a: int| 0 <= a < k ==> (#[trigger] order@[a]) < k,
                forall|a: int|
                    0 <= a < p ==> !key_lt(views[k as int], views[#[trigger] order@[a] as int]),
            decreases order.len() - p,
        {
            assert(texts(keys@[k as int]@) == views[k as int]);
            assert(texts(keys@[order@[p as int] as int]@) == views[order@[p as int] as int]);
            p = p + 1;
        }
        let ghost old_order = order@;
        order.insert(p, k);
        proof {
            if p < k {
                assert(texts(keys@[k as int]@) == views[k as int]);
                assert(texts(keys@[old_order[p as int] as int]@)
                    == views[old_order[p as int] as int]);
            }
            assert forall|i: usize| i < k + 1 implies #[trigger] order@.contains(i) by {
                if i == k {
                    assert(order@[p as int] == k);
                } else {
                    assert(old_order.contains(i));
                    let a = choose|a: int| 0 <= a < old_order.len() && old_order[a] == i;
                    if a < p {
                        assert(order@[a] == i);
                    } else {
                        assert(order@[a + 1] == i);
                    }
                }
            }
            assert forall|a: int| 0 <= a < k + 1 implies (#[trigger] order@[a]) < k + 1 by {
                if a < p {
                    assert(order@[a] == old_order[a]);
                } else if a > p {
                    assert(order@[a] == old_order[a - 1]);
                }
            }
            assert forall|a: int, b: int| 0 <= a < b < k + 1 implies before(
                views,
                #[trigger] order@[a] as int,
                #[trigger] order@[b] as int,
            ) by {
                if a < p && b < p {
                    assert(order@[a] == old_order[a] && order@[b] == old_order[b]);
                } else if a < p && b > p {
                    assert(order@[a] == old_order[a] && order@[b] == old_order[b - 1]);
                } else if a > p {
                    assert(order@[a] == old_order[a - 1] && order@[b] == old_order[b - 1]);
                } else if b == p {
                    assert(order@[a] == old_order[a]);
                    key_lt_total(views[old_order[a] as int], views[k as int]);
                } else {
                    assert(order@[b] == old_order[b - 1]);
                    let next = old_order[p as int] as int;
                    if b - 1 > p {
                        assert(before(views, old_order[p as int] as int, old_order[b - 1] as int));
                        if key_lt(views[next], views[old_order[b - 1] as int]) {
                            key_lt_transitive(
                                views[k as int],
                                views[next],
                                views[old_order[b - 1] as int],
                            );
                        }
                    }
                }
            }
        }
    }
    proof {
        let order_view = positions(order@);
        assert forall|i: int| 0 <= i < views.len() implies #[trigger] order_view.contains(i) by {
            assert(order@.contains(i as usize));
            let a = choose|a: int| 0 <= a < order@.len() && order@[a] == i as usize;
            assert(order_view[a] == i);
        }
        assert forall|a: int, b: int| 0 <= a < b < order_view.len() implies before(
            views,
            #[trigger] order_view[a],
            #[trigger] order_view[b],
        ) by {
            assert(before(views, order@[a] as int, order@[b] as int));
        }
    }
    order
}

/// The items of a list that positions name, in the order of the positions.
pub open spec fn picked<A>(items: Seq<A>, order: Seq<int>) -> Seq<A> {
    Seq::new(order.len(), |a: int| items[order[a]])
}

/// A list in its stable order by key.
pub open spec fn stable_sorted<A>(items: Seq<A>, keys: Seq<Seq<Seq<char>>>) -> Seq<A> {
    picked(items, choose|order: Seq<int>| sorts(keys, order))
}

proof fn before_asymmetric(keys: Seq<Seq<Seq<char>>>, i: int, j: int)
    requires
        before(keys, i, j),
    ensures
        !before(keys, j, i),
{
    key_lt_irreflexive(keys[i]);
    if key_lt(keys[i], keys[j]) && key_lt(keys[j], keys[i]) {
        key_lt_transitive(keys[i], keys[j], keys[i]);
    }
}

proof fn sorts_agree(keys: Seq<Seq<Seq<char>>>, a: Seq<int>, b: Seq<int>, n: int)
    requires
        sorts(keys, a),
        sorts(keys, b),
        0 <= n <= keys.len(),
    ensures
        forall|i: int| 0 <= i < n ==> #[trigger] a[i] == b[i],
    decreases n,
{
    if n > 0 {
        let k = n - 1;
        sorts_agree(keys, a, b, k);
        if a[k] != b[k] {
            assert(b.contains(a[k]));
            let j = choose|j: int| 0 <= j < b.len() && b[j] == a[k];
            assert(a.contains(b[k]));
            let i = choose|i: int| 0 <= i < a.len() && a[i] == b[k];
            if j < k {
                assert(a[j] == a[k]);
                before_asymmetric(keys, a[j], a[k]);
            }
            if i < k {
                assert(b[i] == b[k]);
                before_asymmetric(keys, b[i], b[k]);
            }
            assert(before(keys, b[k], b[j]));
            assert(before(keys, a[k], a[i]));
            before_asymmetric(keys, b[k], a[k]);
        }
    }
}

/// A list has one stable order by key only.
pub proof fn sorts_unique(keys: Seq<Seq<Seq<char>>>, a: Seq<int>, b: Seq<int>)
    requires
        sorts(keys, a),
        sorts(keys, b),
    ensures
        a == b,
{
    sorts_agree(keys, a, b, keys.len() as int);
    assert(a =~= b);
}

/// What sorts a list gives its stable order.
pub proof fn sorted_by_order<A>(items: Seq<A>, keys: Seq<Seq<Seq<char>>>, order: Seq<int>)
    requires
        sorts(keys, order),
    ensures
        stable_sorted(items, keys) == picked(items, order),
{
    sorts_unique(keys, order, choose|order: Seq<int>| sorts(keys, order));
}

/// Where a position belongs in an order of the positions before it.
spec fn slot(keys: Seq<Seq<Seq<char>>>, order: Seq<int>, k: int, from: nat) -> nat
    decreases order.len() - from,
{
    if from >= order.len() || key_lt(keys[k], keys[order[from as int]]) {
        from
    } else {
        slot(keys, order, k, from + 1)
    }
}

proof fn slot_bounds(keys: Seq<Seq<Seq<char>>>, order: Seq<int>, k: int, from: nat)
    requires
        from <= order.len(),
        forall|a: int| 0 <= a < from ==> !key_lt(keys[k], keys[#[trigger] order[a]]),
    ensures
        slot(keys, order, k, from) <= order.len(),
        forall|a: int|
            0 <= a < slot(keys, order, k, from) ==> !key_lt(keys[k], keys[#[trigger] order[a]]),
        slot(keys, order, k, from) < order.len() ==> key_lt(
            keys[k],
            keys[order[slot(keys, order, k, from) as int]],
        ),
    decreases order.len() - from,
{
    if !(from >= order.len() || key_lt(keys[k], keys[order[from as int]])) {
        slot_bounds(keys, order, k, from + 1);
    }
}

/// Whether the last position of a list stands in an order where it belongs among the others: after
/// those that its key does not precede.
spec fn last_inserted(
    keys: Seq<Seq<Seq<char>>>,
    order: Seq<int>,
    inner: Seq<int>,
    at: int,
) -> bool {
    &&& sorts(keys.drop_last(), inner)
    &&& 0 <= at <= inner.len()
    &&& order == inner.insert(at, keys.len() - 1)
    &&& forall|a: int| 0 <= a < at ==> !key_lt(keys.last(), keys[#[trigger] inner[a]])
    &&& forall|a: int| at <= a < inner.len() ==> key_lt(keys.last(), keys[#[trigger] inner[a]])
}

/// Every list has a stable order by key.
pub proof fn order_exists(keys: Seq<Seq<Seq<char>>>) -> (order: Seq<int>)
    ensures
        sorts(keys, order),
{
    if keys.len() == 0 {
        Seq::<int>::empty()
    } else {
        order_inserts(keys).0
    }
}

/// The stable order of a list is that of its front, with the last position where it belongs.
proof fn order_inserts(keys: Seq<Seq<Seq<char>>>) -> (result: (Seq<int>, Seq<int>, int))
    requires
        keys.len() > 0,
    ensures
        sorts(keys, result.0),
        last_inserted(keys, result.0, result.1, result.2),
    decreases keys.len(),
{
    let k = keys.len() - 1;
    let front = keys.drop_last();
    let inner = if front.len() == 0 {
        Seq::<int>::empty()
    } else {
        order_inserts(front).0
    };
    let p = slot(keys, inner, k, 0) as int;
    slot_bounds(keys, inner, k, 0);
    let order = inner.insert(p, k);
    assert forall|a: int| 0 <= a < order.len() implies 0 <= #[trigger] order[a] < keys.len() by {
        if a < p {
            assert(order[a] == inner[a]);
        } else if a > p {
            assert(order[a] == inner[a - 1]);
        }
    }
    assert forall|i: int| 0 <= i < keys.len() implies #[trigger] order.contains(i) by {
        if i == k {
            assert(order[p] == k);
        } else {
            assert(inner.contains(i));
            let a = choose|a: int| 0 <= a < inner.len() && inner[a] == i;
            if a < p {
                assert(order[a] == i);
            } else {
                assert(order[a + 1] == i);
            }
        }
    }
    assert forall|a: int, b: int| 0 <= a < b < order.len() implies before(
        keys,
        #[trigger] order[a],
        #[trigger] order[b],
    ) by {
        if a < p && b < p {
            assert(order[a] == inner[a] && order[b] == inner[b]);
            assert(before(front, inner[a], inner[b]));
        } else if a < p && b > p {
            assert(order[a] == inner[a] && order[b] == inner[b - 1]);
            assert(before(front, inner[a], inner[b - 1]));
        } else if a > p {
            assert(order[a] == inner[a - 1] && order[b] == inner[b - 1]);
            assert(before(front, inner[a - 1], inner[b - 1]));
        } else if b == p {
            assert(order[a] == inner[a]);
            key_lt_total(keys[inner[a]], keys[k]);
        } else {
            assert(order[b] == inner[b - 1]);
            let next = inner[p];
            if b - 1 > p {
                assert(before(front, inner[p], inner[b - 1]));
                if key_lt(keys[next], keys[inner[b - 1]]) {
                    key_lt_transitive(keys[k], keys[next], keys[inner[b - 1]]);
                }
            }
        }
    }
    assert forall|a: int| p <= a < inner.len() implies key_lt(
        keys.last(),
        keys[#[trigger] inner[a]],
    ) by {
        if a > p {
            assert(before(front, inner[p], inner[a]));
            if key_lt(keys[inner[p]], keys[inner[a]]) {
                key_lt_transitive(keys[k], keys[inner[p]], keys[inner[a]]);
            }
        }
    }
    (order, inner, p)
}

/// A sorted list with one more item: it comes after the last item that it does not precede.
pub open spec fn inserted<A>(list: Seq<A>, key: spec_fn(A) -> Seq<Seq<char>>, item: A) -> Seq<A>
    decreases list.len(),
{
    if list.len() > 0 && key_lt(key(item), key(list.last())) {
        inserted(list.drop_last(), key, item).push(list.last())
    } else {
        list.push(item)
    }
}

/// A list, sorted by inserting its items one after the other.
spec fn all_inserted<A>(items: Seq<A>, key: spec_fn(A) -> Seq<Seq<char>>) -> Seq<A>
    decreases items.len(),
{
    if items.len() == 0 {
        items
    } else {
        inserted(all_inserted(items.drop_last(), key), key, items.last())
    }
}

proof fn inserted_at<A>(list: Seq<A>, key: spec_fn(A) -> Seq<Seq<char>>, item: A, at: int)
    requires
        0 <= at <= list.len(),
        forall|a: int| 0 <= a < at ==> !key_lt(key(item), key(#[trigger] list[a])),
        forall|a: int| at <= a < list.len() ==> key_lt(key(item), key(#[trigger] list[a])),
    ensures
        inserted(list, key, item) == list.insert(at, item),
    decreases list.len(),
{
    if list.len() > 0 {
        if at == list.len() {
            assert(!key_lt(key(item), key(list[list.len() - 1])));
            assert(list.insert(at, item) =~= list.push(item));
        } else {
            let front = list.drop_last();
            assert forall|a: int| 0 <= a < at implies !key_lt(key(item), key(#[trigger] front[a])) by {
                assert(front[a] == list[a]);
            }
            assert forall|a: int| at <= a < front.len() implies key_lt(
                key(item),
                key(#[trigger] front[a]),
            ) by {
                assert(front[a] == list[a]);
            }
            inserted_at(front, key, item, at);
            assert(list.insert(at, item) =~= front.insert(at, item).push(list.last()));
        }
    } else {
        assert(list.insert(at, item) =~= list.push(item));
    }
}

proof fn sorted_by_inserting<A>(items: Seq<A>, key: spec_fn(A) -> Seq<Seq<char>>)
    ensures
        stable_sorted(items, items.map_values(key)) == all_inserted(items, key),
    decreases items.len(),
{
    let keys = items.map_values(key);
    if items.len() == 0 {
        let order = order_exists(keys);
        sorted_by_order(items, keys, order);
        assert(picked(items, order) =~= items);
    } else {
        let front = items.drop_last();
        let (order, inner, at) = order_inserts(keys);
        assert(keys.drop_last() =~= front.map_values(key));
        sorted_by_order(items, keys, order);
        sorted_by_order(front, keys.drop_last(), inner);
        sorted_by_inserting(front, key);
        let list = picked(front, inner);
        assert forall|a: int| 0 <= a < at implies !key_lt(
            key(items.last()),
            key(#[trigger] list[a]),
        ) by {
            assert(!key_lt(keys.last(), keys[inner[a]]));
        }
        assert forall|a: int| at <= a < list.len() implies key_lt(
            key(items.last()),
            key(#[trigger] list[a]),
        ) by {
            assert(key_lt(keys.last(), keys[inner[a]]));
        }
        inserted_at(list, key, items.last(), at);
        assert(picked(items, order) =~= list.insert(at, items.last()));
    }
}

/// Whether the items of a list are in the order of their keys.
pub open spec fn in_order<A>(list: Seq<A>, key: spec_fn(A) -> Seq<Seq<char>>) -> bool {
    forall|a: int, b: int|
        0 <= a < b < list.len() ==> !key_lt(key(#[trigger] list[b]), key(#[trigger] list[a]))
}

proof fn inserted_filter<A>(
    list: Seq<A>,
    key: spec_fn(A) -> Seq<Seq<char>>,
    item: A,
    property: spec_fn(A) -> bool,
)
    requires
        in_order(list, key),
    ensures
        inserted(list, key, item).filter(property) == if property(item) {
            inserted(list.filter(property), key, item)
        } else {
            list.filter(property)
        },
    decreases list.len(),
{
    reveal(Seq::filter);
    if list.len() > 0 && key_lt(key(item), key(list.last())) {
        let front = list.drop_last();
        assert(in_order(front, key)) by {
            assert forall|a: int, b: int| 0 <= a < b < front.len() implies !key_lt(
                key(#[trigger] front[b]),
                key(#[trigger] front[a]),
            ) by {
                assert(front[a] == list[a] && front[b] == list[b]);
            }
        }
        inserted_filter(front, key, item, property);
        let longer = inserted(front, key, item).push(list.last());
        assert(longer.drop_last() =~= inserted(front, key, item));
        if property(list.last()) {
            let kept = list.filter(property);
            assert(kept == front.filter(property).push(list.last()));
            assert(kept.drop_last() =~= front.filter(property));
        }
    } else {
        assert(list.push(item).drop_last() =~= list);
        let kept = list.filter(property);
        if property(item) && kept.len() > 0 {
            crate::table::filter_rows(list, property);
            assert(kept.contains(kept.last()));
            let k = choose|k: int| 0 <= k < list.len() && list[k] == kept.last();
            let n = list.len() - 1;
            if key_lt(key(item), key(list[k])) && k < n {
                key_lt_total(key(item), key(list[n]));
                if key_lt(key(list[n]), key(item)) {
                    key_lt_transitive(key(list[n]), key(item), key(list[k]));
                }
                assert(!key_lt(key(list[n]), key(list[k])));
            }
        }
    }
}

/// To filter a sorted list is to sort the filtered one.
pub proof fn sorted_filter<A>(
    items: Seq<A>,
    key: spec_fn(A) -> Seq<Seq<char>>,
    property: spec_fn(A) -> bool,
)
    ensures
        stable_sorted(items, items.map_values(key)).filter(property) == stable_sorted(
            items.filter(property),
            items.filter(property).map_values(key),
        ),
    decreases items.len(),
{
    reveal(Seq::filter);
    let kept = items.filter(property);
    sorted_by_inserting(items, key);
    sorted_by_inserting(kept, key);
    if items.len() > 0 {
        let front = items.drop_last();
        sorted_filter(front, key, property);
        sorted_by_inserting(front, key);
        sorted_by_inserting(front.filter(property), key);
        sorted_in_order(front, key);
        inserted_filter(all_inserted(front, key), key, items.last(), property);
        if property(items.last()) {
            assert(kept.drop_last() =~= front.filter(property));
        }
    }
}

/// Sorting keeps every item: a sorted list has as many items as before, and the same ones.
pub proof fn sorted_same_items<A>(items: Seq<A>, keys: Seq<Seq<Seq<char>>>)
    requires
        items.len() == keys.len(),
    ensures
        stable_sorted(items, keys).len() == items.len(),
        forall|item: A| #[trigger]
            stable_sorted(items, keys).contains(item) <==> items.contains(item),
{
    let order = order_exists(keys);
    sorted_by_order(items, keys, order);
    let sorted = picked(items, order);
    assert forall|item: A| #[trigger]
        stable_sorted(items, keys).contains(item) <==> items.contains(item) by {
        if sorted.contains(item) {
            let a = choose|a: int| 0 <= a < sorted.len() && sorted[a] == item;
            assert(items[order[a]] == item);
        }
        if items.contains(item) {
            let i = choose|i: int| 0 <= i < items.len() && items[i] == item;
            assert(order.contains(i));
            let a = choose|a: int| 0 <= a < order.len() && order[a] == i;
            assert(sorted[a] == item);
        }
    }
}

/// A list that was sorted by a key of its items is in the order of that key.
pub proof fn sorted_in_order<A>(items: Seq<A>, key: spec_fn(A) -> Seq<Seq<char>>)
    ensures
        ({
            let sorted = stable_sorted(items, items.map_values(key));
            forall|a: int, b: int|
                0 <= a < b < sorted.len() ==> !key_lt(
                    key(#[trigger] sorted[b]),
                    key(#[trigger] sorted[a]),
                )
        }),
{
    let keys = items.map_values(key);
    let order = order_exists(keys);
    sorted_by_order(items, keys, order);
    let sorted = stable_sorted(items, keys);
    assert forall|a: int, b: int| 0 <= a < b < sorted.len() implies !key_lt(
        key(#[trigger] sorted[b]),
        key(#[trigger] sorted[a]),
    ) by {
        assert(before(keys, order[a], order[b]));
        before_asymmetric(keys, order[a], order[b]);
    }
}

/// Sorting keeps items apart that an identity tells apart.
pub proof fn sorted_unique<A, K>(
    items: Seq<A>,
    keys: Seq<Seq<Seq<char>>>,
    identity: spec_fn(A) -> K,
)
    requires
        items.len() == keys.len(),
        unique(items, identity),
    ensures
        unique(stable_sorted(items, keys), identity),
{
    let order = order_exists(keys);
    sorted_by_order(items, keys, order);
    let sorted = stable_sorted(items, keys);
    assert forall|a: int, b: int| 0 <= a < b < sorted.len() implies identity(#[trigger] sorted[a])
        != identity(#[trigger] sorted[b]) by {
        assert(before(keys, order[a], order[b]));
        before_asymmetric(keys, order[a], order[b]);
        let i = order[a];
        let j = order[b];
        assert(sorted[a] == items[i] && sorted[b] == items[j]);
        assert(i != j);
        if i < j {
            assert(identity(items[i]) != identity(items[j]));
        } else {
            assert(identity(items[j]) != identity(items[i]));
        }
    }
}

/// Sorts a list by keys.
pub(crate) fn sorted<T: View + Clone>(items: &Vec<T>, keys: &Vec<Vec<String>>) -> (result: Vec<T>)
    requires
        items@.len() == keys@.len(),
        forall|a: T, b: T| #[trigger] cloned(a, b) ==> a@ == b@,
    ensures
        rows(result@) == stable_sorted(rows(items@), keys_view(keys@)),
{
    let order: Vec<usize> = sort_order(keys);
    let ghost at = positions(order@);
    let ghost views = rows(items@);
    let mut result: Vec<T> = Vec::new();
    for a in 0..order.len()
        invariant
            sorts(keys_view(keys@), at),
            at == positions(order@),
            views == rows(items@),
            items@.len() == keys@.len(),
            forall|a: T, b: T| #[trigger] cloned(a, b) ==> a@ == b@,
            result@.len() == a,
            forall|b: int| 0 <= b < a ==> (#[trigger] result@[b])@ == views[at[b]],
    {
        assert(0 <= at[a as int] < keys_view(keys@).len());
        let item: &T = &items[order[a]];
        let copy: T = item.clone();
        assert(cloned(*item, copy));
        result.push(copy);
    }
    proof {
        sorted_by_order(views, keys_view(keys@), at);
        assert(rows(result@) =~= picked(views, at));
    }
    result
}

} // verus!
