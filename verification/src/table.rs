//! Lists of rows: finding, filtering and mapping them.
use vstd::prelude::*;

verus! {

/// The views of a list of rows.
pub open spec fn rows<T: View>(list: Seq<T>) -> Seq<T::V> {
    list.map_values(|row: T| row@)
}

/// Whether no two rows of a list have the same identity.
pub open spec fn unique<A, K>(list: Seq<A>, key: spec_fn(A) -> K) -> bool {
    forall|i: int, j: int|
        0 <= i < j < list.len() ==> key(#[trigger] list[i]) != key(#[trigger] list[j])
}

/// Whether some row has a property.
pub open spec fn any<A>(list: Seq<A>, property: spec_fn(A) -> bool) -> bool {
    exists|i: int| 0 <= i < list.len() && property(#[trigger] list[i])
}

/// Whether all rows have a property.
pub open spec fn all<A>(list: Seq<A>, property: spec_fn(A) -> bool) -> bool {
    forall|i: int| 0 <= i < list.len() ==> property(#[trigger] list[i])
}

/// The first row with a property.
pub open spec fn first<A>(list: Seq<A>, property: spec_fn(A) -> bool) -> Option<A>
    decreases list.len(),
{
    if list.len() == 0 {
        None
    } else if property(list[0]) {
        Some(list[0])
    } else {
        first(list.drop_first(), property)
    }
}

/// The rows after those with a property were changed.
pub open spec fn revised<A>(
    list: Seq<A>,
    property: spec_fn(A) -> bool,
    change: spec_fn(A) -> A,
) -> Seq<A> {
    list.map_values(
        |row: A|
            if property(row) {
                change(row)
            } else {
                row
            },
    )
}

/// What is made of the rows of a list, where something is made of them.
pub open spec fn made_of<A, B>(list: Seq<A>, make: spec_fn(A) -> Option<B>) -> Seq<B>
    decreases list.len(),
{
    if list.len() == 0 {
        Seq::empty()
    } else {
        match make(list.last()) {
            Some(row) => made_of(list.drop_last(), make).push(row),
            None => made_of(list.drop_last(), make),
        }
    }
}

/// Exactly what is made of a row is in the list of what is made.
pub proof fn made_rows<A, B>(list: Seq<A>, make: spec_fn(A) -> Option<B>)
    ensures
        forall|row: B| #[trigger]
            made_of(list, make).contains(row) <==> exists|i: int|
                0 <= i < list.len() && make(#[trigger] list[i]) == Some(row),
    decreases list.len(),
{
    if list.len() > 0 {
        let front = list.drop_last();
        made_rows(front, make);
        assert forall|row: B| #[trigger]
            made_of(list, make).contains(row) <==> exists|i: int|
                0 <= i < list.len() && make(#[trigger] list[i]) == Some(row) by {
            let all = made_of(list, make);
            let inner = made_of(front, make);
            if all.contains(row) {
                let a = choose|a: int| 0 <= a < all.len() && all[a] == row;
                if a < inner.len() {
                    assert(inner[a] == row);
                    assert(inner.contains(row));
                    let i = choose|i: int|
                        0 <= i < front.len() && make(#[trigger] front[i]) == Some(row);
                    assert(make(list[i]) == Some(row));
                } else {
                    assert(make(list[list.len() - 1]) == Some(row));
                }
            }
            if exists|i: int| 0 <= i < list.len() && make(#[trigger] list[i]) == Some(row) {
                let i = choose|i: int| 0 <= i < list.len() && make(#[trigger] list[i]) == Some(row);
                if i < front.len() {
                    assert(make(front[i]) == Some(row));
                    assert(inner.contains(row));
                    let a = choose|a: int| 0 <= a < inner.len() && inner[a] == row;
                    assert(all[a] == row);
                } else {
                    assert(all.last() == row);
                }
            }
        }
    }
}

/// To make something of fewer rows is to make it of all and drop the others, where a property of what
/// is made tells them apart.
pub proof fn made_filter<A, B>(
    list: Seq<A>,
    fewer: spec_fn(A) -> Option<B>,
    make: spec_fn(A) -> Option<B>,
    property: spec_fn(B) -> bool,
)
    requires
        forall|row: A|
            #[trigger] fewer(row) == match make(row) {
                Some(made) if property(made) => Some(made),
                _ => None,
            },
    ensures
        made_of(list, fewer) == made_of(list, make).filter(property),
    decreases list.len(),
{
    reveal(Seq::filter);
    if list.len() > 0 {
        made_filter(list.drop_last(), fewer, make, property);
        let front = made_of(list.drop_last(), make);
        assert(fewer(list.last()) == match make(list.last()) {
            Some(made) if property(made) => Some(made),
            _ => None,
        });
        if let Some(made) = make(list.last()) {
            assert(front.push(made).drop_last() =~= front);
        }
    }
}

/// What is made of rows that an identity tells apart is told apart by it, where it keeps it.
pub proof fn made_unique<A, B, K>(
    list: Seq<A>,
    make: spec_fn(A) -> Option<B>,
    key: spec_fn(A) -> K,
    identity: spec_fn(B) -> K,
)
    requires
        unique(list, key),
        forall|i: int|
            0 <= i < list.len() ==> (make(#[trigger] list[i]) matches Some(row) ==> identity(row)
                == key(list[i])),
    ensures
        unique(made_of(list, make), identity),
    decreases list.len(),
{
    if list.len() > 0 {
        let front = list.drop_last();
        assert forall|i: int, j: int| 0 <= i < j < front.len() implies key(#[trigger] front[i])
            != key(#[trigger] front[j]) by {
            assert(front[i] == list[i] && front[j] == list[j]);
        }
        assert forall|i: int| 0 <= i < front.len() implies (make(#[trigger] front[i]) matches Some(
            row,
        ) ==> identity(row) == key(front[i])) by {
            assert(front[i] == list[i]);
        }
        made_unique(front, make, key, identity);
        made_rows(front, make);
        let inner = made_of(front, make);
        let all = made_of(list, make);
        assert forall|a: int, b: int| 0 <= a < b < all.len() implies identity(#[trigger] all[a])
            != identity(#[trigger] all[b]) by {
            if b < inner.len() {
                assert(all[a] == inner[a] && all[b] == inner[b]);
            } else {
                assert(all[a] == inner[a]);
                assert(inner.contains(inner[a]));
                let i = choose|i: int|
                    0 <= i < front.len() && make(#[trigger] front[i]) == Some(inner[a]);
                assert(front[i] == list[i]);
                assert(make(list[list.len() - 1]) == Some(all[b]));
            }
        }
    }
}

/// The first row with a property is the one that no other with it precedes.
pub proof fn first_at<A>(list: Seq<A>, property: spec_fn(A) -> bool, at: int)
    requires
        0 <= at < list.len(),
        property(list[at]),
        forall|i: int| 0 <= i < at ==> !property(#[trigger] list[i]),
    ensures
        first(list, property) == Some(list[at]),
        any(list, property),
    decreases list.len(),
{
    if at > 0 {
        let rest = list.drop_first();
        assert(!property(list[0]));
        assert forall|i: int| 0 <= i < at - 1 implies !property(#[trigger] rest[i]) by {
            assert(rest[i] == list[i + 1]);
        }
        assert(rest[at - 1] == list[at]);
        first_at(rest, property, at - 1);
    }
}

/// There is no first row with a property exactly where no row has it.
pub proof fn first_none<A>(list: Seq<A>, property: spec_fn(A) -> bool)
    ensures
        first(list, property) is None <==> !any(list, property),
        first(list, property) matches Some(row) ==> property(row) && list.contains(row),
    decreases list.len(),
{
    if list.len() > 0 {
        let rest = list.drop_first();
        first_none(rest, property);
        if !property(list[0]) {
            if any(rest, property) {
                let i = choose|i: int| 0 <= i < rest.len() && property(#[trigger] rest[i]);
                assert(property(list[i + 1]));
            }
            if any(list, property) {
                let i = choose|i: int| 0 <= i < list.len() && property(#[trigger] list[i]);
                assert(property(rest[i - 1]));
            }
            if let Some(row) = first(rest, property) {
                let i = choose|i: int| 0 <= i < rest.len() && rest[i] == row;
                assert(list[i + 1] == row);
            }
        } else {
            assert(list[0] == list[0]);
        }
    }
}

/// One more row of a filtered list.
pub proof fn filter_step<A>(list: Seq<A>, property: spec_fn(A) -> bool, i: int)
    requires
        0 <= i < list.len(),
    ensures
        list.take(i + 1).filter(property) == if property(list[i]) {
            list.take(i).filter(property).push(list[i])
        } else {
            list.take(i).filter(property)
        },
{
    reveal(Seq::filter);
    assert(list.take(i + 1).drop_last() =~= list.take(i));
}

/// A filtered list holds exactly the rows with the property.
pub proof fn filter_rows<A>(list: Seq<A>, property: spec_fn(A) -> bool)
    ensures
        forall|row: A| #[trigger]
            list.filter(property).contains(row) <==> list.contains(row) && property(row),
    decreases list.len(),
{
    reveal(Seq::filter);
    if list.len() > 0 {
        let front = list.drop_last();
        filter_rows(front, property);
        assert forall|row: A| #[trigger]
            list.filter(property).contains(row) <==> list.contains(row) && property(row) by {
            let kept = list.filter(property);
            let inner = front.filter(property);
            if kept.contains(row) {
                let i = choose|i: int| 0 <= i < kept.len() && kept[i] == row;
                if i < inner.len() {
                    assert(inner[i] == row);
                    assert(inner.contains(row));
                    let j = choose|j: int| 0 <= j < front.len() && front[j] == row;
                    assert(list[j] == row);
                } else {
                    assert(list[list.len() - 1] == row);
                }
            }
            if list.contains(row) && property(row) {
                let i = choose|i: int| 0 <= i < list.len() && list[i] == row;
                if i < front.len() {
                    assert(front[i] == row);
                    assert(inner.contains(row));
                    let j = choose|j: int| 0 <= j < inner.len() && inner[j] == row;
                    assert(kept[j] == row);
                } else {
                    assert(kept.last() == row);
                }
            }
        }
    }
}

/// Finds the first row with a property.
pub(crate) fn position<T: View, F: Fn(&T) -> bool>(
    list: &Vec<T>,
    test: F,
    Ghost(property): Ghost<spec_fn(T::V) -> bool>,
) -> (at: Option<usize>)
    requires
        forall|row: &T| test.requires((row,)),
        forall|row: &T, answer: bool| test.ensures((row,), answer) ==> answer == property(row@),
    ensures
        match at {
            Some(i) => i < list@.len() && property(list@[i as int]@) && first(
                rows(list@),
                property,
            ) == Some(list@[i as int]@) && any(rows(list@), property) && forall|j: int|
                0 <= j < i ==> !property((#[trigger] list@[j])@),
            None => first(rows(list@), property) is None && !any(rows(list@), property),
        },
{
    let mut i: usize = 0;
    while i < list.len()
        invariant
            i <= list@.len(),
            forall|row: &T| test.requires((row,)),
            forall|row: &T, answer: bool| test.ensures((row,), answer) ==> answer == property(row@),
            forall|j: int| 0 <= j < i ==> !property((#[trigger] list@[j])@),
        decreases list@.len() - i,
    {
        if test(&list[i]) {
            proof {
                assert forall|j: int| 0 <= j < i implies !property(#[trigger] rows(list@)[j]) by {
                    assert(!property(list@[j]@));
                }
                first_at(rows(list@), property, i as int);
            }
            return Some(i);
        }
        i = i + 1;
    }
    proof {
        first_none(rows(list@), property);
        if any(rows(list@), property) {
            let j = choose|j: int|
                0 <= j < rows(list@).len() && property(#[trigger] rows(list@)[j]);
            assert(!property(list@[j]@));
        }
    }
    None
}

/// Keeps the rows with a property and drops the others.
pub(crate) fn retain<T: View, F: Fn(&T) -> bool>(
    list: &mut Vec<T>,
    test: F,
    Ghost(property): Ghost<spec_fn(T::V) -> bool>,
)
    requires
        forall|row: &T| test.requires((row,)),
        forall|row: &T, answer: bool| test.ensures((row,), answer) ==> answer == property(row@),
    ensures
        rows(final(list)@) == rows(old(list)@).filter(property),
{
    let ghost before = list@;
    let ghost views = rows(before);
    let mut i: usize = 0;
    let ghost mut seen: int = 0;
    assert(views.take(0).filter(property) =~= Seq::<T::V>::empty()) by {
        reveal(Seq::filter);
    }
    assert(rows(list@.take(0)) =~= Seq::<T::V>::empty());
    assert(before.skip(0) =~= before);
    assert(list@.skip(0) =~= list@);
    while i < list.len()
        invariant
            i <= list@.len(),
            0 <= seen <= before.len(),
            views == rows(before),
            rows(list@.take(i as int)) == views.take(seen).filter(property),
            list@.skip(i as int) == before.skip(seen),
            forall|row: &T| test.requires((row,)),
            forall|row: &T, answer: bool| test.ensures((row,), answer) ==> answer == property(row@),
        decreases list@.len() - i,
    {
        let ghost now = list@;
        proof {
            assert(now.skip(i as int).len() == now.len() - i);
            assert(before.skip(seen).len() == before.len() - seen);
            assert(now.skip(i as int)[0] == now[i as int]);
            assert(before.skip(seen)[0] == before[seen]);
            filter_step(views, property, seen);
        }
        if test(&list[i]) {
            proof {
                assert(rows(now.take(i + 1)) =~= rows(now.take(i as int)).push(now[i as int]@));
                assert(now.skip(i + 1) =~= now.skip(i as int).skip(1));
                assert(before.skip(seen + 1) =~= before.skip(seen).skip(1));
                seen = seen + 1;
            }
            i = i + 1;
        } else {
            list.remove(i);
            proof {
                assert(list@.take(i as int) =~= now.take(i as int));
                assert(list@.skip(i as int) =~= now.skip(i as int).skip(1));
                assert(before.skip(seen + 1) =~= before.skip(seen).skip(1));
                seen = seen + 1;
            }
        }
    }
    proof {
        assert(list@.skip(i as int).len() == 0);
        assert(views.take(seen) =~= views);
        assert(list@.take(i as int) =~= list@);
    }
}

/// Changes the rows with a property.
pub(crate) fn revise<T: View, F: Fn(&T) -> bool, G: Fn(&T) -> T>(
    list: &mut Vec<T>,
    test: F,
    change: G,
    Ghost(property): Ghost<spec_fn(T::V) -> bool>,
    Ghost(changed): Ghost<spec_fn(T::V) -> T::V>,
)
    requires
        forall|row: &T| test.requires((row,)),
        forall|row: &T, answer: bool| test.ensures((row,), answer) ==> answer == property(row@),
        forall|row: &T| change.requires((row,)),
        forall|row: &T, result: T| change.ensures((row,), result) ==> result@ == changed(row@),
    ensures
        rows(final(list)@) == revised(rows(old(list)@), property, changed),
{
    let ghost before = list@;
    let mut i: usize = 0;
    while i < list.len()
        invariant
            i <= list@.len(),
            list@.len() == before.len(),
            forall|row: &T| test.requires((row,)),
            forall|row: &T, answer: bool| test.ensures((row,), answer) ==> answer == property(row@),
            forall|row: &T| change.requires((row,)),
            forall|row: &T, result: T| change.ensures((row,), result) ==> result@ == changed(row@),
            forall|j: int|
                0 <= j < i ==> (#[trigger] list@[j])@ == revised(rows(before), property, changed)[j],
            forall|j: int| i <= j < before.len() ==> #[trigger] list@[j] == before[j],
        decreases list@.len() - i,
    {
        if test(&list[i]) {
            let row: T = change(&list[i]);
            list.set(i, row);
        }
        i = i + 1;
    }
    assert(rows(list@) =~= revised(rows(before), property, changed));
}

} // verus!
