//! Stable sorting by a strict order.

use vstd::prelude::*;
use vstd::seq_lib::lemma_multiset_commutative;

verus! {

/// `items` with `item` behind the last element that it does not come before.
pub open spec fn insert_ordered<T>(items: Seq<T>, item: T, less: spec_fn(T, T) -> bool) -> Seq<T>
    decreases items.len(),
{
    if items.len() > 0 && less(item, items.last()) {
        insert_ordered(items.drop_last(), item, less).push(items.last())
    } else {
        items.push(item)
    }
}

/// `items` in the order of `less`, with equal elements in the order they had.
pub open spec fn stable_sort<T>(items: Seq<T>, less: spec_fn(T, T) -> bool) -> Seq<T>
    decreases items.len(),
{
    if items.len() == 0 {
        items
    } else {
        insert_ordered(stable_sort(items.drop_last(), less), items.last(), less)
    }
}

/// Whether no element comes before one that stands ahead of it.
pub open spec fn sorted<T>(items: Seq<T>, less: spec_fn(T, T) -> bool) -> bool {
    forall|i: int, j: int|
        0 <= i < j < items.len() ==> !less(#[trigger] items[j], #[trigger] items[i])
}

/// Whether `less` is a strict order: nothing before itself, no two before each
/// other, and what is not before stays so along a chain.
pub open spec fn strict_order<T>(less: spec_fn(T, T) -> bool) -> bool {
    &&& forall|a: T, b: T| #[trigger] less(a, b) ==> !less(b, a)
    &&& forall|a: T, b: T, c: T|
        !#[trigger] less(b, a) && !#[trigger] less(c, b) ==> !less(c, a)
}

pub proof fn lemma_insert_contents<T>(items: Seq<T>, item: T, less: spec_fn(T, T) -> bool)
    ensures
        insert_ordered(items, item, less).len() == items.len() + 1,
        insert_ordered(items, item, less).to_multiset() =~= items.to_multiset().insert(item),
    decreases items.len(),
{
    broadcast use vstd::seq_lib::group_to_multiset_ensures;

    if items.len() > 0 && less(item, items.last()) {
        lemma_insert_contents(items.drop_last(), item, less);
        assert(items =~= items.drop_last().push(items.last()));
    }
}

/// Sorting keeps every element, as often as it occurs.
pub proof fn law_sort_keeps_elements<T>(items: Seq<T>, less: spec_fn(T, T) -> bool)
    ensures
        stable_sort(items, less).len() == items.len(),
        stable_sort(items, less).to_multiset() == items.to_multiset(),
    decreases items.len(),
{
    broadcast use vstd::seq_lib::group_to_multiset_ensures;

    if items.len() > 0 {
        law_sort_keeps_elements(items.drop_last(), less);
        lemma_insert_contents(stable_sort(items.drop_last(), less), items.last(), less);
        assert(items =~= items.drop_last().push(items.last()));
    }
}

proof fn lemma_insert_sorted<T>(items: Seq<T>, item: T, less: spec_fn(T, T) -> bool)
    requires
        strict_order(less),
        sorted(items, less),
    ensures
        sorted(insert_ordered(items, item, less), less),
        forall|bound: T|
            !#[trigger] less(bound, item) && (forall|i: int|
                0 <= i < items.len() ==> !less(bound, #[trigger] items[i])) ==> forall|i: int|
                0 <= i < items.len() + 1 ==> !less(
                    bound,
                    #[trigger] insert_ordered(items, item, less)[i],
                ),
    decreases items.len(),
{
    lemma_insert_contents(items, item, less);
    let out = insert_ordered(items, item, less);
    if items.len() > 0 && less(item, items.last()) {
        let rest = items.drop_last();
        lemma_insert_sorted(rest, item, less);
        lemma_insert_contents(rest, item, less);
        let front = insert_ordered(rest, item, less);
        let last = items.last();
        assert forall|i: int| 0 <= i < rest.len() implies !less(last, #[trigger] rest[i]) by {
            assert(rest[i] == items[i]);
        }
        assert forall|i: int, j: int| 0 <= i < j < out.len() implies !less(
            #[trigger] out[j],
            #[trigger] out[i],
        ) by {
            if j == out.len() - 1 {
                assert(out[i] == front[i]);
            } else {
                assert(out[i] == front[i] && out[j] == front[j]);
            }
        }
        assert forall|bound: T|
            !#[trigger] less(bound, item) && (forall|i: int|
                0 <= i < items.len() ==> !less(bound, #[trigger] items[i])) implies forall|i: int|
            0 <= i < items.len() + 1 ==> !less(bound, #[trigger] out[i]) by {
            assert forall|i: int| 0 <= i < rest.len() implies !less(bound, #[trigger] rest[i]) by {
                assert(rest[i] == items[i]);
            }
            assert forall|i: int| 0 <= i < items.len() + 1 implies !less(
                bound,
                #[trigger] out[i],
            ) by {
                if i == out.len() - 1 {
                    assert(out[i] == items[items.len() - 1]);
                } else {
                    assert(out[i] == front[i]);
                }
            }
        }
    } else {
        assert forall|i: int, j: int| 0 <= i < j < out.len() implies !less(
            #[trigger] out[j],
            #[trigger] out[i],
        ) by {
            if j == out.len() - 1 {
                assert(!less(item, items.last()));
                if i < items.len() - 1 {
                    assert(!less(items[items.len() - 1], items[i]));
                }
            } else {
                assert(out[i] == items[i] && out[j] == items[j]);
            }
        }
    }
}

/// Sorting by a strict order leaves nothing behind what it comes before.
pub proof fn law_sort_sorts<T>(items: Seq<T>, less: spec_fn(T, T) -> bool)
    requires
        strict_order(less),
    ensures
        sorted(stable_sort(items, less), less),
    decreases items.len(),
{
    if items.len() > 0 {
        law_sort_sorts(items.drop_last(), less);
        lemma_insert_sorted(stable_sort(items.drop_last(), less), items.last(), less);
    }
}

/// The sorted elements, one by one, are elements of the unsorted sequence.
pub proof fn lemma_sort_members<T>(items: Seq<T>, less: spec_fn(T, T) -> bool)
    ensures
        forall|i: int|
            0 <= i < items.len() ==> items.contains(#[trigger] stable_sort(items, less)[i]),
        forall|i: int|
            0 <= i < items.len() ==> stable_sort(items, less).contains(#[trigger] items[i]),
{
    broadcast use vstd::seq_lib::group_to_multiset_ensures;

    law_sort_keeps_elements(items, less);
    let out = stable_sort(items, less);
    assert forall|i: int| 0 <= i < items.len() implies items.contains(#[trigger] out[i]) by {
        assert(out.contains(out[i]));
        assert(out.to_multiset().count(out[i]) > 0);
    }
    assert forall|i: int| 0 <= i < items.len() implies out.contains(#[trigger] items[i]) by {
        assert(items.contains(items[i]));
        assert(items.to_multiset().count(items[i]) > 0);
    }
}

/// Sorting what a function makes of the elements is the same as making it of
/// the sorted elements, where the function keeps the order.
pub proof fn lemma_sort_map<T, U>(
    items: Seq<T>,
    f: spec_fn(T) -> U,
    less: spec_fn(T, T) -> bool,
    image_less: spec_fn(U, U) -> bool,
)
    requires
        forall|a: T, b: T| #[trigger] less(a, b) == image_less(f(a), f(b)),
    ensures
        stable_sort(items, less).map_values(f) == stable_sort(items.map_values(f), image_less),
    decreases items.len(),
{
    let image = items.map_values(f);
    if items.len() > 0 {
        lemma_sort_map(items.drop_last(), f, less, image_less);
        assert(image.drop_last() =~= items.drop_last().map_values(f));
        lemma_insert_map(stable_sort(items.drop_last(), less), items.last(), f, less, image_less);
    } else {
        assert(stable_sort(items, less).map_values(f) =~= stable_sort(image, image_less));
    }
}

proof fn lemma_insert_map<T, U>(
    items: Seq<T>,
    item: T,
    f: spec_fn(T) -> U,
    less: spec_fn(T, T) -> bool,
    image_less: spec_fn(U, U) -> bool,
)
    requires
        forall|a: T, b: T| #[trigger] less(a, b) == image_less(f(a), f(b)),
    ensures
        insert_ordered(items, item, less).map_values(f) == insert_ordered(
            items.map_values(f),
            f(item),
            image_less,
        ),
    decreases items.len(),
{
    let image = items.map_values(f);
    let out = insert_ordered(items, item, less).map_values(f);
    if items.len() > 0 && less(item, items.last()) {
        lemma_insert_map(items.drop_last(), item, f, less, image_less);
        assert(image.drop_last() =~= items.drop_last().map_values(f));
        assert(out =~= insert_ordered(items.drop_last(), item, less).map_values(f).push(
            f(items.last()),
        ));
    } else {
        if items.len() > 0 {
            assert(less(item, items.last()) == image_less(f(item), f(items.last())));
            assert(image.last() == f(items.last()));
        }
        assert(out =~= image.push(f(item)));
    }
}

/// Sorts by `is_less`, which computes `less`.
pub(crate) fn sort_by<T, F: Fn(&T, &T) -> bool>(
    items: Vec<T>,
    is_less: F,
    Ghost(less): Ghost<spec_fn(T, T) -> bool>,
) -> (r: Vec<T>)
    requires
        forall|a: &T, b: &T| #[trigger] call_requires(is_less, (a, b)),
        forall|a: &T, b: &T, answer: bool| #[trigger]
            call_ensures(is_less, (a, b), answer) ==> answer == less(*a, *b),
    ensures
        r@ == stable_sort(items@, less),
{
    let ghost all = items@;
    let mut out: Vec<T> = Vec::new();
    for item in iter: items
        invariant
            out@ == stable_sort(all.take(iter.index() as int), less),
            iter.seq() == all,
            forall|a: &T, b: &T| #[trigger] call_requires(is_less, (a, b)),
            forall|a: &T, b: &T, answer: bool| #[trigger]
                call_ensures(is_less, (a, b), answer) ==> answer == less(*a, *b),
    {
        let ghost before = out@;
        let ghost at = iter.index() as int;
        let mut j: usize = out.len();
        assert(before.take(j as int) =~= before);
        assert(before.skip(j as int) =~= Seq::<T>::empty());
        assert(insert_ordered(before, item, less) =~= insert_ordered(before, item, less)
            + before.skip(j as int));
        while j > 0 && is_less(&item, &out[j - 1])
            invariant
                j <= out.len(),
                out@ == before,
                insert_ordered(before, item, less) == insert_ordered(
                    before.take(j as int),
                    item,
                    less,
                ) + before.skip(j as int),
                forall|a: &T, b: &T| #[trigger] call_requires(is_less, (a, b)),
                forall|a: &T, b: &T, answer: bool| #[trigger]
                    call_ensures(is_less, (a, b), answer) ==> answer == less(*a, *b),
            ensures
                j <= out.len(),
                out@ == before,
                j == 0 || !less(item, before[j - 1]),
                insert_ordered(before, item, less) == insert_ordered(
                    before.take(j as int),
                    item,
                    less,
                ) + before.skip(j as int),
            decreases j,
        {
            let ghost head = before.take(j as int);
            assert(head.last() == before[j - 1]);
            assert(head.drop_last() =~= before.take(j - 1));
            assert(insert_ordered(head, item, less) + before.skip(j as int) =~= insert_ordered(
                before.take(j - 1),
                item,
                less,
            ) + before.skip(j - 1));
            j -= 1;
        }
        assert(before.take(j as int).len() > 0 ==> before.take(j as int).last() == before[j - 1]);
        assert(insert_ordered(before, item, less) =~= before.insert(j as int, item));
        out.insert(j, item);
        assert(all.take(at + 1).drop_last() =~= all.take(at));
        assert(all.take(at + 1).last() == item);
    }
    assert(all.take(all.len() as int) =~= all);
    out
}

/// `items`, which are in order, with `item` among them, if none of them stands
/// where it would.
pub open spec fn ordered_insert<T>(items: Seq<T>, item: T, less: spec_fn(T, T) -> bool) -> Seq<T>
    decreases items.len(),
{
    if items.len() == 0 {
        seq![item]
    } else if less(item, items.last()) {
        ordered_insert(items.drop_last(), item, less).push(items.last())
    } else if less(items.last(), item) {
        items.push(item)
    } else {
        items
    }
}

/// The different elements of `items`, in order.
pub open spec fn ordered_set<T>(items: Seq<T>, less: spec_fn(T, T) -> bool) -> Seq<T>
    decreases items.len(),
{
    if items.len() == 0 {
        items
    } else {
        ordered_insert(ordered_set(items.drop_last(), less), items.last(), less)
    }
}

/// Whether each element comes before all that stand behind it.
pub open spec fn strictly_sorted<T>(items: Seq<T>, less: spec_fn(T, T) -> bool) -> bool {
    forall|i: int, j: int| 0 <= i < j < items.len() ==> less(#[trigger] items[i], #[trigger] items[j])
}

/// Whether `less` orders all different elements: of two, one comes before the
/// other, nothing comes before itself, and what comes before stays so along a
/// chain.
pub open spec fn total_order<T>(less: spec_fn(T, T) -> bool) -> bool {
    &&& forall|a: T, b: T| #[trigger] less(a, b) ==> !less(b, a)
    &&& forall|a: T, b: T| !#[trigger] less(a, b) && !less(b, a) ==> a == b
    &&& forall|a: T, b: T, c: T| #[trigger] less(a, b) && #[trigger] less(b, c) ==> less(a, c)
}

pub proof fn lemma_ordered_insert<T>(items: Seq<T>, item: T, less: spec_fn(T, T) -> bool)
    requires
        total_order(less),
        strictly_sorted(items, less),
    ensures
        strictly_sorted(ordered_insert(items, item, less), less),
        forall|x: T| #[trigger]
            ordered_insert(items, item, less).contains(x) <==> x == item || items.contains(x),
        items.len() <= ordered_insert(items, item, less).len() <= items.len() + 1,
    decreases items.len(),
{
    let out = ordered_insert(items, item, less);
    if items.len() == 0 {
        assert forall|x: T| #[trigger] out.contains(x) <==> x == item || items.contains(x) by {
            assert(out[0] == item);
        }
    } else if less(item, items.last()) {
        let rest = items.drop_last();
        assert(strictly_sorted(rest, less)) by {
            assert forall|i: int, j: int| 0 <= i < j < rest.len() implies less(
                #[trigger] rest[i],
                #[trigger] rest[j],
            ) by {
                assert(rest[i] == items[i] && rest[j] == items[j]);
            }
        }
        lemma_ordered_insert(rest, item, less);
        let front = ordered_insert(rest, item, less);
        let last = items.last();
        assert forall|x: T| #[trigger] out.contains(x) <==> x == item || items.contains(x) by {
            if out.contains(x) {
                let k = choose|k: int| 0 <= k < out.len() && out[k] == x;
                if k < front.len() {
                    assert(front[k] == x);
                    assert(front.contains(x));
                    if rest.contains(x) {
                        let m = choose|m: int| 0 <= m < rest.len() && rest[m] == x;
                        assert(items[m] == x);
                    }
                } else {
                    assert(items[items.len() - 1] == x);
                }
            }
            if x == item {
                assert(front.contains(x));
            }
            if items.contains(x) {
                let m = choose|m: int| 0 <= m < items.len() && items[m] == x;
                if m < rest.len() {
                    assert(rest[m] == x);
                    assert(rest.contains(x));
                    assert(front.contains(x));
                } else {
                    assert(out[out.len() - 1] == x);
                }
            }
            if front.contains(x) {
                let k = choose|k: int| 0 <= k < front.len() && front[k] == x;
                assert(out[k] == x);
            }
        }
        assert forall|i: int, j: int| 0 <= i < j < out.len() implies less(
            #[trigger] out[i],
            #[trigger] out[j],
        ) by {
            if j == out.len() - 1 {
                assert(front[i] == out[i]);
                assert(front.contains(front[i]));
                if front[i] != item {
                    assert(rest.contains(front[i]));
                    let m = choose|m: int| 0 <= m < rest.len() && rest[m] == front[i];
                    assert(items[m] == front[i]);
                    assert(less(items[m], items[items.len() - 1]));
                }
            } else {
                assert(front[i] == out[i] && front[j] == out[j]);
            }
        }
    } else if less(items.last(), item) {
        assert forall|x: T| #[trigger] out.contains(x) <==> x == item || items.contains(x) by {
            if out.contains(x) {
                let k = choose|k: int| 0 <= k < out.len() && out[k] == x;
                if k < items.len() {
                    assert(items[k] == x);
                }
            }
            if x == item {
                assert(out[out.len() - 1] == x);
            }
            if items.contains(x) {
                let m = choose|m: int| 0 <= m < items.len() && items[m] == x;
                assert(out[m] == x);
            }
        }
        assert forall|i: int, j: int| 0 <= i < j < out.len() implies less(
            #[trigger] out[i],
            #[trigger] out[j],
        ) by {
            if j == out.len() - 1 {
                if i < items.len() - 1 {
                    assert(less(items[i], items[items.len() - 1]));
                }
            } else {
                assert(less(items[i], items[j]));
            }
        }
    } else {
        assert(item == items.last());
        assert(items[items.len() - 1] == item);
    }
}

/// The ordered set of elements holds each of them, once, in order, and nothing
/// else.
pub proof fn law_ordered_set_holds_its_elements<T>(items: Seq<T>, less: spec_fn(T, T) -> bool)
    requires
        total_order(less),
    ensures
        strictly_sorted(ordered_set(items, less), less),
        forall|x: T| #[trigger] ordered_set(items, less).contains(x) <==> items.contains(x),
        ordered_set(items, less).len() <= items.len(),
    decreases items.len(),
{
    if items.len() > 0 {
        let rest = items.drop_last();
        law_ordered_set_holds_its_elements(rest, less);
        lemma_ordered_insert(ordered_set(rest, less), items.last(), less);
        assert forall|x: T| #[trigger] ordered_set(items, less).contains(x) <==> items.contains(
            x,
        ) by {
            if items.contains(x) {
                let m = choose|m: int| 0 <= m < items.len() && items[m] == x;
                if m < rest.len() {
                    assert(rest[m] == x);
                    assert(rest.contains(x));
                }
            }
            if rest.contains(x) {
                let m = choose|m: int| 0 <= m < rest.len() && rest[m] == x;
                assert(items[m] == x);
            }
            assert(items[items.len() - 1] == items.last());
        }
    }
}

/// Inserting what a function makes of an element is the same as making it of the
/// inserted elements, where the function keeps the order.
pub proof fn lemma_ordered_insert_map<T, U>(
    items: Seq<T>,
    item: T,
    f: spec_fn(T) -> U,
    less: spec_fn(T, T) -> bool,
    image_less: spec_fn(U, U) -> bool,
)
    requires
        forall|a: T, b: T| #[trigger] less(a, b) == image_less(f(a), f(b)),
    ensures
        ordered_insert(items, item, less).map_values(f) == ordered_insert(
            items.map_values(f),
            f(item),
            image_less,
        ),
    decreases items.len(),
{
    let image = items.map_values(f);
    let out = ordered_insert(items, item, less).map_values(f);
    if items.len() == 0 {
        assert(out =~= ordered_insert(image, f(item), image_less));
    } else {
        assert(image.last() == f(items.last()));
        assert(less(item, items.last()) == image_less(f(item), f(items.last())));
        assert(less(items.last(), item) == image_less(f(items.last()), f(item)));
        if less(item, items.last()) {
            lemma_ordered_insert_map(items.drop_last(), item, f, less, image_less);
            assert(image.drop_last() =~= items.drop_last().map_values(f));
            assert(out =~= ordered_insert(items.drop_last(), item, less).map_values(f).push(
                f(items.last()),
            ));
        } else if less(items.last(), item) {
            assert(out =~= image.push(f(item)));
        }
    }
}

/// Puts `item` among `items`, which are in the order of `is_less`, if none of
/// them stands where it would.
pub(crate) fn insert_distinct<T, F: Fn(&T, &T) -> bool>(
    items: &mut Vec<T>,
    item: T,
    is_less: F,
    Ghost(less): Ghost<spec_fn(T, T) -> bool>,
)
    requires
        forall|a: &T, b: &T| #[trigger] call_requires(is_less, (a, b)),
        forall|a: &T, b: &T, answer: bool| #[trigger]
            call_ensures(is_less, (a, b), answer) ==> answer == less(*a, *b),
    ensures
        final(items)@ == ordered_insert(old(items)@, item, less),
{
    let ghost before = items@;
    let mut j: usize = items.len();
    assert(before.take(j as int) =~= before);
    assert(before.skip(j as int) =~= Seq::<T>::empty());
    assert(ordered_insert(before, item, less) =~= ordered_insert(before, item, less)
        + before.skip(j as int));
    while j > 0 && is_less(&item, &items[j - 1])
        invariant
            j <= items.len(),
            items@ == before,
            ordered_insert(before, item, less) == ordered_insert(before.take(j as int), item, less)
                + before.skip(j as int),
            forall|a: &T, b: &T| #[trigger] call_requires(is_less, (a, b)),
            forall|a: &T, b: &T, answer: bool| #[trigger]
                call_ensures(is_less, (a, b), answer) ==> answer == less(*a, *b),
        ensures
            j <= items.len(),
            items@ == before,
            j == 0 || !less(item, before[j - 1]),
            ordered_insert(before, item, less) == ordered_insert(before.take(j as int), item, less)
                + before.skip(j as int),
        decreases j,
    {
        let ghost head = before.take(j as int);
        assert(head.last() == before[j - 1]);
        assert(head.drop_last() =~= before.take(j - 1));
        assert(ordered_insert(head, item, less) + before.skip(j as int) =~= ordered_insert(
            before.take(j - 1),
            item,
            less,
        ) + before.skip(j - 1));
        j -= 1;
    }
    let ghost head = before.take(j as int);
    assert(head.len() > 0 ==> head.last() == before[j - 1]);
    if j == 0 || is_less(&items[j - 1], &item) {
        assert(ordered_insert(before, item, less) =~= before.insert(j as int, item));
        items.insert(j, item);
    } else {
        assert(ordered_insert(before, item, less) =~= before);
    }
}

proof fn lemma_strictly_sorted_unique<T>(a: Seq<T>, b: Seq<T>, less: spec_fn(T, T) -> bool)
    requires
        total_order(less),
        strictly_sorted(a, less),
        strictly_sorted(b, less),
        forall|x: T| #[trigger] a.contains(x) <==> b.contains(x),
    ensures
        a == b,
    decreases a.len(),
{
    if a.len() == 0 {
        if b.len() > 0 {
            assert(b.contains(b[0]));
            assert(a.contains(b[0]));
        }
        assert(a =~= b);
    } else {
        assert(a.contains(a.last())) by {
            assert(a[a.len() - 1] == a.last());
        }
        assert(b.contains(a.last()));
        assert(b.contains(b.last())) by {
            assert(b[b.len() - 1] == b.last());
        }
        assert(a.contains(b.last()));
        let p = choose|p: int| 0 <= p < b.len() && b[p] == a.last();
        let q = choose|q: int| 0 <= q < a.len() && a[q] == b.last();
        if p < b.len() - 1 {
            assert(less(b[p], b[b.len() - 1]));
            if q < a.len() - 1 {
                assert(less(a[q], a[a.len() - 1]));
            }
        }
        assert(a.last() == b.last());
        let ra = a.drop_last();
        let rb = b.drop_last();
        assert forall|x: T| #[trigger] ra.contains(x) <==> rb.contains(x) by {
            if ra.contains(x) {
                let i = choose|i: int| 0 <= i < ra.len() && ra[i] == x;
                assert(a[i] == x);
                assert(a.contains(x));
                let j = choose|j: int| 0 <= j < b.len() && b[j] == x;
                assert(less(a[i], a[a.len() - 1]));
                if j == b.len() - 1 {
                    assert(x == b.last());
                }
                assert(rb[j] == x);
            }
            if rb.contains(x) {
                let j = choose|j: int| 0 <= j < rb.len() && rb[j] == x;
                assert(b[j] == x);
                assert(b.contains(x));
                assert(a.contains(x));
                let i = choose|i: int| 0 <= i < a.len() && a[i] == x;
                assert(less(b[j], b[b.len() - 1]));
                if i == a.len() - 1 {
                    assert(x == a.last());
                }
                assert(ra[i] == x);
            }
        }
        assert(strictly_sorted(ra, less)) by {
            assert forall|i: int, j: int| 0 <= i < j < ra.len() implies less(
                #[trigger] ra[i],
                #[trigger] ra[j],
            ) by {
                assert(ra[i] == a[i] && ra[j] == a[j]);
            }
        }
        assert(strictly_sorted(rb, less)) by {
            assert forall|i: int, j: int| 0 <= i < j < rb.len() implies less(
                #[trigger] rb[i],
                #[trigger] rb[j],
            ) by {
                assert(rb[i] == b[i] && rb[j] == b[j]);
            }
        }
        lemma_strictly_sorted_unique(ra, rb, less);
        assert(a =~= ra.push(a.last()));
        assert(b =~= rb.push(b.last()));
    }
}

/// The ordered set depends on which elements there are, not on their order nor on
/// how often each occurs.
pub proof fn law_ordered_set_ignores_order<T>(a: Seq<T>, b: Seq<T>, less: spec_fn(T, T) -> bool)
    requires
        total_order(less),
        forall|x: T| #[trigger] a.contains(x) <==> b.contains(x),
    ensures
        ordered_set(a, less) == ordered_set(b, less),
{
    law_ordered_set_holds_its_elements(a, less);
    law_ordered_set_holds_its_elements(b, less);
    lemma_strictly_sorted_unique(ordered_set(a, less), ordered_set(b, less), less);
}

/// Two sorted sequences in one, those of the first ahead of equal ones of the
/// second.
pub open spec fn merged<T>(a: Seq<T>, b: Seq<T>, less: spec_fn(T, T) -> bool) -> Seq<T>
    decreases a.len() + b.len(),
{
    if a.len() == 0 {
        b
    } else if b.len() == 0 {
        a
    } else if less(b.last(), a.last()) {
        merged(a.drop_last(), b, less).push(a.last())
    } else {
        merged(a, b.drop_last(), less).push(b.last())
    }
}

/// The first `n` of `items`, or all if there are not so many.
pub open spec fn first<T>(items: Seq<T>, n: int) -> Seq<T> {
    if n < items.len() {
        items.take(n)
    } else {
        items
    }
}

proof fn lemma_merged_len<T>(a: Seq<T>, b: Seq<T>, less: spec_fn(T, T) -> bool)
    ensures
        merged(a, b, less).len() == a.len() + b.len(),
    decreases a.len() + b.len(),
{
    if a.len() > 0 && b.len() > 0 {
        if less(b.last(), a.last()) {
            lemma_merged_len(a.drop_last(), b, less);
        } else {
            lemma_merged_len(a, b.drop_last(), less);
        }
    }
}

proof fn lemma_insert_in_merged<T>(a: Seq<T>, b: Seq<T>, item: T, less: spec_fn(T, T) -> bool)
    requires
        strict_order(less),
    ensures
        insert_ordered(merged(a, b, less), item, less) == merged(
            a,
            insert_ordered(b, item, less),
            less,
        ),
    decreases a.len() + b.len(),
{
    let c = insert_ordered(b, item, less);
    lemma_insert_contents(b, item, less);
    if a.len() == 0 {
    } else if b.len() == 0 {
        assert(c =~= seq![item]);
        assert(c.drop_last() =~= b);
        if less(item, a.last()) {
            lemma_insert_in_merged(a.drop_last(), b, item, less);
            if a.drop_last().len() == 0 {
                assert(merged(a.drop_last(), b, less) =~= a.drop_last());
            }
        }
    } else if less(b.last(), a.last()) {
        let m = merged(a.drop_last(), b, less);
        assert(m.push(a.last()).drop_last() =~= m);
        if less(item, a.last()) {
            lemma_insert_in_merged(a.drop_last(), b, item, less);
            assert(c.last() == item || c.last() == b.last());
        } else {
            assert(!less(item, b.last()));
            assert(c.drop_last() =~= b);
        }
    } else {
        let m = merged(a, b.drop_last(), less);
        assert(m.push(b.last()).drop_last() =~= m);
        if less(item, b.last()) {
            lemma_insert_in_merged(a, b.drop_last(), item, less);
            assert(c.drop_last() =~= insert_ordered(b.drop_last(), item, less));
        } else {
            assert(c.drop_last() =~= b);
            assert(!less(item, a.last()));
        }
    }
}

/// To sort two sequences one behind the other is to merge them sorted.
pub proof fn law_sort_of_two_merges<T>(a: Seq<T>, b: Seq<T>, less: spec_fn(T, T) -> bool)
    requires
        strict_order(less),
    ensures
        stable_sort(a + b, less) == merged(stable_sort(a, less), stable_sort(b, less), less),
    decreases b.len(),
{
    if b.len() == 0 {
        assert(a + b =~= a);
        assert(merged(stable_sort(a, less), b, less) =~= stable_sort(a, less));
    } else {
        law_sort_of_two_merges(a, b.drop_last(), less);
        assert((a + b).drop_last() =~= a + b.drop_last());
        lemma_insert_in_merged(
            stable_sort(a, less),
            stable_sort(b.drop_last(), less),
            b.last(),
            less,
        );
    }
}

/// What is sorted stays as it is.
pub proof fn law_sort_keeps_sorted<T>(items: Seq<T>, less: spec_fn(T, T) -> bool)
    requires
        sorted(items, less),
    ensures
        stable_sort(items, less) == items,
    decreases items.len(),
{
    if items.len() > 0 {
        let rest = items.drop_last();
        assert(sorted(rest, less)) by {
            assert forall|i: int, j: int| 0 <= i < j < rest.len() implies !less(
                #[trigger] rest[j],
                #[trigger] rest[i],
            ) by {
                assert(rest[j] == items[j] && rest[i] == items[i]);
            }
        }
        law_sort_keeps_sorted(rest, less);
        if rest.len() > 0 {
            assert(rest.last() == items[items.len() - 2]);
            assert(!less(items[items.len() - 1], items[items.len() - 2]));
        }
        assert(rest.push(items.last()) =~= items);
    }
}

proof fn lemma_first_of_merged_left<T>(
    a: Seq<T>,
    b: Seq<T>,
    n: int,
    less: spec_fn(T, T) -> bool,
)
    requires
        strict_order(less),
        sorted(a, less),
        0 <= n < a.len(),
    ensures
        merged(a, b, less).take(n) == merged(a.drop_last(), b, less).take(n),
    decreases b.len(),
{
    let rest = a.drop_last();
    lemma_merged_len(a, b, less);
    lemma_merged_len(rest, b, less);
    if b.len() == 0 {
        assert(merged(rest, b, less) =~= rest);
        assert(a.take(n) =~= rest.take(n));
    } else if less(b.last(), a.last()) {
        assert(merged(a, b, less).take(n) =~= merged(rest, b, less).take(n));
    } else {
        lemma_first_of_merged_left(a, b.drop_last(), n, less);
        lemma_merged_len(a, b.drop_last(), less);
        lemma_merged_len(rest, b.drop_last(), less);
        assert(merged(a, b, less).take(n) =~= merged(a, b.drop_last(), less).take(n));
        if rest.len() == 0 {
            assert(merged(a, b, less).take(n) =~= merged(rest, b, less).take(n));
        } else {
            assert(!less(a[a.len() - 1], a[a.len() - 2]));
            assert(!less(b.last(), rest.last()));
            if b.drop_last().len() == 0 {
                assert(merged(rest, b.drop_last(), less) =~= rest);
            }
            assert(merged(rest, b, less).take(n) =~= merged(rest, b.drop_last(), less).take(n));
        }
    }
}

proof fn lemma_first_of_merged_right<T>(
    a: Seq<T>,
    b: Seq<T>,
    n: int,
    less: spec_fn(T, T) -> bool,
)
    requires
        strict_order(less),
        sorted(b, less),
        0 <= n < b.len(),
    ensures
        merged(a, b, less).take(n) == merged(a, b.drop_last(), less).take(n),
    decreases a.len(),
{
    let rest = b.drop_last();
    lemma_merged_len(a, b, less);
    lemma_merged_len(a, rest, less);
    if a.len() == 0 {
        assert(b.take(n) =~= rest.take(n));
    } else if !less(b.last(), a.last()) {
        assert(merged(a, b, less).take(n) =~= merged(a, rest, less).take(n));
    } else {
        lemma_first_of_merged_right(a.drop_last(), b, n, less);
        lemma_merged_len(a.drop_last(), b, less);
        lemma_merged_len(a.drop_last(), rest, less);
        assert(merged(a, b, less).take(n) =~= merged(a.drop_last(), b, less).take(n));
        if rest.len() == 0 {
            assert(merged(a, b, less).take(n) =~= merged(a, rest, less).take(n));
        } else {
            assert(!less(b[b.len() - 1], b[b.len() - 2]));
            assert(less(rest.last(), a.last()));
            assert(merged(a, rest, less).take(n) =~= merged(a.drop_last(), rest, less).take(n));
        }
    }
}

proof fn lemma_sorted_prefix<T>(items: Seq<T>, n: int, less: spec_fn(T, T) -> bool)
    requires
        sorted(items, less),
    ensures
        n >= 0 ==> sorted(first(items, n), less),
{
    if 0 <= n < items.len() {
        let some = items.take(n);
        assert forall|i: int, j: int| 0 <= i < j < some.len() implies !less(
            #[trigger] some[j],
            #[trigger] some[i],
        ) by {
            assert(some[j] == items[j] && some[i] == items[i]);
        }
    }
}

proof fn lemma_first_of_merged<T>(a: Seq<T>, b: Seq<T>, n: int, less: spec_fn(T, T) -> bool)
    requires
        strict_order(less),
        sorted(a, less),
        sorted(b, less),
        n >= 0,
    ensures
        first(merged(a, b, less), n) == first(merged(first(a, n), first(b, n), less), n),
    decreases a.len() + b.len(),
{
    lemma_merged_len(a, b, less);
    lemma_merged_len(first(a, n), first(b, n), less);
    if n < a.len() {
        lemma_first_of_merged_left(a, b, n, less);
        lemma_sorted_prefix(a, a.len() - 1, less);
        assert(first(a, a.len() - 1) =~= a.drop_last());
        lemma_first_of_merged(a.drop_last(), b, n, less);
        lemma_merged_len(a.drop_last(), b, less);
        assert(first(a.drop_last(), n) =~= first(a, n));
        if n == a.drop_last().len() + b.len() {
            assert(merged(a.drop_last(), b, less).take(n) =~= merged(a.drop_last(), b, less));
        }
    } else if n < b.len() {
        lemma_first_of_merged_right(a, b, n, less);
        lemma_sorted_prefix(b, b.len() - 1, less);
        assert(first(b, b.len() - 1) =~= b.drop_last());
        lemma_first_of_merged(a, b.drop_last(), n, less);
        lemma_merged_len(a, b.drop_last(), less);
        assert(first(b.drop_last(), n) =~= first(b, n));
        if n == a.len() + b.drop_last().len() {
            assert(merged(a, b.drop_last(), less).take(n) =~= merged(a, b.drop_last(), less));
        }
    }
}

/// The first `n` of two sequences, sorted together, are the first `n` of what the
/// two give when only the first `n` of each are taken.
pub proof fn law_first_of_two<T>(a: Seq<T>, b: Seq<T>, n: int, less: spec_fn(T, T) -> bool)
    requires
        strict_order(less),
        n >= 0,
    ensures
        first(stable_sort(a + b, less), n) == first(
            stable_sort(first(stable_sort(a, less), n) + first(stable_sort(b, less), n), less),
            n,
        ),
        first(stable_sort(a + b, less), n) == first(
            stable_sort(a + first(stable_sort(b, less), n), less),
            n,
        ),
{
    let sorted_a = stable_sort(a, less);
    let sorted_b = stable_sort(b, less);
    law_sort_sorts(a, less);
    law_sort_sorts(b, less);
    lemma_sorted_prefix(sorted_a, n, less);
    lemma_sorted_prefix(sorted_b, n, less);
    law_sort_keeps_sorted(first(sorted_a, n), less);
    law_sort_keeps_sorted(first(sorted_b, n), less);
    law_sort_of_two_merges(a, b, less);
    law_sort_of_two_merges(first(sorted_a, n), first(sorted_b, n), less);
    law_sort_of_two_merges(a, first(sorted_b, n), less);
    lemma_first_of_merged(sorted_a, sorted_b, n, less);
    lemma_first_of_merged(sorted_a, first(sorted_b, n), n, less);
    assert(first(first(sorted_b, n), n) =~= first(sorted_b, n));
}

/// All of several sequences, one behind the other.
pub open spec fn all_of<T>(parts: Seq<Seq<T>>) -> Seq<T>
    decreases parts.len(),
{
    if parts.len() == 0 {
        Seq::empty()
    } else {
        all_of(parts.drop_last()) + parts.last()
    }
}

/// The first `n` of each of several sequences, each sorted.
pub open spec fn first_of_each<T>(
    parts: Seq<Seq<T>>,
    n: int,
    less: spec_fn(T, T) -> bool,
) -> Seq<Seq<T>> {
    parts.map_values(|part: Seq<T>| first(stable_sort(part, less), n))
}

/// The first `n` of several sequences, sorted together, are the first `n` of what
/// they give when only the first `n` of each are taken.
pub proof fn law_first_of_parts<T>(parts: Seq<Seq<T>>, n: int, less: spec_fn(T, T) -> bool)
    requires
        strict_order(less),
        n >= 0,
    ensures
        first(stable_sort(all_of(parts), less), n) == first(
            stable_sort(all_of(first_of_each(parts, n, less)), less),
            n,
        ),
    decreases parts.len(),
{
    let firsts = first_of_each(parts, n, less);
    if parts.len() > 0 {
        let rest = parts.drop_last();
        law_first_of_parts(rest, n, less);
        assert(firsts.drop_last() =~= first_of_each(rest, n, less));
        law_first_of_two(all_of(rest), parts.last(), n, less);
        law_first_of_two(all_of(firsts.drop_last()), firsts.last(), n, less);
        law_sort_sorts(parts.last(), less);
        lemma_sorted_prefix(stable_sort(parts.last(), less), n, less);
        law_sort_keeps_sorted(firsts.last(), less);
        assert(first(firsts.last(), n) =~= firsts.last());
    }
}

/// Whether of any two elements that differ one comes before the other.
pub open spec fn no_ties<T>(items: Seq<T>, less: spec_fn(T, T) -> bool) -> bool {
    forall|a: T, b: T|
        #![trigger items.contains(a), items.contains(b)]
        items.contains(a) && items.contains(b) && a != b ==> less(a, b) || less(b, a)
}

proof fn lemma_sorted_same<T>(a: Seq<T>, b: Seq<T>, less: spec_fn(T, T) -> bool)
    requires
        sorted(a, less),
        sorted(b, less),
        a.to_multiset() == b.to_multiset(),
        no_ties(a, less),
    ensures
        a == b,
    decreases a.len(),
{
    broadcast use vstd::seq_lib::group_to_multiset_ensures;

    assert(a.len() == a.to_multiset().len() == b.len());
    if a.len() > 0 {
        let x = a.last();
        let y = b.last();
        assert(a.contains(x) && b.contains(y));
        assert(a.to_multiset().count(x) > 0);
        assert(b.contains(x));
        assert(b.to_multiset().count(y) > 0);
        assert(a.contains(y));
        let i = b.index_of(x);
        let j = a.index_of(y);
        if i < b.len() - 1 {
            assert(!less(b[b.len() - 1], b[i]));
        }
        if j < a.len() - 1 {
            assert(!less(a[a.len() - 1], a[j]));
        }
        assert(x == y);
        let rest_a = a.drop_last();
        let rest_b = b.drop_last();
        assert(rest_a.push(x) =~= a);
        assert(rest_b.push(y) =~= b);
        assert(a.to_multiset() =~= rest_a.to_multiset().insert(x));
        assert(b.to_multiset() =~= rest_b.to_multiset().insert(x));
        assert(rest_a.to_multiset() =~= a.to_multiset().remove(x));
        assert(rest_b.to_multiset() =~= b.to_multiset().remove(x));
        lemma_sorted_prefix(a, a.len() - 1, less);
        lemma_sorted_prefix(b, b.len() - 1, less);
        assert(first(a, a.len() - 1) =~= rest_a);
        assert(first(b, b.len() - 1) =~= rest_b);
        assert(no_ties(rest_a, less)) by {
            assert forall|p: T, q: T|
                #![trigger rest_a.contains(p), rest_a.contains(q)]
                rest_a.contains(p) && rest_a.contains(q) && p != q implies less(p, q) || less(
                q,
                p,
            ) by {
                assert(a[rest_a.index_of(p)] == p);
                assert(a[rest_a.index_of(q)] == q);
                assert(a.contains(p) && a.contains(q));
            }
        }
        lemma_sorted_same(rest_a, rest_b, less);
    } else {
        assert(a =~= b);
    }
}

/// Where no two elements tie, the sorted elements do not depend on the order that
/// they came in.
pub proof fn law_sort_ignores_order<T>(a: Seq<T>, b: Seq<T>, less: spec_fn(T, T) -> bool)
    requires
        strict_order(less),
        a.to_multiset() == b.to_multiset(),
        no_ties(a, less),
    ensures
        stable_sort(a, less) == stable_sort(b, less),
{
    broadcast use vstd::seq_lib::group_to_multiset_ensures;

    law_sort_sorts(a, less);
    law_sort_sorts(b, less);
    law_sort_keeps_elements(a, less);
    law_sort_keeps_elements(b, less);
    let sorted_a = stable_sort(a, less);
    assert(no_ties(sorted_a, less)) by {
        assert forall|p: T, q: T|
            #![trigger sorted_a.contains(p), sorted_a.contains(q)]
            sorted_a.contains(p) && sorted_a.contains(q) && p != q implies less(p, q) || less(
            q,
            p,
        ) by {
            assert(sorted_a.to_multiset().count(p) > 0);
            assert(sorted_a.to_multiset().count(q) > 0);
            assert(a.contains(p) && a.contains(q));
        }
    }
    lemma_sorted_same(sorted_a, stable_sort(b, less), less);
}

/// What a function gives for each of several elements, one after the other.
pub open spec fn each_of<T, U>(items: Seq<T>, f: spec_fn(T) -> Seq<U>) -> Seq<U>
    decreases items.len(),
{
    if items.len() == 0 {
        Seq::empty()
    } else {
        each_of(items.drop_last(), f) + f(items.last())
    }
}

proof fn lemma_each_of_two<T, U>(a: Seq<T>, b: Seq<T>, f: spec_fn(T) -> Seq<U>)
    ensures
        each_of(a + b, f) == each_of(a, f) + each_of(b, f),
    decreases b.len(),
{
    if b.len() == 0 {
        assert(a + b =~= a);
        assert(each_of(a, f) + each_of(b, f) =~= each_of(a, f));
    } else {
        lemma_each_of_two(a, b.drop_last(), f);
        assert((a + b).drop_last() =~= a + b.drop_last());
        assert(each_of(a + b, f) =~= each_of(a, f) + each_of(b, f));
    }
}

/// What a function gives for each of several elements, all told, does not depend on
/// the order of the elements.
pub proof fn law_each_of_ignores_order<T, U>(a: Seq<T>, b: Seq<T>, f: spec_fn(T) -> Seq<U>)
    requires
        a.to_multiset() == b.to_multiset(),
    ensures
        each_of(a, f).to_multiset() == each_of(b, f).to_multiset(),
    decreases a.len(),
{
    broadcast use vstd::seq_lib::group_to_multiset_ensures;

    assert(a.len() == a.to_multiset().len() == b.len());
    if a.len() > 0 {
        let x = a.last();
        let rest = a.drop_last();
        assert(rest.push(x) =~= a);
        assert(a.contains(x));
        assert(a.to_multiset().count(x) > 0);
        assert(b.contains(x));
        let i = b.index_of(x);
        let before = b.take(i);
        let behind = b.skip(i + 1);
        assert(b =~= before + seq![x] + behind);
        assert(b.remove(i) =~= before + behind);
        assert(b.to_multiset().remove(x) =~= b.remove(i).to_multiset());
        assert(rest.to_multiset() =~= a.to_multiset().remove(x));
        law_each_of_ignores_order(rest, b.remove(i), f);
        lemma_each_of_two(before, behind, f);
        lemma_each_of_two(before + seq![x], behind, f);
        lemma_each_of_two(before, seq![x], f);
        reveal_with_fuel(each_of, 2);
        assert(seq![x].drop_last() =~= Seq::<T>::empty());
        assert(each_of(seq![x], f) =~= f(x));
        lemma_multiset_commutative(each_of(before, f), f(x));
        lemma_multiset_commutative(each_of(before, f) + f(x), each_of(behind, f));
        lemma_multiset_commutative(each_of(before, f), each_of(behind, f));
        lemma_multiset_commutative(each_of(rest, f), f(x));
        assert(each_of(a, f).to_multiset() =~= each_of(b, f).to_multiset());
    } else {
        assert(a =~= b);
    }
}

/// What is kept of a sequence is what stands in it and is to be kept.
pub proof fn lemma_filter_members<T>(items: Seq<T>, keeps: spec_fn(T) -> bool, x: T)
    ensures
        items.filter(keeps).contains(x) <==> items.contains(x) && keeps(x),
    decreases items.len(),
{
    reveal(Seq::filter);
    if items.len() > 0 {
        let before = items.drop_last();
        let rest = before.filter(keeps);
        let kept = items.filter(keeps);
        lemma_filter_members(before, keeps, x);
        if kept.contains(x) {
            let i = choose|i: int| 0 <= i < kept.len() && kept[i] == x;
            if i < rest.len() {
                assert(rest[i] == x);
                let k = choose|k: int| 0 <= k < before.len() && before[k] == x;
                assert(items[k] == x);
            } else {
                assert(items[items.len() - 1] == x);
            }
        }
        if items.contains(x) && keeps(x) {
            let k = choose|k: int| 0 <= k < items.len() && items[k] == x;
            if k < before.len() {
                assert(before[k] == x);
                let i = choose|i: int| 0 <= i < rest.len() && rest[i] == x;
                assert(kept[i] == x);
            } else {
                assert(kept[rest.len() as int] == x);
            }
        }
    }
}

} // verus!
