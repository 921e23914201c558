//! Stable sorting, and lists of texts in order without repetition.

use vstd::prelude::*;
use crate::text::{
    at_most, lemma_text_le_antisymmetric, lemma_text_le_total, lemma_text_le_transitive, same_text,
    text_le, views,
};

verus! {

/// `items` with `item` put behind the last of them that may stand before it.
pub open spec fn inserted<T>(items: Seq<T>, item: T, le: spec_fn(T, T) -> bool) -> Seq<T>
    decreases items.len(),
{
    if items.len() == 0 || le(items.last(), item) {
        items.push(item)
    } else {
        inserted(items.drop_last(), item, le).push(items.last())
    }
}

/// `items` in the order `le`, with items that are equal in it left as they stood.
pub open spec fn sorted_by<T>(items: Seq<T>, le: spec_fn(T, T) -> bool) -> Seq<T>
    decreases items.len(),
{
    if items.len() == 0 {
        items
    } else {
        inserted(sorted_by(items.drop_last(), le), items.last(), le)
    }
}

/// `le` compares every two items, and does so transitively.
pub open spec fn is_order<T>(le: spec_fn(T, T) -> bool) -> bool {
    &&& forall|a: T, b: T| #[trigger] le(a, b) || le(b, a)
    &&& forall|a: T, b: T, c: T| #[trigger] le(a, b) && #[trigger] le(b, c) ==> le(a, c)
}

/// No item stands before one that should precede it.
pub open spec fn in_order<T>(items: Seq<T>, le: spec_fn(T, T) -> bool) -> bool {
    forall|i: int, j: int| 0 <= i <= j < items.len() ==> le(#[trigger] items[i], #[trigger] items[j])
}

proof fn lemma_inserted_at<T>(items: Seq<T>, item: T, le: spec_fn(T, T) -> bool, at: int)
    requires
        0 <= at <= items.len(),
        at > 0 ==> le(items[at - 1], item),
        forall|i: int| at <= i < items.len() ==> !le(#[trigger] items[i], item),
    ensures
        inserted(items, item, le) == items.insert(at, item),
    decreases items.len(),
{
    if at == items.len() {
        assert(items.insert(at, item) =~= items.push(item));
    } else {
        assert(!le(items[items.len() - 1], item));
        lemma_inserted_at(items.drop_last(), item, le, at);
        assert(items.insert(at, item) =~= items.drop_last().insert(at, item).push(items.last()));
    }
}

proof fn lemma_inserted_in_order<T>(items: Seq<T>, item: T, le: spec_fn(T, T) -> bool)
    requires
        is_order(le),
        in_order(items, le),
    ensures
        in_order(inserted(items, item, le), le),
        inserted(items, item, le).to_multiset() == items.to_multiset().insert(item),
        inserted(items, item, le).len() == items.len() + 1,
        forall|i: int| 0 <= i < inserted(items, item, le).len() ==> {
            let placed = #[trigger] inserted(items, item, le)[i];
            placed == item || items.contains(placed)
        },
    decreases items.len(),
{
    broadcast use vstd::seq_lib::group_to_multiset_ensures;
    let result = inserted(items, item, le);
    if items.len() == 0 || le(items.last(), item) {
        assert forall|i: int, j: int| 0 <= i <= j < result.len() implies le(#[trigger] result[i], #[trigger] result[j]) by {
            if j == items.len() {
                if i < items.len() {
                    assert(le(items[i], items[items.len() - 1]));
                    assert(le(items.last(), item));
                } else {
                    assert(le(item, item));
                }
            } else {
                assert(le(items[i], items[j]));
            }
        }
        assert forall|i: int| 0 <= i < result.len() implies {
            let placed = #[trigger] result[i];
            placed == item || items.contains(placed)
        } by {
            if i < items.len() {
                assert(items[i] == result[i]);
            }
        }
    } else {
        let front = items.drop_last();
        assert forall|i: int, j: int| 0 <= i <= j < front.len() implies le(#[trigger] front[i], #[trigger] front[j]) by {
            assert(le(items[i], items[j]));
        }
        lemma_inserted_in_order(front, item, le);
        let placed_front = inserted(front, item, le);
        assert(le(item, items.last()));
        assert forall|i: int, j: int| 0 <= i <= j < result.len() implies le(#[trigger] result[i], #[trigger] result[j]) by {
            if j == placed_front.len() {
                if i < placed_front.len() {
                    let placed = placed_front[i];
                    if placed != item {
                        let k = choose|k: int| 0 <= k < front.len() && front[k] == placed;
                        assert(le(items[k], items[items.len() - 1]));
                    }
                } else {
                    assert(le(items.last(), items.last()));
                }
            } else {
                assert(le(placed_front[i], placed_front[j]));
            }
        }
        assert forall|i: int| 0 <= i < result.len() implies {
            let placed = #[trigger] result[i];
            placed == item || items.contains(placed)
        } by {
            if i < placed_front.len() {
                let placed = placed_front[i];
                if placed != item {
                    let k = choose|k: int| 0 <= k < front.len() && front[k] == placed;
                    assert(items[k] == placed);
                }
            } else {
                assert(items[items.len() - 1] == result[i]);
            }
        }
        assert(items =~= front.push(items.last()));
        assert(result.to_multiset() =~= items.to_multiset().insert(item));
    }
}

/// Sorting puts the items in order and neither loses nor adds one.
pub proof fn lemma_sorted_by<T>(items: Seq<T>, le: spec_fn(T, T) -> bool)
    requires
        is_order(le),
    ensures
        in_order(sorted_by(items, le), le),
        sorted_by(items, le).to_multiset() == items.to_multiset(),
        sorted_by(items, le).len() == items.len(),
    decreases items.len(),
{
    broadcast use vstd::seq_lib::group_to_multiset_ensures;
    if items.len() > 0 {
        lemma_sorted_by(items.drop_last(), le);
        lemma_inserted_in_order(sorted_by(items.drop_last(), le), items.last(), le);
        assert(items =~= items.drop_last().push(items.last()));
    }
}

/// What is sorted holds the same items as before.
pub proof fn lemma_sorted_contains<T>(items: Seq<T>, le: spec_fn(T, T) -> bool, item: T)
    requires
        is_order(le),
    ensures
        sorted_by(items, le).contains(item) == items.contains(item),
{
    broadcast use vstd::seq_lib::group_to_multiset_ensures;
    lemma_sorted_by(items, le);
    assert(items.contains(item) <==> items.to_multiset().count(item) > 0);
    assert(sorted_by(items, le).contains(item) <==> sorted_by(items, le).to_multiset().count(item)
        > 0);
}

/// Sorts `items` in the order that `le` computes.
pub(crate) fn stable_sort<T, F: Fn(&T, &T) -> bool>(
    items: Vec<T>,
    le: F,
    Ghost(order): Ghost<spec_fn(T, T) -> bool>,
) -> (sorted: Vec<T>)
    requires
        forall|a: T, b: T| call_requires(le, (&a, &b)),
        forall|a: T, b: T, answer: bool|
            call_ensures(le, (&a, &b), answer) ==> answer == order(a, b),
    ensures
        sorted@ == sorted_by(items@, order),
{
    let ghost all = items@;
    let mut sorted: Vec<T> = Vec::new();
    for item in it: items
        invariant
            it.seq() == all,
            sorted@ == sorted_by(all.take(it.index() as int), order),
            forall|a: T, b: T| call_requires(le, (&a, &b)),
            forall|a: T, b: T, answer: bool|
                call_ensures(le, (&a, &b), answer) ==> answer == order(a, b),
    {
        let ghost done = all.take(it.index() + 1);
        assert(done.drop_last() =~= all.take(it.index() as int));
        assert(done.last() == item);
        let mut at: usize = sorted.len();
        while at > 0 && !le(&sorted[at - 1], &item)
            invariant
                at <= sorted@.len(),
                forall|i: int| at <= i < sorted@.len() ==> !order(#[trigger] sorted@[i], item),
                forall|a: T, b: T| call_requires(le, (&a, &b)),
                forall|a: T, b: T, answer: bool|
                    call_ensures(le, (&a, &b), answer) ==> answer == order(a, b),
            decreases at,
        {
            at -= 1;
        }
        proof {
            lemma_inserted_at(sorted@, item, order, at as int);
        }
        sorted.insert(at, item);
    }
    assert(all.take(all.len() as int) =~= all);
    sorted
}

/// The order of texts, as a relation.
pub open spec fn text_order() -> spec_fn(Seq<char>, Seq<char>) -> bool {
    |left: Seq<char>, right: Seq<char>| text_le(left, right)
}

/// `texts` without those that repeat their neighbour.
pub open spec fn distinct<T>(texts: Seq<T>) -> Seq<T>
    decreases texts.len(),
{
    if texts.len() <= 1 {
        texts
    } else if texts.last() == texts[texts.len() - 2] {
        distinct(texts.drop_last())
    } else {
        distinct(texts.drop_last()).push(texts.last())
    }
}

/// `texts` in order, each of them once.
pub open spec fn ordered_set(texts: Seq<Seq<char>>) -> Seq<Seq<char>> {
    distinct(sorted_by(texts, text_order()))
}

/// The order of texts compares every two of them, and does so transitively.
pub proof fn lemma_text_order()
    ensures
        is_order(text_order()),
{
    let le = text_order();
    assert forall|a: Seq<char>, b: Seq<char>| #[trigger] le(a, b) || le(b, a) by {
        lemma_text_le_total(a, b);
    }
    assert forall|a: Seq<char>, b: Seq<char>, c: Seq<char>| #[trigger]
        le(a, b) && #[trigger] le(b, c) implies le(a, c) by {
        lemma_text_le_transitive(a, b, c);
    }
}

proof fn lemma_distinct(texts: Seq<Seq<char>>)
    requires
        in_order(texts, text_order()),
    ensures
        in_order(distinct(texts), text_order()),
        distinct(texts).no_duplicates(),
        texts.len() > 0 ==> distinct(texts).len() > 0 && distinct(texts).last() == texts.last(),
        forall|text: Seq<char>| #[trigger] distinct(texts).contains(text) == texts.contains(text),
    decreases texts.len(),
{
    if texts.len() > 1 {
        let front = texts.drop_last();
        assert forall|i: int, j: int| 0 <= i <= j < front.len() implies text_order()(
            #[trigger] front[i],
            #[trigger] front[j],
        ) by {
            assert(text_order()(texts[i], texts[j]));
        }
        lemma_distinct(front);
        let kept = distinct(front);
        let result = distinct(texts);
        assert(front.last() == texts[texts.len() - 2]);
        assert(texts =~= front.push(texts.last()));
        assert(text_order()(texts[texts.len() - 2], texts[texts.len() - 1]));
        if texts.last() == texts[texts.len() - 2] {
            assert forall|text: Seq<char>| #[trigger] result.contains(text) == texts.contains(
                text,
            ) by {
                if texts.contains(text) {
                    let i = choose|i: int| 0 <= i < texts.len() && texts[i] == text;
                    if i < front.len() {
                        assert(front[i] == text);
                    } else {
                        assert(front[front.len() - 1] == text);
                    }
                    assert(front.contains(text));
                } else if front.contains(text) {
                    let i = choose|i: int| 0 <= i < front.len() && front[i] == text;
                    assert(texts[i] == text);
                }
                assert(result.contains(text) == front.contains(text));
            }
        } else {
            lemma_text_order();
            assert forall|i: int| 0 <= i < kept.len() implies text_order()(
                #[trigger] kept[i],
                texts.last(),
            ) && kept[i] != texts.last() by {
                assert(text_order()(kept[i], kept[kept.len() - 1]));
                assert(text_order()(kept.last(), texts.last()));
                if kept[i] == texts.last() {
                    lemma_text_le_antisymmetric(kept.last(), texts.last());
                }
            }
            assert forall|i: int, j: int| 0 <= i <= j < result.len() implies text_order()(
                #[trigger] result[i],
                #[trigger] result[j],
            ) by {
                if j < kept.len() {
                    assert(text_order()(kept[i], kept[j]));
                } else if i == j {
                    lemma_text_le_total(result[i], result[i]);
                } else {
                    assert(text_order()(kept[i], texts.last()));
                }
            }
            assert forall|text: Seq<char>| #[trigger] result.contains(text) == texts.contains(
                text,
            ) by {
                if texts.contains(text) {
                    let i = choose|i: int| 0 <= i < texts.len() && texts[i] == text;
                    if i < front.len() {
                        assert(front[i] == text);
                        assert(kept.contains(text));
                        let k = choose|k: int| 0 <= k < kept.len() && kept[k] == text;
                        assert(result[k] == text);
                    } else {
                        assert(result[result.len() - 1] == text);
                    }
                }
                if result.contains(text) {
                    let k = choose|k: int| 0 <= k < result.len() && result[k] == text;
                    if k < kept.len() {
                        assert(kept[k] == text);
                        assert(kept.contains(text));
                        assert(front.contains(text));
                        let i = choose|i: int| 0 <= i < front.len() && front[i] == text;
                        assert(texts[i] == text);
                    } else {
                        assert(texts[texts.len() - 1] == text);
                    }
                }
            }
        }
    } else if texts.len() == 1 {
        assert(distinct(texts) == texts);
    }
}

/// An ordered set holds the texts it was made of, in order and each once.
pub proof fn lemma_ordered_set(texts: Seq<Seq<char>>)
    ensures
        in_order(ordered_set(texts), text_order()),
        ordered_set(texts).no_duplicates(),
        forall|text: Seq<char>| #[trigger]
            ordered_set(texts).contains(text) == texts.contains(text),
{
    lemma_text_order();
    lemma_sorted_by(texts, text_order());
    lemma_distinct(sorted_by(texts, text_order()));
    assert forall|text: Seq<char>| #[trigger] ordered_set(texts).contains(text) == texts.contains(
        text,
    ) by {
        lemma_sorted_contains(texts, text_order(), text);
    }
}

proof fn lemma_inserted_mapped<T, U>(
    items: Seq<T>,
    item: T,
    f: spec_fn(T) -> U,
    le: spec_fn(T, T) -> bool,
    target: spec_fn(U, U) -> bool,
)
    requires
        forall|a: T, b: T| #[trigger] le(a, b) == target(f(a), f(b)),
    ensures
        inserted(items, item, le).map_values(f) == inserted(items.map_values(f), f(item), target),
    decreases items.len(),
{
    if items.len() == 0 || le(items.last(), item) {
        assert(items.push(item).map_values(f) =~= items.map_values(f).push(f(item)));
    } else {
        lemma_inserted_mapped(items.drop_last(), item, f, le, target);
        assert(items.drop_last().map_values(f) =~= items.map_values(f).drop_last());
        let front = inserted(items.drop_last(), item, le);
        assert(front.push(items.last()).map_values(f) =~= front.map_values(f).push(f(items.last())));
    }
}

/// Sorting items by what `f` tells of them sorts what it tells of them.
pub proof fn lemma_sorted_mapped<T, U>(
    items: Seq<T>,
    f: spec_fn(T) -> U,
    le: spec_fn(T, T) -> bool,
    target: spec_fn(U, U) -> bool,
)
    requires
        forall|a: T, b: T| #[trigger] le(a, b) == target(f(a), f(b)),
    ensures
        sorted_by(items, le).map_values(f) == sorted_by(items.map_values(f), target),
    decreases items.len(),
{
    if items.len() == 0 {
        assert(items.map_values(f) =~= Seq::<U>::empty());
    } else {
        lemma_sorted_mapped(items.drop_last(), f, le, target);
        assert(items.drop_last().map_values(f) =~= items.map_values(f).drop_last());
        lemma_inserted_mapped(sorted_by(items.drop_last(), le), items.last(), f, le, target);
    }
}

/// Puts `texts` in order and drops repetitions.
pub fn sort_and_dedup(texts: Vec<String>) -> (kept: Vec<String>)
    ensures
        views(kept@) == ordered_set(views(texts@)),
{
    let ghost order = |a: String, b: String| text_le(a@, b@);
    let le = |a: &String, b: &String| -> (answer: bool)
        ensures
            answer == text_le(a@, b@),
        { at_most(a.as_str(), b.as_str()) };
    let ghost given = texts@;
    let sorted = stable_sort(texts, le, Ghost(order));
    let ghost all = sorted@;
    proof {
        let f = |text: String| text@;
        lemma_sorted_mapped(given, f, order, text_order());
        assert(given.map_values(f) =~= views(given));
        assert(all.map_values(f) =~= views(all));
    }
    let mut kept: Vec<String> = Vec::new();
    for text in it: sorted
        invariant
            it.seq() == all,
            views(kept@) == distinct(views(all).take(it.index() as int)),
            it.index() > 0 ==> kept@.len() > 0 && kept@.last()@ == all[it.index() - 1]@,
    {
        let ghost done = views(all).take(it.index() + 1);
        assert(done.drop_last() =~= views(all).take(it.index() as int));
        assert(done.last() == text@);
        let ghost before = kept@;
        if kept.len() > 0 && same_text(kept[kept.len() - 1].as_str(), text.as_str()) {
            assert(it.index() > 0);
        } else {
            kept.push(text);
            assert(views(kept@) =~= views(before).push(text@));
        }
    }
    assert(views(all).take(all.len() as int) =~= views(all));
    kept
}

} // verus!
