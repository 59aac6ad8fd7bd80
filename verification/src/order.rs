//! Lists of records: stable ordering and filtering in place.

use vstd::prelude::*;

verus! {

/// The views of the items of a list.
pub open spec fn views<T: View>(list: Seq<T>) -> Seq<T::V> {
    list.map_values(|x: T| x@)
}

/// The views of a longer list.
pub proof fn lemma_views_push<T: View>(list: Seq<T>, x: T)
    ensures
        views(list.push(x)) == views(list).push(x@),
{
    assert(views(list.push(x)) =~= views(list).push(x@));
}

/// The last item of a list passes a filter or does not, and the rest is filtered alike.
pub proof fn lemma_filter_last<A>(list: Seq<A>, kept: spec_fn(A) -> bool)
    requires
        list.len() > 0,
    ensures
        list.filter(kept) == if kept(list.last()) {
            list.drop_last().filter(kept).push(list.last())
        } else {
            list.drop_last().filter(kept)
        },
{
    reveal(Seq::filter);
}

/// The results of a step on each item, or the first failure.
pub open spec fn collected<A, B, E>(items: Seq<A>, step: spec_fn(A) -> Result<B, E>) -> Result<
    Seq<B>,
    E,
>
    decreases items.len(),
{
    if items.len() == 0 {
        Ok(Seq::empty())
    } else {
        match collected(items.drop_last(), step) {
            Err(error) => Err(error),
            Ok(results) => match step(items.last()) {
                Err(error) => Err(error),
                Ok(result) => Ok(results.push(result)),
            },
        }
    }
}

/// What fails on the first items fails on all of them alike.
pub proof fn lemma_collected_prefix<A, B, E>(
    items: Seq<A>,
    n: int,
    step: spec_fn(A) -> Result<B, E>,
)
    requires
        0 <= n <= items.len(),
        collected(items.take(n), step) is Err,
    ensures
        collected(items, step) == collected(items.take(n), step),
    decreases items.len(),
{
    if n == items.len() {
        assert(items.take(n) =~= items);
    } else {
        assert(items.drop_last().take(n) =~= items.take(n));
        lemma_collected_prefix(items.drop_last(), n, step);
    }
}

/// When the step succeeds on every item, its results are collected one for one.
pub proof fn lemma_collected<A, B, E>(items: Seq<A>, step: spec_fn(A) -> Result<B, E>)
    ensures
        collected(items, step) is Ok <==> forall|i: int|
            0 <= i < items.len() ==> step(#[trigger] items[i]) is Ok,
        collected(items, step) matches Ok(results) ==> {
            &&& results.len() == items.len()
            &&& forall|i: int|
                0 <= i < items.len() ==> step(items[i]) == Ok::<B, E>(#[trigger] results[i])
        },
    decreases items.len(),
{
    if items.len() > 0 {
        let rest = items.drop_last();
        lemma_collected(rest, step);
        if forall|i: int| 0 <= i < items.len() ==> step(#[trigger] items[i]) is Ok {
            assert forall|i: int| 0 <= i < rest.len() implies step(#[trigger] rest[i]) is Ok by {
                assert(rest[i] == items[i]);
            }
            assert(step(items[items.len() - 1]) is Ok);
        }
        if collected(items, step) is Ok {
            let results = collected(items, step)->Ok_0;
            let before = collected(rest, step)->Ok_0;
            assert forall|i: int| 0 <= i < items.len() implies step(items[i]) == Ok::<B, E>(
                #[trigger] results[i],
            ) by {
                if i < before.len() {
                    assert(results[i] == before[i]);
                    assert(rest[i] == items[i]);
                }
            }
            assert forall|i: int| 0 <= i < items.len() implies step(#[trigger] items[i]) is Ok by {
                assert(step(items[i]) == Ok::<B, E>(results[i]));
            }
        }
    }
}

/// No two items have the same key.
pub open spec fn distinct_by<A, K>(list: Seq<A>, key: spec_fn(A) -> K) -> bool {
    forall|i: int, j: int|
        0 <= i < j < list.len() ==> key(#[trigger] list[i]) != key(#[trigger] list[j])
}

/// What passes a filter was in the list and passes the test, and distinct keys stay distinct.
pub proof fn lemma_filter<A, K>(list: Seq<A>, kept: spec_fn(A) -> bool, key: spec_fn(A) -> K)
    ensures
        forall|i: int|
            0 <= i < list.filter(kept).len() ==> kept(#[trigger] list.filter(kept)[i]) && list.contains(
                list.filter(kept)[i],
            ),
        forall|i: int|
            0 <= i < list.len() && kept(#[trigger] list[i]) ==> list.filter(kept).contains(list[i]),
        distinct_by(list, key) ==> distinct_by(list.filter(kept), key),
    decreases list.len(),
{
    let r = list.filter(kept);
    if list.len() == 0 {
        reveal(Seq::filter);
        assert(r.len() == 0);
    } else {
        let rest = list.drop_last();
        let s = rest.filter(kept);
        lemma_filter_last(list, kept);
        lemma_filter(rest, kept, key);
        assert forall|i: int| 0 <= i < r.len() implies kept(#[trigger] r[i]) && list.contains(r[i]) by {
            if i < s.len() {
                assert(r[i] == s[i]);
                assert(rest.contains(s[i]));
                let k = choose|k: int| 0 <= k < rest.len() && rest[k] == s[i];
                assert(list[k] == r[i]);
            } else {
                assert(list[list.len() - 1] == r[i]);
            }
        }
        assert forall|i: int| 0 <= i < list.len() && kept(#[trigger] list[i]) implies r.contains(
            list[i],
        ) by {
            if i < rest.len() {
                assert(rest[i] == list[i]);
                let k = choose|k: int| 0 <= k < s.len() && s[k] == list[i];
                assert(r[k] == list[i]);
            } else {
                assert(r[r.len() - 1] == list[i]);
            }
        }
        if distinct_by(list, key) {
            assert forall|i: int, j: int| 0 <= i < j < rest.len() implies key(#[trigger] rest[i])
                != key(#[trigger] rest[j]) by {
                assert(rest[i] == list[i] && rest[j] == list[j]);
            }
            assert forall|i: int, j: int| 0 <= i < j < r.len() implies key(#[trigger] r[i]) != key(
                #[trigger] r[j],
            ) by {
                assert(r[i] == s[i]);
                if j < s.len() {
                    assert(r[j] == s[j]);
                } else {
                    let k = choose|k: int| 0 <= k < rest.len() && rest[k] == s[i];
                    assert(list[k] == r[i]);
                    assert(list[list.len() - 1] == r[j]);
                }
            }
        }
    }
}

/// `x` put into an ordered list: after every item that it does not come before.
pub open spec fn placed<A>(list: Seq<A>, x: A, before: spec_fn(A, A) -> bool) -> Seq<A>
    decreases list.len(),
{
    if list.len() == 0 || !before(x, list.last()) {
        list.push(x)
    } else {
        placed(list.drop_last(), x, before).push(list.last())
    }
}

/// A list in order; items of which neither comes before the other keep their places.
pub open spec fn ordered<A>(list: Seq<A>, before: spec_fn(A, A) -> bool) -> Seq<A>
    decreases list.len(),
{
    if list.len() == 0 {
        list
    } else {
        placed(ordered(list.drop_last(), before), list.last(), before)
    }
}

/// Whether no item of a list comes before one that stands ahead of it.
pub open spec fn in_order<A>(list: Seq<A>, before: spec_fn(A, A) -> bool) -> bool {
    forall|i: int, j: int| 0 <= i < j < list.len() ==> !before(#[trigger] list[j], #[trigger] list[i])
}

/// Whether a relation is a strict order in which incomparable items can be swapped freely.
pub open spec fn strict_order<A>(before: spec_fn(A, A) -> bool) -> bool {
    &&& forall|a: A, b: A| #[trigger] before(a, b) ==> !before(b, a)
    &&& forall|a: A, b: A, c: A| #[trigger] before(a, b) && !before(c, b) ==> #[trigger] before(a, c)
}

proof fn lemma_placed<A>(list: Seq<A>, x: A, before: spec_fn(A, A) -> bool)
    ensures
        placed(list, x, before).to_multiset() == list.to_multiset().insert(x),
        placed(list, x, before).len() == list.len() + 1,
    decreases list.len(),
{
    broadcast use vstd::seq_lib::group_to_multiset_ensures;

    if list.len() == 0 || !before(x, list.last()) {
    } else {
        lemma_placed(list.drop_last(), x, before);
        assert(list =~= list.drop_last().push(list.last()));
        assert(placed(list, x, before).to_multiset() =~= list.to_multiset().insert(x));
    }
}

proof fn lemma_placed_in_order<A>(list: Seq<A>, x: A, before: spec_fn(A, A) -> bool)
    requires
        strict_order(before),
        in_order(list, before),
    ensures
        in_order(placed(list, x, before), before),
        forall|i: int|
            0 <= i < placed(list, x, before).len() ==> (#[trigger] placed(list, x, before)[i] == x
                || list.contains(placed(list, x, before)[i])),
    decreases list.len(),
{
    let r = placed(list, x, before);
    if list.len() == 0 || !before(x, list.last()) {
        assert forall|i: int, j: int| 0 <= i < j < r.len() implies !before(
            #[trigger] r[j],
            #[trigger] r[i],
        ) by {
            if j == list.len() && before(x, list[i]) {
                if i < list.len() - 1 {
                    assert(!before(list.last(), list[i]));
                    assert(before(x, list.last()));
                }
            }
        }
        assert forall|i: int| 0 <= i < r.len() implies (#[trigger] r[i] == x || list.contains(r[i])) by {
            if i < list.len() {
                assert(r[i] == list[i]);
            }
        }
    } else {
        let shorter = list.drop_last();
        let s = placed(shorter, x, before);
        lemma_placed_in_order(shorter, x, before);
        assert forall|i: int, j: int| 0 <= i < j < r.len() implies !before(
            #[trigger] r[j],
            #[trigger] r[i],
        ) by {
            assert(r[i] == s[i]);
            if j < s.len() {
                assert(r[j] == s[j]);
            } else if s[i] != x {
                let k = shorter.index_of(s[i]);
                assert(shorter[k] == s[i]);
                assert(list[k] == s[i]);
            }
        }
        assert forall|i: int| 0 <= i < r.len() implies (#[trigger] r[i] == x || list.contains(r[i])) by {
            if i < s.len() {
                assert(r[i] == s[i]);
                if s[i] != x {
                    let k = shorter.index_of(s[i]);
                    assert(list[k] == s[i]);
                }
            } else {
                assert(r[i] == list[list.len() - 1]);
            }
        }
    }
}

/// Ordering a list rearranges it and leaves it in order.
pub proof fn lemma_ordered<A>(list: Seq<A>, before: spec_fn(A, A) -> bool)
    ensures
        ordered(list, before).to_multiset() == list.to_multiset(),
        ordered(list, before).len() == list.len(),
        strict_order(before) ==> in_order(ordered(list, before), before),
    decreases list.len(),
{
    broadcast use vstd::seq_lib::group_to_multiset_ensures;

    if list.len() > 0 {
        lemma_ordered(list.drop_last(), before);
        lemma_placed(ordered(list.drop_last(), before), list.last(), before);
        if strict_order(before) {
            lemma_placed_in_order(ordered(list.drop_last(), before), list.last(), before);
        }
        assert(list =~= list.drop_last().push(list.last()));
    }
}

/// An ordered list has exactly the items of the list that it was made from.
pub proof fn lemma_ordered_contains<A>(list: Seq<A>, before: spec_fn(A, A) -> bool, x: A)
    ensures
        ordered(list, before).contains(x) == list.contains(x),
{
    broadcast use vstd::seq_lib::group_to_multiset_ensures;

    lemma_ordered(list, before);
    assert(list.contains(x) <==> list.to_multiset().count(x) > 0);
    assert(ordered(list, before).contains(x) <==> ordered(list, before).to_multiset().count(x) > 0);
}

proof fn lemma_placed_items<A, K>(
    list: Seq<A>,
    x: A,
    before: spec_fn(A, A) -> bool,
    key: spec_fn(A) -> K,
)
    ensures
        forall|i: int|
            0 <= i < placed(list, x, before).len() ==> (#[trigger] placed(list, x, before)[i]) == x
                || list.contains(placed(list, x, before)[i]),
        distinct_by(list, key) && (forall|i: int|
            0 <= i < list.len() ==> key(#[trigger] list[i]) != key(x)) ==> distinct_by(
            placed(list, x, before),
            key,
        ),
    decreases list.len(),
{
    let r = placed(list, x, before);
    if list.len() > 0 && before(x, list.last()) {
        let rest = list.drop_last();
        lemma_placed_items(rest, x, before, key);
        assert forall|i: int| 0 <= i < r.len() implies (#[trigger] r[i]) == x || list.contains(
            r[i],
        ) by {
            if i < r.len() - 1 {
                assert(r[i] == placed(rest, x, before)[i]);
                if rest.contains(r[i]) {
                    let k = choose|k: int| 0 <= k < rest.len() && rest[k] == r[i];
                    assert(list[k] == r[i]);
                }
            }
        }
        if distinct_by(list, key) && (forall|i: int|
            0 <= i < list.len() ==> key(#[trigger] list[i]) != key(x)) {
            assert forall|i: int, j: int| 0 <= i < j < rest.len() implies key(#[trigger] rest[i])
                != key(#[trigger] rest[j]) by {
                assert(key(list[i]) != key(list[j]));
            }
            assert forall|i: int| 0 <= i < rest.len() implies key(#[trigger] rest[i])
                != key(x) by {
                assert(key(list[i]) != key(x));
            }
            assert forall|i: int, j: int| 0 <= i < j < r.len() implies key(#[trigger] r[i])
                != key(#[trigger] r[j]) by {
                let shorter = placed(rest, x, before);
                assert(r[i] == shorter[i]);
                if j < r.len() - 1 {
                    assert(key(shorter[i]) != key(shorter[j]));
                } else if rest.contains(r[i]) {
                    let k = choose|k: int| 0 <= k < rest.len() && rest[k] == r[i];
                    assert(key(list[k]) != key(list[list.len() - 1]));
                } else {
                    assert(key(list[list.len() - 1]) != key(x));
                }
            }
        }
    }
}

/// Putting a list in order keeps distinct keys distinct.
pub proof fn lemma_ordered_distinct<A, K>(
    list: Seq<A>,
    before: spec_fn(A, A) -> bool,
    key: spec_fn(A) -> K,
)
    requires
        distinct_by(list, key),
    ensures
        distinct_by(ordered(list, before), key),
    decreases list.len(),
{
    if list.len() > 0 {
        let rest = list.drop_last();
        let x = list.last();
        assert forall|i: int, j: int| 0 <= i < j < rest.len() implies key(#[trigger] rest[i])
            != key(#[trigger] rest[j]) by {
            assert(key(list[i]) != key(list[j]));
        }
        lemma_ordered_distinct(rest, before, key);
        let sorted = ordered(rest, before);
        assert forall|i: int| 0 <= i < sorted.len() implies key(#[trigger] sorted[i])
            != key(x) by {
            lemma_ordered_contains(rest, before, sorted[i]);
            assert(sorted.contains(sorted[i]));
            let k = choose|k: int| 0 <= k < rest.len() && rest[k] == sorted[i];
            assert(key(list[k]) != key(list[list.len() - 1]));
        }
        lemma_placed_items(sorted, x, before, key);
    }
}

proof fn lemma_placed_filtered<A>(
    list: Seq<A>,
    x: A,
    before: spec_fn(A, A) -> bool,
    kept: spec_fn(A) -> bool,
)
    ensures
        placed(list, x, before).filter(kept).len() == list.filter(kept).len() + (if kept(x) {
            1nat
        } else {
            0nat
        }),
    decreases list.len(),
{
    let r = placed(list, x, before);
    if list.len() == 0 || !before(x, list.last()) {
        assert(r.drop_last() =~= list);
        lemma_filter_last(r, kept);
    } else {
        let rest = list.drop_last();
        lemma_placed_filtered(rest, x, before, kept);
        assert(r.drop_last() =~= placed(rest, x, before));
        lemma_filter_last(r, kept);
        lemma_filter_last(list, kept);
    }
}

/// As many items pass a test when a list is put in order.
pub proof fn lemma_ordered_filtered<A>(
    list: Seq<A>,
    before: spec_fn(A, A) -> bool,
    kept: spec_fn(A) -> bool,
)
    ensures
        ordered(list, before).filter(kept).len() == list.filter(kept).len(),
    decreases list.len(),
{
    if list.len() > 0 {
        lemma_ordered_filtered(list.drop_last(), before, kept);
        lemma_placed_filtered(ordered(list.drop_last(), before), list.last(), before, kept);
        lemma_filter_last(list, kept);
    }
}

/// Records that have an order.
pub trait Ordered: View {
    /// The order, over the records' views.
    spec fn order() -> spec_fn(Self::V, Self::V) -> bool;

    /// Whether this record comes strictly before another.
    fn precedes(&self, other: &Self) -> (r: bool)
        ensures
            r == (Self::order())(self@, other@),
    ;
}

fn place<T: Ordered>(list: &mut Vec<T>, x: T)
    ensures
        views(final(list)@) == placed(views(old(list)@), x@, T::order()),
{
    let ghost all = views(list@);
    let mut k: usize = list.len();
    assert(all.take(k as int) =~= all);
    assert(placed(all, x@, T::order()) =~= placed(all.take(k as int), x@, T::order()) + all.skip(
        k as int,
    ));
    while k > 0 && x.precedes(&list[k - 1])
        invariant
            k <= list.len(),
            all == views(list@),
            list@ == old(list)@,
            placed(all, x@, T::order()) == placed(all.take(k as int), x@, T::order()) + all.skip(
                k as int,
            ),
        decreases k,
    {
        assert(all.take(k as int).drop_last() =~= all.take(k - 1));
        assert(all.take(k as int).last() == all[k - 1]);
        assert(all.skip(k - 1) =~= seq![all[k - 1]] + all.skip(k as int));
        assert(placed(all, x@, T::order()) =~= placed(all.take(k - 1), x@, T::order()) + all.skip(
            k - 1,
        ));
        k = k - 1;
    }
    if k > 0 {
        assert(all.take(k as int).last() == all[k - 1]);
    }
    let ghost y = x@;
    list.insert(k, x);
    assert(views(list@) =~= all.take(k as int).push(y) + all.skip(k as int));
}

/// Puts a list in order, stably.
pub fn sort<T: Ordered>(list: Vec<T>) -> (r: Vec<T>)
    ensures
        views(r@) == ordered(views(list@), T::order()),
{
    let ghost all = views(list@);
    let mut rest = list;
    let mut reversed: Vec<T> = Vec::new();
    while rest.len() > 0
        invariant
            rest.len() + reversed.len() == all.len(),
            views(rest@) == all.take(rest.len() as int),
            views(reversed@).reverse() == all.skip(rest.len() as int),
        decreases rest.len(),
    {
        let ghost before = rest@;
        let ghost before_r = reversed@;
        let x = rest.pop().unwrap();
        proof {
            assert(views(before)[rest@.len() as int] == x@);
            assert(views(rest@) =~= all.take(rest.len() as int)) by {
                assert(views(rest@) =~= views(before).drop_last());
            }
        }
        let ghost y = x@;
        reversed.push(x);
        proof {
            assert(views(reversed@) =~= views(before_r).push(y));
            assert(views(reversed@).reverse() =~= seq![y] + views(before_r).reverse());
            assert(all.skip(rest.len() as int) =~= seq![all[rest.len() as int]] + all.skip(
                rest.len() + 1,
            ));
        }
    }
    assert(all.skip(0) =~= all);
    let mut r: Vec<T> = Vec::new();
    assert(views(r@) =~= ordered(all.take(0), T::order()));
    while reversed.len() > 0
        invariant
            r.len() + reversed.len() == all.len(),
            views(reversed@).reverse() == all.skip(r.len() as int),
            views(r@) == ordered(all.take(r.len() as int), T::order()),
        decreases reversed.len(),
    {
        let ghost before = reversed@;
        let ghost n = r.len() as int;
        let x = reversed.pop().unwrap();
        let ghost y = x@;
        proof {
            assert(views(before).reverse()[0] == y);
            assert(all.skip(n)[0] == all[n]);
            assert(all.take(n + 1).drop_last() =~= all.take(n));
            assert(all.take(n + 1).last() == y);
            lemma_placed(ordered(all.take(n), T::order()), y, T::order());
            lemma_ordered(all.take(n), T::order());
        }
        place(&mut r, x);
        proof {
            assert(views(r@).len() == n + 1);
            assert(views(reversed@).reverse() =~= views(before).reverse().drop_first()) by {
                assert(views(reversed@) =~= views(before).drop_last());
            }
            assert(all.skip(n).drop_first() =~= all.skip(n + 1));
        }
    }
    assert(all.take(r.len() as int) =~= all);
    r
}

/// Removes from a list every record that fails a test.
pub(crate) fn keep<T: View, F: Fn(&T) -> bool>(
    list: &mut Vec<T>,
    test: F,
    Ghost(kept): Ghost<spec_fn(T::V) -> bool>,
)
    requires
        forall|x: &T| call_requires(test, (x,)),
        forall|x: &T, b: bool| call_ensures(test, (x,), b) ==> b == kept(x@),
    ensures
        views(final(list)@) == views(old(list)@).filter(kept),
{
    let ghost all = views(list@);
    let ghost mut seen: int = 0;
    let mut i: usize = 0;
    assert(all.take(0).filter(kept) =~= Seq::empty()) by {
        reveal(Seq::filter);
    }
    assert(all =~= all.take(0).filter(kept) + all.skip(0));
    while i < list.len()
        invariant
            0 <= seen <= all.len(),
            i <= list.len(),
            list.len() - i == all.len() - seen,
            i == all.take(seen).filter(kept).len(),
            views(list@) == all.take(seen).filter(kept) + all.skip(seen),
            forall|x: &T| call_requires(test, (x,)),
            forall|x: &T, b: bool| call_ensures(test, (x,), b) ==> b == kept(x@),
        decreases list.len() - i,
    {
        let stays = test(&list[i]);
        proof {
            reveal(Seq::filter);
            assert(views(list@)[i as int] == all.skip(seen)[0]);
            assert(all.take(seen + 1).drop_last() =~= all.take(seen));
            assert(all.take(seen + 1).last() == all[seen]);
            assert(all.skip(seen) =~= seq![all[seen]] + all.skip(seen + 1));
        }
        if stays {
            i = i + 1;
            proof {
                assert(views(list@) =~= all.take(seen + 1).filter(kept) + all.skip(seen + 1));
            }
        } else {
            let ghost before = views(list@);
            list.remove(i);
            proof {
                assert(views(list@) =~= before.remove(i as int));
                assert(views(list@) =~= all.take(seen + 1).filter(kept) + all.skip(seen + 1));
            }
        }
        proof {
            seen = seen + 1;
        }
    }
    assert(all.take(seen) =~= all);
    assert(views(list@) =~= all.filter(kept));
}

} // verus!
