//! Arranging a list by a ranking of its items, without changing the order
//! of items that rank the same.
//!
//! A ranking is a relation `lt`: `lt(a, b)` says that `a` comes before `b`.

use vstd::prelude::*;

verus! {

/// The first `n` items of `list`, or all of them when it has fewer.
pub open spec fn first_n<T>(list: Seq<T>, n: int) -> Seq<T> {
    if 0 <= n < list.len() {
        list.take(n)
    } else {
        list
    }
}

/// `lt` ranks items: of two items at most one comes before the other, and
/// an item that comes before neither of two items leaves their order to
/// them: if `a` does not come before `b`, nor `b` before `c`, then `a` does
/// not come before `c`.
pub open spec fn ranks<T>(lt: spec_fn(T, T) -> bool) -> bool {
    &&& forall|a: T, b: T| #[trigger] lt(a, b) ==> !lt(b, a)
    &&& forall|a: T, b: T, c: T| !#[trigger] lt(a, b) && !#[trigger] lt(b, c) ==> !lt(a, c)
}

/// The position of the first item of `sorted`, at or after `from`, that
/// `x` comes before; the length of `sorted` when there is none.
pub open spec fn first_behind<T>(sorted: Seq<T>, x: T, lt: spec_fn(T, T) -> bool, from: int) -> int
    decreases sorted.len() - from,
{
    if from >= sorted.len() {
        sorted.len() as int
    } else if lt(x, sorted[from]) {
        from
    } else {
        first_behind(sorted, x, lt, from + 1)
    }
}

/// `sorted` with `x` put in behind every item that it does not come before.
pub open spec fn placed<T>(sorted: Seq<T>, x: T, lt: spec_fn(T, T) -> bool) -> Seq<T> {
    sorted.insert(first_behind(sorted, x, lt, 0), x)
}

/// The items of `list` arranged by `lt`: each item in turn is put in
/// behind the items that it does not come before.
pub open spec fn arranged<T>(list: Seq<T>, lt: spec_fn(T, T) -> bool) -> Seq<T>
    decreases list.len(),
{
    if list.len() == 0 {
        list
    } else {
        placed(arranged(list.drop_last(), lt), list.last(), lt)
    }
}

/// No item of `list` stands behind an item that it comes before.
pub open spec fn in_order<T>(list: Seq<T>, lt: spec_fn(T, T) -> bool) -> bool {
    forall|i: int, j: int| 0 <= i < j < list.len() ==> !lt(#[trigger] list[j], #[trigger] list[i])
}

/// Whether an item ranks the same as `x`: neither comes before the other.
pub open spec fn ranks_with<T>(lt: spec_fn(T, T) -> bool, x: T) -> spec_fn(T) -> bool {
    |y: T| !lt(x, y) && !lt(y, x)
}

/// What `first_behind` gives is the least position, at or after `from`,
/// of an item that `x` comes before.
pub proof fn lemma_first_behind<T>(sorted: Seq<T>, x: T, lt: spec_fn(T, T) -> bool, from: int)
    requires
        0 <= from <= sorted.len(),
    ensures
        from <= first_behind(sorted, x, lt, from) <= sorted.len(),
        forall|j: int| from <= j < first_behind(sorted, x, lt, from) ==> !lt(x, sorted[j]),
        first_behind(sorted, x, lt, from) < sorted.len() ==> lt(
            x,
            sorted[first_behind(sorted, x, lt, from)],
        ),
    decreases sorted.len() - from,
{
    if from < sorted.len() && !lt(x, sorted[from]) {
        lemma_first_behind(sorted, x, lt, from + 1);
    }
}

/// In a list that is in order, `x` comes before every item from
/// `first_behind` on.
proof fn lemma_before_all_behind<T>(sorted: Seq<T>, x: T, lt: spec_fn(T, T) -> bool, j: int)
    requires
        ranks(lt),
        in_order(sorted, lt),
        first_behind(sorted, x, lt, 0) <= j < sorted.len(),
    ensures
        lt(x, sorted[j]),
{
    lemma_first_behind(sorted, x, lt, 0);
    let p = first_behind(sorted, x, lt, 0);
    if p < j {
        assert(!lt(sorted[j], sorted[p]));
        assert(lt(x, sorted[p]));
        if !lt(x, sorted[j]) {
            assert(!lt(x, sorted[p]));
        }
    }
}

/// Putting an item in its place keeps a list in order.
proof fn lemma_placed_in_order<T>(sorted: Seq<T>, x: T, lt: spec_fn(T, T) -> bool)
    requires
        ranks(lt),
        in_order(sorted, lt),
    ensures
        in_order(placed(sorted, x, lt), lt),
{
    let p = first_behind(sorted, x, lt, 0);
    let out = placed(sorted, x, lt);
    lemma_first_behind(sorted, x, lt, 0);
    assert forall|i: int, j: int| 0 <= i < j < out.len() implies !lt(
        #[trigger] out[j],
        #[trigger] out[i],
    ) by {
        if j < p {
            assert(out[i] == sorted[i] && out[j] == sorted[j]);
        } else if j == p {
            assert(out[i] == sorted[i]);
        } else if i < p {
            assert(out[i] == sorted[i] && out[j] == sorted[j - 1]);
        } else if i == p {
            assert(out[j] == sorted[j - 1]);
            lemma_before_all_behind(sorted, x, lt, j - 1);
        } else {
            assert(out[i] == sorted[i - 1] && out[j] == sorted[j - 1]);
        }
    }
}

/// An arranged list is in order.
pub proof fn lemma_arranged_in_order<T>(list: Seq<T>, lt: spec_fn(T, T) -> bool)
    requires
        ranks(lt),
    ensures
        in_order(arranged(list, lt), lt),
    decreases list.len(),
{
    if list.len() > 0 {
        lemma_arranged_in_order(list.drop_last(), lt);
        lemma_placed_in_order(arranged(list.drop_last(), lt), list.last(), lt);
    }
}

/// Arranging neither drops nor adds an item, and the items that rank the
/// same as `x` come out in the order in which they went in.
pub proof fn lemma_arranged_is_stable<T>(list: Seq<T>, lt: spec_fn(T, T) -> bool, x: T)
    requires
        ranks(lt),
    ensures
        arranged(list, lt).len() == list.len(),
        arranged(list, lt).to_multiset() == list.to_multiset(),
        arranged(list, lt).filter(ranks_with(lt, x)) == list.filter(ranks_with(lt, x)),
    decreases list.len(),
{
    let same = ranks_with(lt, x);
    if list.len() > 0 {
        let rest = list.drop_last();
        let item = list.last();
        let sorted = arranged(rest, lt);
        let p = first_behind(sorted, item, lt, 0);
        lemma_arranged_is_stable(rest, lt, x);
        lemma_arranged_in_order(rest, lt);
        lemma_first_behind(sorted, item, lt, 0);
        let before = sorted.subrange(0, p);
        let after = sorted.subrange(p, sorted.len() as int);
        assert(sorted =~= before + after);
        assert(placed(sorted, item, lt) =~= before + seq![item] + after);
        assert(list =~= rest + seq![item]);
        Seq::filter_distributes_over_add(before, after, same);
        Seq::filter_distributes_over_add(before, seq![item], same);
        Seq::filter_distributes_over_add(before + seq![item], after, same);
        Seq::filter_distributes_over_add(rest, seq![item], same);
        if same(item) {
            assert forall|k: int| 0 <= k < after.len() implies !same(#[trigger] after[k]) by {
                lemma_before_all_behind(sorted, item, lt, p + k);
                // `item` comes before `after[k]` and ranks with `x`, so `x` comes before it too
                if !lt(x, after[k]) {
                    assert(!lt(item, x));
                    assert(!lt(item, after[k]));
                }
            }
            assert(after.all(|y: T| !same(y)));
            after.lemma_all_neg_filter_empty(same);
            assert(after.filter(same) =~= Seq::empty());
        } else {
            reveal_with_fuel(Seq::filter, 2);
            assert(seq![item].filter(same) =~= Seq::empty());
        }
        assert(arranged(list, lt).filter(same) =~= list.filter(same));
        vstd::seq_lib::lemma_multiset_commutative(before, after);
        vstd::seq_lib::lemma_multiset_commutative(before, seq![item]);
        vstd::seq_lib::lemma_multiset_commutative(before + seq![item], after);
        vstd::seq_lib::lemma_multiset_commutative(rest, seq![item]);
    }
}

/// An arranged list holds the items of the list, and no others.
pub proof fn lemma_arranged_holds_the_same<T>(list: Seq<T>, lt: spec_fn(T, T) -> bool, x: T)
    requires
        ranks(lt),
    ensures
        arranged(list, lt).contains(x) <==> list.contains(x),
{
    lemma_arranged_is_stable(list, lt, x);
    list.to_multiset_ensures();
    arranged(list, lt).to_multiset_ensures();
    assert(list.contains(x) <==> list.to_multiset().count(x) > 0);
    assert(arranged(list, lt).contains(x) <==> arranged(list, lt).to_multiset().count(x) > 0);
}

/// Arranging a list with one more item at its end puts that item into the
/// arrangement of the list.
pub proof fn lemma_arranged_push<T>(list: Seq<T>, x: T, lt: spec_fn(T, T) -> bool)
    ensures
        arranged(list.push(x), lt) == placed(arranged(list, lt), x, lt),
{
    assert(list.push(x).drop_last() =~= list);
}

/// Two tests that agree on every item of a list pick the same items.
pub proof fn lemma_filter_agrees<T>(list: Seq<T>, p: spec_fn(T) -> bool, q: spec_fn(T) -> bool)
    requires
        forall|i: int| 0 <= i < list.len() ==> p(#[trigger] list[i]) == q(list[i]),
    ensures
        list.filter(p) == list.filter(q),
    decreases list.len(),
{
    reveal(Seq::filter);
    if list.len() > 0 {
        let rest = list.drop_last();
        assert forall|i: int| 0 <= i < rest.len() implies p(#[trigger] rest[i]) == q(rest[i]) by {
            assert(rest[i] == list[i]);
        }
        lemma_filter_agrees(rest, p, q);
        assert(list.last() == list[list.len() - 1]);
    }
}

} // verus!
