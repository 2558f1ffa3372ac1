//! Stable ordering by integer keys.
//!
//! A list is put in order by ranking its keys: the ranking is the list of
//! positions, smallest key first, equal keys in the order they came in.

use crate::scan::{lemma_select_insert, lemma_select_members, lemma_select_split, select};
use vstd::prelude::*;

verus! {

/// Where a new key goes into a list of keys: behind the last key that is not
/// greater than it, or in front if every key is greater.
pub open spec fn slot(keys: Seq<int>, k: int) -> int
    decreases keys.len(),
{
    if keys.len() == 0 {
        0
    } else if keys.last() <= k {
        keys.len() as int
    } else {
        slot(keys.drop_last(), k)
    }
}

/// The items at the given positions, in the order of the positions.
pub open spec fn arrange<T>(items: Seq<T>, order: Seq<int>) -> Seq<T> {
    Seq::new(order.len(), |i: int| items[order[i]])
}

/// The positions of `keys` in ascending order of key. Each key in turn is
/// put behind those that are not greater, so equal keys keep their order.
pub open spec fn ranking(keys: Seq<int>) -> Seq<int>
    decreases keys.len(),
{
    if keys.len() == 0 {
        Seq::empty()
    } else {
        let front = keys.drop_last();
        let head = ranking(front);
        head.insert(slot(arrange(front, head), keys.last()), keys.len() - 1)
    }
}

/// `items` in ascending order of `keys`, where `keys[i]` is the key of
/// `items[i]`; items with equal keys keep their order.
pub open spec fn sorted_by_keys<T>(items: Seq<T>, keys: Seq<int>) -> Seq<T> {
    arrange(items, ranking(keys))
}

/// Whether the keys never decrease.
pub open spec fn ascending(keys: Seq<int>) -> bool {
    forall|i: int, j: int| 0 <= i < j < keys.len() ==> keys[i] <= keys[j]
}

/// The keys as integers.
pub open spec fn key_ints(keys: Seq<i128>) -> Seq<int> {
    Seq::new(keys.len(), |i: int| keys[i] as int)
}

/// The positions as integers.
pub open spec fn positions(order: Seq<usize>) -> Seq<int> {
    Seq::new(order.len(), |i: int| order[i] as int)
}

/// The slot lies within the list.
pub proof fn lemma_slot_bounds(keys: Seq<int>, k: int)
    ensures
        0 <= slot(keys, k) <= keys.len(),
    decreases keys.len(),
{
    if keys.len() > 0 && keys.last() > k {
        lemma_slot_bounds(keys.drop_last(), k);
    }
}

/// The slot is the place behind which every key is greater and in front of
/// which stands a key that is not.
pub proof fn lemma_slot_found(keys: Seq<int>, k: int, p: int)
    requires
        0 <= p <= keys.len(),
        forall|j: int| p <= j < keys.len() ==> keys[j] > k,
        p == 0 || keys[p - 1] <= k,
    ensures
        slot(keys, k) == p,
    decreases keys.len(),
{
    if keys.len() > 0 && p < keys.len() {
        lemma_slot_found(keys.drop_last(), k, p);
    }
}

/// A ranking lists every position exactly once.
pub proof fn lemma_ranking_is_permutation(keys: Seq<int>)
    ensures
        ranking(keys).len() == keys.len(),
        forall|i: int| 0 <= i < keys.len() ==> 0 <= #[trigger] ranking(keys)[i] < keys.len(),
        forall|i: int, j: int|
            0 <= i < j < keys.len() ==> #[trigger] ranking(keys)[i] != #[trigger] ranking(keys)[j],
        forall|p: int| 0 <= p < keys.len() ==> ranking(keys).contains(p),
    decreases keys.len(),
{
    if keys.len() > 0 {
        let front = keys.drop_last();
        let head = ranking(front);
        lemma_ranking_is_permutation(front);
        let s = slot(arrange(front, head), keys.last());
        lemma_slot_bounds(arrange(front, head), keys.last());
        let r = ranking(keys);
        let n = keys.len() - 1;
        assert(r == head.insert(s, n));
        assert forall|p: int| 0 <= p < keys.len() implies r.contains(p) by {
            if p == n {
                assert(r[s] == n);
            } else {
                assert(head.contains(p));
                let i = choose|i: int| 0 <= i < head.len() && head[i] == p;
                if i < s {
                    assert(r[i] == p);
                } else {
                    assert(r[i + 1] == p);
                }
            }
        }
    }
}

/// Arranged by their ranking, the keys never decrease.
pub proof fn lemma_ranking_ascends(keys: Seq<int>)
    ensures
        ascending(arrange(keys, ranking(keys))),
    decreases keys.len(),
{
    if keys.len() > 0 {
        let front = keys.drop_last();
        let head = ranking(front);
        let k = keys.last();
        let n = keys.len() - 1;
        lemma_ranking_ascends(front);
        lemma_ranking_is_permutation(front);
        let ranked = arrange(front, head);
        let s = slot(ranked, k);
        lemma_slot_bounds(ranked, k);
        lemma_slot_split(ranked, k);
        let r = ranking(keys);
        let out = arrange(keys, r);
        assert forall|i: int, j: int| 0 <= i < j < out.len() implies out[i] <= out[j] by {
            let a = if i < s { i } else { i - 1 };
            let b = if j < s { j } else { j - 1 };
            if i != s {
                assert(out[i] == ranked[a]);
            }
            if j != s {
                assert(out[j] == ranked[b]);
            }
        }
    }
}

/// In a list that never decreases, the keys in front of the slot are not
/// greater than the new key and those behind it are.
pub proof fn lemma_slot_split(keys: Seq<int>, k: int)
    requires
        ascending(keys),
    ensures
        forall|j: int| 0 <= j < slot(keys, k) ==> keys[j] <= k,
        forall|j: int| slot(keys, k) <= j < keys.len() ==> keys[j] > k,
    decreases keys.len(),
{
    if keys.len() > 0 && keys.last() > k {
        let front = keys.drop_last();
        assert(ascending(front)) by {
            assert forall|i: int, j: int| 0 <= i < j < front.len() implies front[i] <= front[j] by {
                assert(front[i] == keys[i] && front[j] == keys[j]);
            }
        }
        lemma_slot_split(front, k);
        lemma_slot_bounds(front, k);
        assert forall|j: int| 0 <= j < slot(keys, k) implies keys[j] <= k by {
            assert(front[j] == keys[j]);
        }
        assert forall|j: int| slot(keys, k) <= j < keys.len() implies keys[j] > k by {
            if j < front.len() {
                assert(front[j] == keys[j]);
            }
        }
    }
}

/// Positions with equal keys stand in a ranking in ascending order.
pub proof fn lemma_ranking_is_stable(keys: Seq<int>)
    ensures
        forall|i: int, j: int|
            0 <= i < j < keys.len() && keys[ranking(keys)[i]] == keys[ranking(keys)[j]]
                ==> #[trigger] ranking(keys)[i] < #[trigger] ranking(keys)[j],
    decreases keys.len(),
{
    if keys.len() > 0 {
        let front = keys.drop_last();
        let head = ranking(front);
        let k = keys.last();
        let n = keys.len() - 1;
        lemma_ranking_is_stable(front);
        lemma_ranking_is_permutation(front);
        lemma_ranking_ascends(front);
        let ranked = arrange(front, head);
        let s = slot(ranked, k);
        lemma_slot_bounds(ranked, k);
        lemma_slot_split(ranked, k);
        let r = ranking(keys);
        assert forall|i: int, j: int|
            0 <= i < j < keys.len() && keys[r[i]] == keys[r[j]] implies r[i] < r[j] by {
            let a = if i < s { i } else { i - 1 };
            let b = if j < s { j } else { j - 1 };
            if i == s {
                assert(r[j] == head[b]);
                assert(ranked[b] == front[head[b]]);
                assert(ranked[b] > k);
            } else if j == s {
                assert(r[i] == head[a]);
            } else {
                assert(r[i] == head[a]);
                assert(r[j] == head[b]);
                assert(front[head[a]] == keys[head[a]]);
                assert(front[head[b]] == keys[head[b]]);
            }
        }
    }
}

/// The keys of the items.
pub open spec fn keys_of<T>(items: Seq<T>, key: spec_fn(T) -> int) -> Seq<int> {
    Seq::new(items.len(), |i: int| key(items[i]))
}

/// `items` in ascending order of their keys; items with equal keys keep
/// their order.
pub open spec fn sorted_by<T>(items: Seq<T>, key: spec_fn(T) -> int) -> Seq<T> {
    sorted_by_keys(items, keys_of(items, key))
}

/// Putting one more item in order puts it into its slot among the others.
pub proof fn lemma_sorted_push<T>(items: Seq<T>, key: spec_fn(T) -> int, x: T)
    ensures
        sorted_by(items, key).len() == items.len(),
        0 <= slot(keys_of(sorted_by(items, key), key), key(x)) <= items.len(),
        sorted_by(items.push(x), key) == sorted_by(items, key).insert(
            slot(keys_of(sorted_by(items, key), key), key(x)),
            x,
        ),
{
    let keys = keys_of(items, key);
    let more = keys_of(items.push(x), key);
    let head = ranking(keys);
    lemma_ranking_is_permutation(keys);
    assert(more.drop_last() =~= keys);
    assert(more.last() == key(x));
    assert(arrange(keys, head) =~= keys_of(sorted_by(items, key), key));
    let p = slot(arrange(keys, head), key(x));
    lemma_slot_bounds(arrange(keys, head), key(x));
    assert(ranking(more) == head.insert(p, items.len() as int));
    assert(sorted_by(items.push(x), key) =~= sorted_by(items, key).insert(p, x));
}

/// In order, the keys never decrease.
pub proof fn lemma_sorted_ascends<T>(items: Seq<T>, key: spec_fn(T) -> int)
    ensures
        ascending(keys_of(sorted_by(items, key), key)),
{
    let keys = keys_of(items, key);
    lemma_ranking_ascends(keys);
    lemma_ranking_is_permutation(keys);
    assert(arrange(keys, ranking(keys)) =~= keys_of(sorted_by(items, key), key));
}

/// Selecting and putting in order can change places: what is selected from
/// the items in order is the selected items in order.
pub proof fn lemma_select_sorted<T>(items: Seq<T>, key: spec_fn(T) -> int, want: spec_fn(T) -> bool)
    ensures
        select(sorted_by(items, key), want) == sorted_by(select(items, want), key),
    decreases items.len(),
{
    if items.len() == 0 {
        assert(sorted_by(items, key) =~= Seq::<T>::empty());
        assert(sorted_by(select(items, want), key) =~= Seq::<T>::empty());
    } else {
        let front = items.drop_last();
        let x = items.last();
        let k = key(x);
        assert(items == front.push(x));
        lemma_select_sorted(front, key, want);
        lemma_sorted_push(front, key, x);
        let ordered = sorted_by(front, key);
        let p = slot(keys_of(ordered, key), k);
        lemma_select_insert(ordered, want, p, x);
        if want(x) {
            let chosen = select(ordered, want);
            let head = select(ordered.take(p), want);
            let tail = select(ordered.skip(p), want);
            let q = head.len() as int;
            lemma_select_split(ordered, want, p);
            lemma_sorted_ascends(front, key);
            lemma_slot_split(keys_of(ordered, key), k);
            lemma_select_members(ordered.take(p), want);
            lemma_select_members(ordered.skip(p), want);
            let chosen_keys = keys_of(chosen, key);
            assert forall|j: int| q <= j < chosen_keys.len() implies chosen_keys[j] > k by {
                let e = tail[j - q];
                assert(chosen[j] == e);
                assert(ordered.skip(p).contains(e));
                let m = choose|m: int| 0 <= m < ordered.skip(p).len() && ordered.skip(p)[m] == e;
                assert(keys_of(ordered, key)[p + m] == key(e));
            }
            if q > 0 {
                let e = head[q - 1];
                assert(chosen[q - 1] == e);
                assert(ordered.take(p).contains(e));
                let m = choose|m: int| 0 <= m < ordered.take(p).len() && ordered.take(p)[m] == e;
                assert(keys_of(ordered, key)[m] == key(e));
            }
            lemma_slot_found(chosen_keys, k, q);
            lemma_sorted_push(select(front, want), key, x);
        }
    }
}

/// The ranking of the keys.
pub fn rank(keys: &Vec<i128>) -> (order: Vec<usize>)
    ensures
        positions(order@) == ranking(key_ints(keys@)),
        order.len() == keys.len(),
        forall|i: int| 0 <= i < order.len() ==> order[i] < keys.len(),
{
    let ghost all = key_ints(keys@);
    let mut order: Vec<usize> = Vec::new();
    let mut n: usize = 0;
    assert(positions(order@) =~= ranking(all.take(0)));
    while n < keys.len()
        invariant
            n <= keys.len(),
            all == key_ints(keys@),
            order.len() == n,
            positions(order@) == ranking(all.take(n as int)),
            forall|i: int| 0 <= i < n ==> order[i] < n,
        decreases keys.len() - n,
    {
        let k: i128 = keys[n];
        let ghost front = all.take(n as int);
        let ghost head = ranking(front);
        let ghost ranked = arrange(front, head);
        let mut p: usize = n;
        while p > 0 && keys[order[p - 1]] > k
            invariant
                p <= n < keys.len(),
                order.len() == n,
                all == key_ints(keys@),
                front == all.take(n as int),
                head == positions(order@),
                ranked == arrange(front, head),
                forall|i: int| 0 <= i < n ==> order[i] < n,
                forall|j: int| p <= j < n ==> ranked[j] > k,
            decreases p,
        {
            p -= 1;
            assert(ranked[p as int] == front[head[p as int]]);
        }
        proof {
            if p > 0 {
                assert(ranked[p - 1] == front[head[p - 1]]);
            }
            lemma_slot_found(ranked, k as int, p as int);
            assert(all.take(n + 1).drop_last() == front);
            assert(all.take(n + 1).last() == k);
        }
        order.insert(p, n);
        assert(positions(order@) =~= head.insert(p as int, n as int));
        n += 1;
    }
    assert(all.take(keys.len() as int) == all);
    order
}

/// The items at the given positions, in the order of the positions.
pub fn pick<T: Copy>(items: &Vec<T>, order: &Vec<usize>) -> (picked: Vec<T>)
    requires
        forall|i: int| 0 <= i < order.len() ==> order[i] < items.len(),
    ensures
        picked@ == arrange(items@, positions(order@)),
{
    let mut picked: Vec<T> = Vec::new();
    let mut i: usize = 0;
    while i < order.len()
        invariant
            i <= order.len(),
            forall|i: int| 0 <= i < order.len() ==> order[i] < items.len(),
            picked@ == arrange(items@, positions(order@).take(i as int)),
        decreases order.len() - i,
    {
        picked.push(items[order[i]]);
        assert(picked@ =~= arrange(items@, positions(order@).take(i + 1)));
        i += 1;
    }
    assert(positions(order@).take(order.len() as int) == positions(order@));
    picked
}

/// `items` in ascending order of `keys`; items with equal keys keep their
/// order.
pub fn sort_by_keys<T: Copy>(items: &Vec<T>, keys: &Vec<i128>) -> (sorted: Vec<T>)
    requires
        items.len() == keys.len(),
    ensures
        sorted@ == sorted_by_keys(items@, key_ints(keys@)),
        sorted.len() == items.len(),
{
    let order = rank(keys);
    pick(items, &order)
}

} // verus!
