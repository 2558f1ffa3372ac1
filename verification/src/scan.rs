//! Searching and selecting in sequences.

use vstd::prelude::*;

verus! {

/// The position of the first element that `want` accepts, or the length of
/// the sequence if it accepts none.
pub open spec fn first_index<T>(s: Seq<T>, want: spec_fn(T) -> bool) -> int
    decreases s.len(),
{
    if s.len() == 0 {
        0
    } else {
        let before = first_index(s.drop_last(), want);
        if before < s.len() - 1 {
            before
        } else if want(s.last()) {
            s.len() - 1
        } else {
            s.len() as int
        }
    }
}

/// The position of the last element that `want` accepts, or the length of
/// the sequence if it accepts none.
pub open spec fn last_index<T>(s: Seq<T>, want: spec_fn(T) -> bool) -> int
    decreases s.len(),
{
    if s.len() == 0 {
        0
    } else if want(s.last()) {
        s.len() - 1
    } else {
        let before = last_index(s.drop_last(), want);
        if before < s.len() - 1 {
            before
        } else {
            s.len() as int
        }
    }
}

/// The elements that `want` accepts, in their order.
pub open spec fn select<T>(s: Seq<T>, want: spec_fn(T) -> bool) -> Seq<T>
    decreases s.len(),
{
    if s.len() == 0 {
        Seq::empty()
    } else if want(s.last()) {
        select(s.drop_last(), want).push(s.last())
    } else {
        select(s.drop_last(), want)
    }
}

/// `first_index` is the position that is accepted while none before it is.
pub proof fn lemma_first_index<T>(s: Seq<T>, want: spec_fn(T) -> bool, i: int)
    requires
        0 <= i <= s.len(),
        forall|j: int| 0 <= j < i ==> !want(#[trigger] s[j]),
        i < s.len() ==> want(s[i]),
    ensures
        first_index(s, want) == i,
    decreases s.len(),
{
    if s.len() > 0 {
        let front = s.drop_last();
        if i < s.len() - 1 {
            assert(front[i] == s[i]);
            assert forall|j: int| 0 <= j < i implies !want(#[trigger] front[j]) by {
                assert(front[j] == s[j]);
            }
            lemma_first_index(front, want, i);
        } else {
            assert forall|j: int| 0 <= j < s.len() - 1 implies !want(#[trigger] front[j]) by {
                assert(front[j] == s[j]);
            }
            lemma_first_index(front, want, s.len() - 1);
        }
    }
}

/// What `first_index` returns is accepted, and nothing before it is.
pub proof fn lemma_first_index_is_first<T>(s: Seq<T>, want: spec_fn(T) -> bool)
    ensures
        0 <= first_index(s, want) <= s.len(),
        first_index(s, want) < s.len() ==> want(s[first_index(s, want)]),
        forall|j: int| 0 <= j < first_index(s, want) ==> !want(#[trigger] s[j]),
    decreases s.len(),
{
    if s.len() > 0 {
        let front = s.drop_last();
        lemma_first_index_is_first(front, want);
        assert forall|j: int| 0 <= j < first_index(s, want) implies !want(#[trigger] s[j]) by {
            if j < front.len() {
                assert(front[j] == s[j]);
            }
        }
    }
}

/// `last_index` is the position that is accepted while none behind it is.
pub proof fn lemma_last_index<T>(s: Seq<T>, want: spec_fn(T) -> bool, i: int)
    requires
        0 <= i <= s.len(),
        i < s.len() ==> want(s[i]),
        i < s.len() ==> forall|j: int| i < j < s.len() ==> !want(#[trigger] s[j]),
        i == s.len() ==> forall|j: int| 0 <= j < s.len() ==> !want(#[trigger] s[j]),
    ensures
        last_index(s, want) == i,
    decreases s.len(),
{
    if s.len() > 0 {
        let front = s.drop_last();
        if i == s.len() {
            assert forall|j: int| 0 <= j < front.len() implies !want(#[trigger] front[j]) by {
                assert(front[j] == s[j]);
            }
            lemma_last_index(front, want, front.len() as int);
        } else if i < s.len() - 1 {
            assert(front[i] == s[i]);
            assert forall|j: int| i < j < front.len() implies !want(#[trigger] front[j]) by {
                assert(front[j] == s[j]);
            }
            lemma_last_index(front, want, i);
        }
    }
}

/// Selecting from a sequence with one more element.
pub proof fn lemma_select_step<T>(s: Seq<T>, want: spec_fn(T) -> bool, i: int)
    requires
        0 <= i < s.len(),
    ensures
        select(s.take(i + 1), want) == if want(s[i]) {
            select(s.take(i), want).push(s[i])
        } else {
            select(s.take(i), want)
        },
{
    assert(s.take(i + 1).drop_last() == s.take(i));
}

/// Selecting from a sequence is selecting from its front part and from its
/// back part.
pub proof fn lemma_select_split<T>(s: Seq<T>, want: spec_fn(T) -> bool, p: int)
    requires
        0 <= p <= s.len(),
    ensures
        select(s, want) == select(s.take(p), want) + select(s.skip(p), want),
    decreases s.len() - p,
{
    if p == s.len() {
        assert(s.take(p) == s);
        assert(s.skip(p) =~= Seq::<T>::empty());
        assert(select(s, want) + Seq::<T>::empty() =~= select(s, want));
    } else {
        let front = s.drop_last();
        lemma_select_split(front, want, p);
        assert(front.take(p) == s.take(p));
        assert(s.skip(p).drop_last() == front.skip(p));
        assert(s.skip(p).last() == s.last());
        if want(s.last()) {
            assert(select(s, want) =~= select(s.take(p), want) + select(s.skip(p), want));
        }
    }
}

/// Selecting from a sequence into which an element was put: an element that
/// is not accepted changes nothing, and one that is accepted stands behind
/// what was selected from in front of it.
pub proof fn lemma_select_insert<T>(s: Seq<T>, want: spec_fn(T) -> bool, p: int, x: T)
    requires
        0 <= p <= s.len(),
    ensures
        select(s.take(p), want).len() <= select(s, want).len(),
        select(s.insert(p, x), want) == if want(x) {
            select(s, want).insert(select(s.take(p), want).len() as int, x)
        } else {
            select(s, want)
        },
{
    let put = s.insert(p, x);
    lemma_select_split(s, want, p);
    lemma_select_split(put, want, p + 1);
    assert(put.skip(p + 1) == s.skip(p));
    assert(put.take(p + 1) == s.take(p).push(x));
    assert(s.take(p).push(x).drop_last() == s.take(p));
    let head = select(s.take(p), want);
    let tail = select(s.skip(p), want);
    if want(x) {
        assert(head.push(x) + tail =~= (head + tail).insert(head.len() as int, x));
    }
}

/// Every selected element is accepted and comes from the sequence.
pub proof fn lemma_select_members<T>(s: Seq<T>, want: spec_fn(T) -> bool)
    ensures
        forall|k: int|
            0 <= k < select(s, want).len() ==> want(#[trigger] select(s, want)[k]) && s.contains(
                select(s, want)[k],
            ),
        select(s, want).len() <= s.len(),
    decreases s.len(),
{
    if s.len() > 0 {
        let front = s.drop_last();
        lemma_select_members(front, want);
        let out = select(s, want);
        assert forall|k: int| 0 <= k < out.len() implies want(#[trigger] out[k]) && s.contains(
            out[k],
        ) by {
            if k < select(front, want).len() {
                let e = select(front, want)[k];
                assert(front.contains(e));
                let j = choose|j: int| 0 <= j < front.len() && front[j] == e;
                assert(s[j] == e);
            } else {
                assert(out[k] == s.last());
                assert(s[s.len() - 1] == s.last());
            }
        }
    }
}

} // verus!
