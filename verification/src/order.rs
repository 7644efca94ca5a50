//! Stable sorting, as a function of sequences.
use vstd::prelude::*;

verus! {

/// `s` with `x` put in behind the last item that may stand before it.
pub open spec fn insert_by<A>(s: Seq<A>, x: A, le: spec_fn(A, A) -> bool) -> Seq<A>
    decreases s.len(),
{
    if s.len() == 0 || le(s.last(), x) {
        s.push(x)
    } else {
        insert_by(s.drop_last(), x, le).push(s.last())
    }
}

/// `s` in the order `le`, items of the same rank in the order of `s`.
pub open spec fn sorted_by<A>(s: Seq<A>, le: spec_fn(A, A) -> bool) -> Seq<A>
    decreases s.len(),
{
    if s.len() == 0 {
        s
    } else {
        insert_by(sorted_by(s.drop_last(), le), s.last(), le)
    }
}

/// Any two items are comparable, and the order is transitive.
pub open spec fn is_ranking<A>(le: spec_fn(A, A) -> bool) -> bool {
    &&& forall|a: A, b: A| #[trigger] le(a, b) || le(b, a)
    &&& forall|a: A, b: A, c: A| #[trigger] le(a, b) && #[trigger] le(b, c) ==> le(a, c)
}

pub open spec fn is_sorted<A>(s: Seq<A>, le: spec_fn(A, A) -> bool) -> bool {
    forall|i: int, j: int| 0 <= i <= j < s.len() ==> le(#[trigger] s[i], #[trigger] s[j])
}

/// Where `x` goes: the items from `n` on rank behind it, the one before does
/// not.
pub proof fn lemma_insert_by_at<A>(s: Seq<A>, x: A, le: spec_fn(A, A) -> bool, n: int)
    requires
        0 <= n <= s.len(),
        forall|i: int| n <= i < s.len() ==> !le(#[trigger] s[i], x),
        n > 0 ==> le(s[n - 1], x),
    ensures
        insert_by(s, x, le) == s.insert(n, x),
    decreases s.len(),
{
    if n == s.len() {
        assert(s.insert(n, x) == s.push(x));
    } else {
        lemma_insert_by_at(s.drop_last(), x, le, n);
        assert(s.insert(n, x) == s.drop_last().insert(n, x).push(s.last()));
    }
}

proof fn lemma_insert_by_len<A>(s: Seq<A>, x: A, le: spec_fn(A, A) -> bool)
    ensures
        insert_by(s, x, le).len() == s.len() + 1,
        insert_by(s, x, le).to_multiset() == s.to_multiset().insert(x),
        forall|y: A| #[trigger] insert_by(s, x, le).contains(y) ==> y == x || s.contains(y),
    decreases s.len(),
{
    broadcast use vstd::seq_lib::group_to_multiset_ensures;

    if s.len() == 0 || le(s.last(), x) {
        assert forall|y: A| #[trigger] insert_by(s, x, le).contains(y) implies y == x || s.contains(
            y,
        ) by {
            let k = choose|k: int| 0 <= k < s.push(x).len() && s.push(x)[k] == y;
            if k < s.len() {
                assert(s[k] == y);
            }
        }
    } else {
        let front = s.drop_last();
        lemma_insert_by_len(front, x, le);
        let inserted = insert_by(front, x, le);
        assert(s == front.push(s.last()));
        assert(inserted.push(s.last()).to_multiset() =~= s.to_multiset().insert(x));
        assert forall|y: A| #[trigger] insert_by(s, x, le).contains(y) implies y == x || s.contains(
            y,
        ) by {
            let whole = inserted.push(s.last());
            let k = choose|k: int| 0 <= k < whole.len() && whole[k] == y;
            if k < inserted.len() {
                assert(inserted.contains(y)) by {
                    assert(inserted[k] == y);
                }
                if front.contains(y) {
                    let m = choose|m: int| 0 <= m < front.len() && front[m] == y;
                    assert(s[m] == y);
                }
            } else {
                assert(s[s.len() - 1] == y);
            }
        }
    }
}

proof fn lemma_insert_by_sorted<A>(s: Seq<A>, x: A, le: spec_fn(A, A) -> bool)
    requires
        is_ranking(le),
        is_sorted(s, le),
    ensures
        is_sorted(insert_by(s, x, le), le),
    decreases s.len(),
{
    if s.len() == 0 || le(s.last(), x) {
        let r = s.push(x);
        assert forall|i: int, j: int| 0 <= i <= j < r.len() implies le(
            #[trigger] r[i],
            #[trigger] r[j],
        ) by {
            if j == s.len() {
                if i < s.len() {
                    assert(le(s[i], s.last()));
                    assert(le(s[i], x));
                } else {
                    assert(le(x, x));
                }
            }
        }
    } else {
        let front = s.drop_last();
        lemma_insert_by_sorted(front, x, le);
        lemma_insert_by_len(front, x, le);
        let inserted = insert_by(front, x, le);
        let r = inserted.push(s.last());
        assert(le(x, s.last()));
        assert forall|i: int, j: int| 0 <= i <= j < r.len() implies le(
            #[trigger] r[i],
            #[trigger] r[j],
        ) by {
            if j == inserted.len() {
                if i < inserted.len() {
                    assert(inserted.contains(inserted[i]));
                    if inserted[i] != x {
                        let m = choose|m: int| 0 <= m < front.len() && front[m] == inserted[i];
                        assert(le(s[m], s[s.len() - 1]));
                    }
                } else {
                    assert(le(s[s.len() - 1], s[s.len() - 1]));
                }
            }
        }
    }
}

/// The sorted sequence is in order and holds the same items.
pub proof fn lemma_sorted_by<A>(s: Seq<A>, le: spec_fn(A, A) -> bool)
    requires
        is_ranking(le),
    ensures
        is_sorted(sorted_by(s, le), le),
        sorted_by(s, le).len() == s.len(),
        sorted_by(s, le).to_multiset() == s.to_multiset(),
    decreases s.len(),
{
    broadcast use vstd::seq_lib::group_to_multiset_ensures;

    if s.len() > 0 {
        lemma_sorted_by(s.drop_last(), le);
        lemma_insert_by_sorted(sorted_by(s.drop_last(), le), s.last(), le);
        lemma_insert_by_len(sorted_by(s.drop_last(), le), s.last(), le);
        assert(s == s.drop_last().push(s.last()));
    }
}

/// `a` and `b` have the same rank.
pub open spec fn same_rank<A>(le: spec_fn(A, A) -> bool, a: A, b: A) -> bool {
    le(a, b) && le(b, a)
}

proof fn lemma_insert_by_stable<A>(s: Seq<A>, x: A, le: spec_fn(A, A) -> bool, a: A)
    requires
        is_ranking(le),
    ensures
        insert_by(s, x, le).filter(|b: A| same_rank(le, a, b)) == s.push(x).filter(
            |b: A| same_rank(le, a, b),
        ),
    decreases s.len(),
{
    let p = |b: A| same_rank(le, a, b);
    if s.len() > 0 && !le(s.last(), x) {
        let front = s.drop_last();
        let y = s.last();
        lemma_insert_by_stable(front, x, le, a);
        assert(s == front.push(y));
        insert_by(front, x, le).lemma_filter_push(y, p);
        s.lemma_filter_push(x, p);
        front.lemma_filter_push(x, p);
        front.lemma_filter_push(y, p);
        if p(x) && p(y) {
            assert(le(y, a) && le(a, x));
            assert(le(y, x));
        }
    }
}

/// Items of the same rank keep their order.
pub proof fn lemma_sorted_by_stable<A>(s: Seq<A>, le: spec_fn(A, A) -> bool, a: A)
    requires
        is_ranking(le),
    ensures
        sorted_by(s, le).filter(|b: A| same_rank(le, a, b)) == s.filter(
            |b: A| same_rank(le, a, b),
        ),
    decreases s.len(),
{
    let p = |b: A| same_rank(le, a, b);
    if s.len() > 0 {
        let front = s.drop_last();
        lemma_sorted_by_stable(front, le, a);
        lemma_insert_by_stable(sorted_by(front, le), s.last(), le, a);
        sorted_by(front, le).lemma_filter_push(s.last(), p);
        front.lemma_filter_push(s.last(), p);
        assert(s == front.push(s.last()));
    }
}

} // verus!
