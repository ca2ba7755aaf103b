//! Facts about sequences that the scanners and the report rest on: how a
//! filtered, mapped or folded sequence grows with one more element,
//! filters that agree, filters that split a sequence, and sequences put
//! together piece by piece in any order.

use vstd::prelude::*;
use vstd::seq_lib::lemma_multiset_commutative;
use vstd::seq_lib::to_multiset_build;
use vstd::seq_lib::to_multiset_contains;
use vstd::seq_lib::to_multiset_len;
use vstd::seq_lib::to_multiset_remove;

verus! {

/// The test that holds where one of two tests holds.
pub open spec fn either<A>(p: spec_fn(A) -> bool, q: spec_fn(A) -> bool) -> spec_fn(A) -> bool {
    |x: A| p(x) || q(x)
}

/// Two tests that agree on every element of a sequence keep the same
/// elements of it.
pub proof fn lemma_filter_same<A>(s: Seq<A>, p: spec_fn(A) -> bool, q: spec_fn(A) -> bool)
    requires
        forall|i: int| 0 <= i < s.len() ==> p(#[trigger] s[i]) == q(s[i]),
    ensures
        s.filter(p) == s.filter(q),
    decreases s.len(),
{
    reveal(Seq::filter);
    if s.len() > 0 {
        let front = s.drop_last();
        assert forall|i: int| 0 <= i < front.len() implies p(#[trigger] front[i]) == q(
            front[i],
        ) by {
            assert(front[i] == s[i]);
        }
        lemma_filter_same(front, p, q);
        assert(p(s[s.len() - 1]) == q(s[s.len() - 1]));
    }
}

/// A test that holds of every element of a sequence keeps all of it.
pub proof fn lemma_filter_all<A>(s: Seq<A>, p: spec_fn(A) -> bool)
    requires
        forall|i: int| 0 <= i < s.len() ==> p(#[trigger] s[i]),
    ensures
        s.filter(p) == s,
    decreases s.len(),
{
    reveal(Seq::filter);
    if s.len() > 0 {
        let front = s.drop_last();
        assert forall|i: int| 0 <= i < front.len() implies p(#[trigger] front[i]) by {
            assert(front[i] == s[i]);
        }
        lemma_filter_all(front, p);
        assert(p(s[s.len() - 1]));
        assert(front.push(s.last()) =~= s);
    }
}

/// Two tests that never hold of the same element split what either of them
/// keeps: each element kept by one or the other is kept by exactly one.
pub proof fn lemma_filter_split<A>(s: Seq<A>, p: spec_fn(A) -> bool, q: spec_fn(A) -> bool)
    requires
        forall|i: int| 0 <= i < s.len() ==> !(p(#[trigger] s[i]) && q(s[i])),
    ensures
        s.filter(either(p, q)).to_multiset() == s.filter(p).to_multiset().add(
            s.filter(q).to_multiset(),
        ),
    decreases s.len(),
{
    broadcast use vstd::multiset::group_multiset_axioms;

    reveal(Seq::filter);
    if s.len() == 0 {
        to_multiset_len(s.filter(either(p, q)));
        to_multiset_len(s.filter(p));
        to_multiset_len(s.filter(q));
        assert(s.filter(either(p, q)).to_multiset() =~= s.filter(p).to_multiset().add(
            s.filter(q).to_multiset(),
        ));
    } else {
        let front = s.drop_last();
        let x = s.last();
        assert forall|i: int| 0 <= i < front.len() implies !(p(#[trigger] front[i]) && q(
            front[i],
        )) by {
            assert(front[i] == s[i]);
        }
        lemma_filter_split(front, p, q);
        assert(!(p(s[s.len() - 1]) && q(s[s.len() - 1])));
        assert(either(p, q)(x) == (p(x) || q(x)));
        if p(x) {
            to_multiset_build(front.filter(either(p, q)), x);
            to_multiset_build(front.filter(p), x);
        } else if q(x) {
            to_multiset_build(front.filter(either(p, q)), x);
            to_multiset_build(front.filter(q), x);
        }
        assert(s.filter(either(p, q)).to_multiset() =~= s.filter(p).to_multiset().add(
            s.filter(q).to_multiset(),
        ));
    }
}

/// Of no optional values none is there.
pub proof fn lemma_present_none<A>(list: Seq<Option<A>>)
    ensures
        those_present(list.take(0)) == Seq::<A>::empty(),
{
    assert(list.take(0).filter_map(as_it_is()) =~= Seq::<A>::empty());
}

/// An optional value as it is.
pub open spec fn as_it_is<A>() -> spec_fn(Option<A>) -> Option<A> {
    |o: Option<A>| o
}

/// The values that are there in a list of optional values, in order.
pub open spec fn those_present<A>(list: Seq<Option<A>>) -> Seq<A> {
    list.filter_map(as_it_is())
}

/// The values that are there among the first `k + 1` are those among the
/// first `k`, and the one at `k` if it is there.
pub proof fn lemma_present_step<A>(list: Seq<Option<A>>, k: int)
    requires
        0 <= k < list.len(),
    ensures
        those_present(list.take(k + 1)) == match list[k] {
            Some(x) => those_present(list.take(k)).push(x),
            None => those_present(list.take(k)),
        },
{
    list.lemma_filter_map_take_succ(as_it_is(), k);
    assert(as_it_is::<A>()(list[k]) == list[k]);
    match list[k] {
        Some(x) => {
            assert(those_present(list.take(k)) + seq![x] =~= those_present(list.take(k)).push(x));
        },
        None => {
            assert(those_present(list.take(k)) + Seq::<A>::empty() =~= those_present(
                list.take(k),
            ));
        },
    }
}

/// What a partial function yields of the first `k + 1` elements is what it
/// yields of the first `k`, and what it yields of the one at `k` if it
/// yields anything.
pub proof fn lemma_filter_map_step<A, B>(s: Seq<A>, f: spec_fn(A) -> Option<B>, k: int)
    requires
        0 <= k < s.len(),
    ensures
        s.take(k + 1).filter_map(f) == match f(s[k]) {
            Some(x) => s.take(k).filter_map(f).push(x),
            None => s.take(k).filter_map(f),
        },
{
    s.lemma_filter_map_take_succ(f, k);
    match f(s[k]) {
        Some(x) => {
            assert(s.take(k).filter_map(f) + seq![x] =~= s.take(k).filter_map(f).push(x));
        },
        None => {
            assert(s.take(k).filter_map(f) + Seq::<B>::empty() =~= s.take(k).filter_map(f));
        },
    }
}

/// What a test keeps of the first `k + 1` elements is what it keeps of the
/// first `k`, and the one at `k` if the test holds of it.
pub proof fn lemma_filter_step<A>(s: Seq<A>, p: spec_fn(A) -> bool, k: int)
    requires
        0 <= k < s.len(),
    ensures
        s.take(k + 1).filter(p) == if p(s[k]) {
            s.take(k).filter(p).push(s[k])
        } else {
            s.take(k).filter(p)
        },
{
    assert(s.take(k + 1) =~= s.take(k).push(s[k]));
    s.take(k).lemma_filter_push(s[k], p);
}

/// The pieces of the first `k + 1` elements are those of the first `k`
/// followed by the piece of the one at `k`.
pub proof fn lemma_flat_map_step<A, B>(s: Seq<A>, f: spec_fn(A) -> Seq<B>, k: int)
    requires
        0 <= k < s.len(),
    ensures
        s.take(k + 1).flat_map(f) == s.take(k).flat_map(f) + f(s[k]),
{
    s.lemma_flat_map_take_append(f, k);
}

/// Folding the first `k + 1` elements is folding the first `k` and taking
/// in the one at `k`.
pub proof fn lemma_fold_step<A, B>(s: Seq<A>, start: B, f: spec_fn(B, A) -> B, k: int)
    requires
        0 <= k < s.len(),
    ensures
        s.take(k + 1).fold_left(start, f) == f(s.take(k).fold_left(start, f), s[k]),
{
    assert(s.take(k + 1).drop_last() =~= s.take(k));
    assert(s.take(k + 1).last() == s[k]);
}

spec fn pieces<A, B>(s: Seq<A>, piece: spec_fn(A) -> Seq<B>) -> Seq<B>
    decreases s.len(),
{
    if s.len() == 0 {
        Seq::empty()
    } else {
        pieces(s.drop_last(), piece) + piece(s.last())
    }
}

proof fn lemma_pieces_flat_map<A, B>(s: Seq<A>, piece: spec_fn(A) -> Seq<B>)
    ensures
        pieces(s, piece) == s.flat_map(piece),
    decreases s.len(),
{
    if s.len() == 0 {
        assert(s.map_values(piece) =~= Seq::<Seq<B>>::empty());
    } else {
        lemma_pieces_flat_map(s.drop_last(), piece);
        s.drop_last().lemma_flat_map_push(piece, s.last());
        assert(s.drop_last().push(s.last()) =~= s);
    }
}

proof fn lemma_pieces_without<A, B>(s: Seq<A>, piece: spec_fn(A) -> Seq<B>, j: int)
    requires
        0 <= j < s.len(),
    ensures
        pieces(s, piece).to_multiset() == pieces(s.remove(j), piece).to_multiset().add(
            piece(s[j]).to_multiset(),
        ),
    decreases s.len(),
{
    broadcast use vstd::multiset::group_multiset_axioms;

    let front = s.drop_last();
    let last = s.last();
    lemma_multiset_commutative(pieces(front, piece), piece(last));
    if j == s.len() - 1 {
        assert(s.remove(j) =~= front);
    } else {
        let shorter = s.remove(j);
        assert(shorter.drop_last() =~= front.remove(j));
        assert(shorter.last() == last);
        assert(front[j] == s[j]);
        lemma_pieces_without(front, piece, j);
        lemma_multiset_commutative(pieces(front.remove(j), piece), piece(last));
        assert(pieces(s, piece).to_multiset() =~= pieces(shorter, piece).to_multiset().add(
            piece(s[j]).to_multiset(),
        ));
    }
}

proof fn lemma_pieces_of_permutation<A, B>(a: Seq<A>, b: Seq<A>, piece: spec_fn(A) -> Seq<B>)
    requires
        a.to_multiset() == b.to_multiset(),
    ensures
        pieces(a, piece).to_multiset() == pieces(b, piece).to_multiset(),
    decreases a.len(),
{
    broadcast use vstd::multiset::group_multiset_axioms;

    to_multiset_len(a);
    to_multiset_len(b);
    if a.len() == 0 {
        assert(b.len() == 0);
    } else {
        let front = a.drop_last();
        let last = a.last();
        assert(a =~= front.push(last));
        to_multiset_build(front, last);
        assert(a.to_multiset().count(last) > 0);
        to_multiset_contains(b, last);
        let j = choose|j: int| 0 <= j < b.len() && b[j] == last;
        to_multiset_remove(b, j);
        assert(front.to_multiset() =~= b.remove(j).to_multiset());
        lemma_pieces_of_permutation(front, b.remove(j), piece);
        lemma_pieces_without(b, piece, j);
        lemma_multiset_commutative(pieces(front, piece), piece(last));
    }
}

/// The order of the elements does not matter to what their pieces hold:
/// two sequences with the same elements give pieces with the same
/// elements, each as often in the one as in the other.
pub proof fn lemma_flat_map_of_permutation<A, B>(a: Seq<A>, b: Seq<A>, piece: spec_fn(A) -> Seq<B>)
    requires
        a.to_multiset() == b.to_multiset(),
    ensures
        a.flat_map(piece).to_multiset() == b.flat_map(piece).to_multiset(),
{
    lemma_pieces_flat_map(a, piece);
    lemma_pieces_flat_map(b, piece);
    lemma_pieces_of_permutation(a, b, piece);
}

proof fn lemma_present_single_upto<A>(list: Seq<Option<A>>, at: int, x: A, k: int)
    requires
        0 <= at < list.len(),
        0 <= k <= list.len(),
        list[at] == Some(x),
        forall|j: int| 0 <= j < list.len() && j != at ==> (#[trigger] list[j]) is None,
    ensures
        those_present(list.take(k)) == if k > at {
            seq![x]
        } else {
            Seq::<A>::empty()
        },
    decreases k,
{
    if k == 0 {
        lemma_present_none(list);
    } else {
        lemma_present_single_upto(list, at, x, k - 1);
        lemma_present_step(list, k - 1);
        if k - 1 == at {
            assert(Seq::<A>::empty().push(x) =~= seq![x]);
        } else {
            assert(list[k - 1] is None);
        }
    }
}

/// Of a list in which exactly one value is there, that value alone is
/// there.
pub proof fn lemma_present_single<A>(list: Seq<Option<A>>, at: int, x: A)
    requires
        0 <= at < list.len(),
        list[at] == Some(x),
        forall|j: int| 0 <= j < list.len() && j != at ==> (#[trigger] list[j]) is None,
    ensures
        those_present(list) == seq![x],
{
    lemma_present_single_upto(list, at, x, list.len() as int);
    assert(list.take(list.len() as int) =~= list);
}

proof fn lemma_present_from_upto<A>(list: Seq<Option<A>>, k: int, i: int)
    requires
        0 <= k <= list.len(),
        0 <= i < those_present(list.take(k)).len(),
    ensures
        exists|j: int| 0 <= j < k && #[trigger] list[j] == Some(those_present(list.take(k))[i]),
    decreases k,
{
    if k == 0 {
        lemma_present_none(list);
    } else {
        lemma_present_step(list, k - 1);
        let before = those_present(list.take(k - 1));
        if i < before.len() {
            lemma_present_from_upto(list, k - 1, i);
            let j = choose|j: int| 0 <= j < k - 1 && #[trigger] list[j] == Some(before[i]);
            assert(0 <= j < k && list[j] == Some(those_present(list.take(k))[i]));
        } else {
            assert(list[k - 1] == Some(those_present(list.take(k))[i]));
        }
    }
}

/// Every value that is there stands in the list.
pub proof fn lemma_present_from<A>(list: Seq<Option<A>>, i: int)
    requires
        0 <= i < those_present(list).len(),
    ensures
        exists|j: int| 0 <= j < list.len() && #[trigger] list[j] == Some(those_present(list)[i]),
{
    assert(list.take(list.len() as int) =~= list);
    lemma_present_from_upto(list, list.len() as int, i);
}

} // verus!
