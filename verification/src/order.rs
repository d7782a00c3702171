//! Deterministic name-keyed ordering.
//!
//! Listings and drive rows are both ordered by a textual key. The order is
//! fixed here as a stable insertion sort at the specification level; the
//! executable sorts elsewhere are proved to produce exactly this sequence.

use vstd::prelude::*;
use vstd::seq_lib::lemma_multiset_commutative;
use crate::text::{
    lemma_text_lt_asymmetric,
    lemma_text_lt_transitive,
    text_le,
    text_lt,
};

verus! {

broadcast use {vstd::seq_lib::group_to_multiset_ensures, vstd::multiset::group_multiset_axioms};

/// A value ordered by a textual key.
pub trait HasKey {
    spec fn key(&self) -> Seq<char>;
}

/// `e` placed after every element whose key does not come strictly after
/// `e`'s; equal keys keep the earlier element first.
pub open spec fn insert_by_key<T: HasKey>(e: T, s: Seq<T>) -> Seq<T>
    decreases s.len(),
{
    if s.len() == 0 {
        seq![e]
    } else if text_lt(e.key(), s[0].key()) {
        seq![e] + s
    } else {
        seq![s[0]] + insert_by_key(e, s.drop_first())
    }
}

/// Stable sort by key: elements are inserted in order of appearance.
pub open spec fn sort_by_key<T: HasKey>(s: Seq<T>) -> Seq<T>
    decreases s.len(),
{
    if s.len() == 0 {
        s
    } else {
        insert_by_key(s.last(), sort_by_key(s.drop_last()))
    }
}

/// Keys appear in ascending order.
pub open spec fn key_sorted<T: HasKey>(s: Seq<T>) -> bool {
    forall|i: int, j: int|
        0 <= i < j < s.len() ==> text_le(#[trigger] s[i].key(), #[trigger] s[j].key())
}

/// Where the insertion lands: the first position whose key comes strictly
/// after the new element's key.
pub proof fn lemma_insert_by_key_at<T: HasKey>(e: T, s: Seq<T>, i: int)
    requires
        0 <= i <= s.len(),
        forall|k: int| 0 <= k < i ==> !text_lt(e.key(), #[trigger] s[k].key()),
        i < s.len() ==> text_lt(e.key(), s[i].key()),
    ensures
        insert_by_key(e, s) == s.subrange(0, i) + seq![e] + s.subrange(i, s.len() as int),
    decreases s.len(),
{
    if s.len() == 0 {
        assert(insert_by_key(e, s) =~= s.subrange(0, 0) + seq![e] + s.subrange(0, 0));
    } else if i == 0 {
        assert(insert_by_key(e, s) =~= s.subrange(0, 0) + seq![e] + s.subrange(
            0,
            s.len() as int,
        ));
    } else {
        assert(!text_lt(e.key(), s[0].key()));
        assert forall|k: int| 0 <= k < i - 1 implies !text_lt(
            e.key(),
            #[trigger] s.drop_first()[k].key(),
        ) by {
            assert(s.drop_first()[k] == s[k + 1]);
        }
        lemma_insert_by_key_at(e, s.drop_first(), i - 1);
        assert(insert_by_key(e, s) =~= s.subrange(0, i) + seq![e] + s.subrange(
            i,
            s.len() as int,
        ));
    }
}

/// Insertion adds exactly the new element.
pub proof fn lemma_insert_by_key_multiset<T: HasKey>(e: T, s: Seq<T>)
    ensures
        insert_by_key(e, s).to_multiset() == s.to_multiset().insert(e),
        insert_by_key(e, s).len() == s.len() + 1,
    decreases s.len(),
{
    if s.len() == 0 {
        assert(seq![e] =~= Seq::<T>::empty().push(e));
        assert(insert_by_key(e, s).to_multiset() =~= s.to_multiset().insert(e));
    } else if text_lt(e.key(), s[0].key()) {
        lemma_multiset_commutative(seq![e], s);
        assert(seq![e] =~= Seq::<T>::empty().push(e));
        assert(insert_by_key(e, s).to_multiset() =~= s.to_multiset().insert(e));
    } else {
        lemma_insert_by_key_multiset(e, s.drop_first());
        lemma_multiset_commutative(seq![s[0]], insert_by_key(e, s.drop_first()));
        assert(s =~= seq![s[0]] + s.drop_first());
        lemma_multiset_commutative(seq![s[0]], s.drop_first());
        assert(seq![s[0]] =~= Seq::<T>::empty().push(s[0]));
        assert(insert_by_key(e, s).to_multiset() =~= s.to_multiset().insert(e));
    }
}

/// Sorting permutes: same length, same elements.
pub proof fn lemma_sort_by_key_permutes<T: HasKey>(s: Seq<T>)
    ensures
        sort_by_key(s).to_multiset() == s.to_multiset(),
        sort_by_key(s).len() == s.len(),
        forall|x: T| #[trigger] sort_by_key(s).contains(x) <==> s.contains(x),
    decreases s.len(),
{
    if s.len() > 0 {
        lemma_sort_by_key_permutes(s.drop_last());
        lemma_insert_by_key_multiset(s.last(), sort_by_key(s.drop_last()));
        assert(s =~= s.drop_last().push(s.last()));
        assert(sort_by_key(s).to_multiset() =~= s.to_multiset());
    }
    assert forall|x: T| #[trigger] sort_by_key(s).contains(x) <==> s.contains(x) by {
        assert(s.contains(x) <==> s.to_multiset().count(x) > 0);
        assert(sort_by_key(s).contains(x) <==> sort_by_key(s).to_multiset().count(x) > 0);
    }
}

/// A common lower bound on the keys survives insertion.
pub proof fn lemma_insert_by_key_lower<T: HasKey>(e: T, s: Seq<T>, lo: Seq<char>)
    requires
        text_le(lo, e.key()),
        forall|k: int| 0 <= k < s.len() ==> text_le(lo, #[trigger] s[k].key()),
    ensures
        forall|k: int|
            0 <= k < insert_by_key(e, s).len() ==> text_le(
                lo,
                #[trigger] insert_by_key(e, s)[k].key(),
            ),
    decreases s.len(),
{
    let r = insert_by_key(e, s);
    if s.len() == 0 {
        assert(r[0] == e);
    } else if text_lt(e.key(), s[0].key()) {
        assert forall|k: int| 0 <= k < r.len() implies text_le(lo, #[trigger] r[k].key()) by {
            if k == 0 {
                assert(r[0] == e);
            } else {
                assert(r[k] == s[k - 1]);
            }
        }
    } else {
        assert forall|k: int| 0 <= k < s.drop_first().len() implies text_le(
            lo,
            #[trigger] s.drop_first()[k].key(),
        ) by {
            assert(s.drop_first()[k] == s[k + 1]);
        }
        lemma_insert_by_key_lower(e, s.drop_first(), lo);
        assert forall|k: int| 0 <= k < r.len() implies text_le(lo, #[trigger] r[k].key()) by {
            if k == 0 {
                assert(r[0] == s[0]);
            } else {
                assert(r[k] == insert_by_key(e, s.drop_first())[k - 1]);
            }
        }
    }
}

/// Insertion into a sorted sequence keeps it sorted.
pub proof fn lemma_insert_by_key_sorted<T: HasKey>(e: T, s: Seq<T>)
    requires
        key_sorted(s),
    ensures
        key_sorted(insert_by_key(e, s)),
    decreases s.len(),
{
    let r = insert_by_key(e, s);
    if s.len() == 0 {
    } else if text_lt(e.key(), s[0].key()) {
        assert forall|i: int, j: int| 0 <= i < j < r.len() implies text_le(
            #[trigger] r[i].key(),
            #[trigger] r[j].key(),
        ) by {
            if i == 0 {
                assert(r[j] == s[j - 1]);
                if text_lt(s[j - 1].key(), e.key()) {
                    if j == 1 {
                        lemma_text_lt_asymmetric(e.key(), s[0].key());
                    } else {
                        lemma_text_lt_transitive(s[j - 1].key(), e.key(), s[0].key());
                        assert(text_le(s[0].key(), s[j - 1].key()));
                    }
                }
            } else {
                assert(r[i] == s[i - 1]);
                assert(r[j] == s[j - 1]);
                assert(text_le(s[i - 1].key(), s[j - 1].key()));
            }
        }
    } else {
        let rest = s.drop_first();
        assert forall|i: int, j: int| 0 <= i < j < rest.len() implies text_le(
            #[trigger] rest[i].key(),
            #[trigger] rest[j].key(),
        ) by {
            assert(rest[i] == s[i + 1]);
            assert(rest[j] == s[j + 1]);
            assert(text_le(s[i + 1].key(), s[j + 1].key()));
        }
        lemma_insert_by_key_sorted(e, rest);
        assert forall|k: int| 0 <= k < rest.len() implies text_le(
            s[0].key(),
            #[trigger] rest[k].key(),
        ) by {
            assert(rest[k] == s[k + 1]);
            assert(text_le(s[0].key(), s[k + 1].key()));
        }
        lemma_insert_by_key_lower(e, rest, s[0].key());
        let ins = insert_by_key(e, rest);
        assert forall|i: int, j: int| 0 <= i < j < r.len() implies text_le(
            #[trigger] r[i].key(),
            #[trigger] r[j].key(),
        ) by {
            if i == 0 {
                assert(r[j] == ins[j - 1]);
                assert(text_le(s[0].key(), ins[j - 1].key()));
            } else {
                assert(r[i] == ins[i - 1]);
                assert(r[j] == ins[j - 1]);
                assert(text_le(ins[i - 1].key(), ins[j - 1].key()));
            }
        }
    }
}

/// The sort's output is sorted.
pub proof fn lemma_sort_by_key_sorted<T: HasKey>(s: Seq<T>)
    ensures
        key_sorted(sort_by_key(s)),
    decreases s.len(),
{
    if s.len() > 0 {
        lemma_sort_by_key_sorted(s.drop_last());
        lemma_insert_by_key_sorted(s.last(), sort_by_key(s.drop_last()));
    }
}

} // verus!
