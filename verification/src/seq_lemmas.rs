use vstd::prelude::*;
use vstd::multiset::Multiset;
use vstd::seq_lib::lemma_multiset_commutative;

verus! {

/// Prepending one element inserts it into the sequence's multiset.
pub(crate) proof fn lemma_cons_to_multiset<T>(v: T, rest: Seq<T>)
    ensures
        (seq![v] + rest).to_multiset() == rest.to_multiset().insert(v),
{
    broadcast use vstd::seq_lib::group_to_multiset_ensures;

    lemma_multiset_commutative(seq![v], rest);
    assert(seq![v] =~= Seq::<T>::empty().push(v));
    assert(Seq::<T>::empty().to_multiset() =~= Multiset::<T>::empty());
    assert(Multiset::<T>::empty().insert(v).add(rest.to_multiset()) =~= rest.to_multiset().insert(
        v,
    ));
}

/// Appending one element inserts it into the sequence's multiset.
pub(crate) proof fn lemma_push_to_multiset<T>(s: Seq<T>, v: T)
    ensures
        s.push(v).to_multiset() == s.to_multiset().insert(v),
{
    broadcast use vstd::seq_lib::group_to_multiset_ensures;

}

} // verus!
