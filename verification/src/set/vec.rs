use vstd::prelude::*;
use core::marker::PhantomData;
use super::{ItemSet, SetEmpty, SetIter, SetManager};
use super::merge as set_merge;
use super::merge::{decides, lemma_merge_sorted, merge_seqs, sorted_under, strict_compat};
use super::sort::{decides_index, SortManager};

verus! {

#[derive(Clone, Copy, PartialEq, Eq, Debug)]
pub enum Error {
    IndexOutOfRange { index: usize, total: usize },
}

/// Consuming iterator over a `Vec` used as an [`ItemSet`]. It holds the
/// elements in reverse, so that each `next` is a pop from the back.
pub struct VecSetIter<T, E> {
    rev: Vec<T>,
    _marker: PhantomData<E>,
}

impl<T, E> VecSetIter<T, E> {
    pub closed spec fn elements(&self) -> Seq<T> {
        self.rev@.reverse()
    }
}

impl<T, E> SetIter for VecSetIter<T, E> {
    type T = T;

    type E = E;

    closed spec fn remaining(&self) -> Seq<T> {
        self.elements()
    }

    open spec fn next_can_fail() -> bool {
        false
    }

    fn next(&mut self) -> (r: Option<Result<T, E>>) {
        proof {
            assert(old(self).rev@.len() == old(self).remaining().len());
        }
        match self.rev.pop() {
            None => None,
            Some(value) => {
                proof {
                    assert(final(self).remaining() =~= old(self).remaining().drop_first());
                    assert(value == old(self).remaining()[0]);
                }
                Some(Ok(value))
            },
        }
    }
}

impl<T> ItemSet for Vec<T> {
    type T = T;

    type E = Error;

    type I = VecSetIter<T, Error>;

    open spec fn items(&self) -> Seq<T> {
        self@
    }

    open spec fn add_can_fail() -> bool {
        false
    }

    fn size(&self) -> (r: usize) {
        self.len()
    }

    fn get(&self, index: usize) -> (r: Result<&T, Error>)
        ensures
            (r matches Err(e) ==> e == (Error::IndexOutOfRange { index, total: self.len() })),
    {
        if index < self.len() {
            Ok(&self[index])
        } else {
            Err(Error::IndexOutOfRange { index, total: self.len() })
        }
    }

    fn add(&mut self, item: T) -> (r: Result<(), Error>) {
        self.push(item);
        Ok(())
    }

    fn into_iter(self) -> (r: VecSetIter<T, Error>) {
        let ghost orig = self@;
        let mut forward = self;
        let mut rev: Vec<T> = Vec::new();
        proof {
            assert(orig.take(orig.len() as int) =~= orig);
            assert(orig.skip(orig.len() as int).reverse() =~= Seq::<T>::empty());
        }
        loop
            invariant
                forward@.len() <= orig.len(),
                forward@ == orig.take(forward@.len() as int),
                rev@ == orig.skip(forward@.len() as int).reverse(),
            ensures
                forward@.len() == 0,
                rev@ == orig.skip(0).reverse(),
            decreases forward@.len(),
        {
            let ghost n = forward@.len() as int;
            match forward.pop() {
                None => {
                    break;
                },
                Some(value) => {
                    rev.push(value);
                    proof {
                        lemma_reverse_unwind(orig, n);
                    }
                },
            }
        }
        proof {
            assert(orig.skip(0) =~= orig);
            assert(rev@.reverse() =~= orig.reverse().reverse());
            lemma_reverse_twice(orig);
        }
        VecSetIter { rev, _marker: PhantomData }
    }
}

impl<T> SetEmpty for Vec<T> {
    type E = Error;

    open spec fn empty_can_fail() -> bool {
        false
    }

    fn make_empty() -> (r: Result<Self, Error>) {
        Ok(Vec::new())
    }
}

proof fn lemma_reverse_unwind<T>(orig: Seq<T>, n: int)
    requires
        1 <= n <= orig.len(),
    ensures
        orig.take(n).drop_last() =~= orig.take(n - 1),
        orig.take(n).len() > 0,
        orig.take(n).last() == orig[n - 1],
        orig.skip(n).reverse().push(orig[n - 1]) =~= orig.skip(n - 1).reverse(),
{
}

proof fn lemma_reverse_twice<T>(s: Seq<T>)
    ensures
        s.reverse().reverse() =~= s,
{
}

/// The stock manager for `Vec`-backed sets: allocation never fails and the
/// size hint only pre-allocates capacity.
pub struct Manager<T> {
    _marker: PhantomData<T>,
}

impl<T> Manager<T> {
    pub fn new() -> Manager<T> {
        Manager { _marker: PhantomData }
    }
}

impl<T> SetManager for Manager<T> {
    type S = Vec<T>;

    type E = ();

    open spec fn make_can_fail() -> bool {
        false
    }

    open spec fn reserve_can_fail() -> bool {
        false
    }

    fn make_set(&mut self, size_hint: Option<usize>) -> (r: Result<Vec<T>, ()>) {
        Ok(
            match size_hint {
                Some(hint) => Vec::with_capacity(hint),
                None => Vec::new(),
            },
        )
    }

    fn reserve(&mut self, set: &mut Vec<T>, additional: usize) -> (r: Result<(), ()>) {
        set.reserve(additional);
        Ok(())
    }
}

/// Recursive merge sort over a vector of indices, against the relations
/// that the predicate decides. It reuses the verified two-pointer merge.
fn merge_sort_indices<SF: Fn(usize, usize) -> bool>(v: Vec<usize>, pred: &SF) -> (r: Vec<usize>)
    requires
        forall|a: usize, b: usize| call_requires(*pred, (a, b)),
    ensures
        r@.to_multiset() == v@.to_multiset(),
        forall|pr: spec_fn(usize, usize) -> bool|
            #[trigger] decides_index(*pred, pr) && strict_compat(pr) ==> sorted_under(r@, pr),
    decreases v@.len(),
{
    if v.len() <= 1 {
        return v;
    }
    let mut left = v;
    let mid = left.len() / 2;
    let right = left.split_off(mid);
    let ghost left0 = left@;
    let ghost right0 = right@;
    let ls = merge_sort_indices(left, pred);
    let rs = merge_sort_indices(right, pred);
    let ghost ls0 = ls@;
    let ghost rs0 = rs@;
    let mut mgr: Manager<usize> = Manager::new();
    let cmp = |x: &usize, y: &usize| -> (rr: bool)
        requires
            call_requires(pred, (*x, *y)),
        ensures
            call_ensures(pred, (*x, *y), rr),
        { pred(*x, *y) };
    let merged = set_merge::merge(&mut mgr, ls, rs, cmp);
    match merged {
        Ok(m) => {
            proof {
                broadcast use vstd::seq_lib::group_to_multiset_ensures;
                broadcast use vstd::multiset::group_multiset_axioms;

                vstd::seq_lib::lemma_multiset_commutative(left0, right0);
                assert(left0 + right0 =~= v@);
                assert forall|pr: spec_fn(usize, usize) -> bool|
                    #[trigger] decides_index(*pred, pr) && strict_compat(pr) implies sorted_under(
                    m@,
                    pr,
                ) by {
                    assert(decides(cmp, pr)) by {
                        assert forall|x: &usize, y: &usize, rr: bool|
                            call_ensures(cmp, (x, y), rr) implies rr == pr(*x, *y) by {
                            assert(call_ensures(pred, (*x, *y), rr));
                        }
                    }
                    assert(m@ == merge_seqs(ls0, rs0, pr));
                    lemma_merge_sorted(ls0, rs0, pr);
                }
            }
            m
        },
        Err(_) => {
            proof {
                assert(false);
            }
            Vec::new()
        },
    }
}

impl SortManager for Manager<usize> {
    type S = Vec<usize>;

    type E = ();

    open spec fn sort_can_fail() -> bool {
        false
    }

    fn sort<SF: Fn(usize, usize) -> bool>(&mut self, set: &mut Vec<usize>, pred: &SF) -> (r: Result<
        (),
        (),
    >) {
        let mut taken: Vec<usize> = Vec::new();
        core::mem::swap(set, &mut taken);
        let sorted_vec = merge_sort_indices(taken, pred);
        *set = sorted_vec;
        Ok(())
    }
}

} // verus!
