use vstd::prelude::*;
use super::{Population, PopulationEmpty};
use super::super::individual::Individual;

verus! {

#[derive(Clone, Copy, PartialEq, Eq, Debug)]
pub enum Error {
    IndexOutOfRange { index: usize, total: usize },
}

impl<T> Population for Vec<T> where T: Individual {
    type I = T;

    type E = Error;

    open spec fn individuals(&self) -> Seq<T> {
        self@
    }

    open spec fn add_can_fail() -> bool {
        false
    }

    open spec fn del_can_fail() -> bool {
        false
    }

    open spec fn merge_can_fail() -> bool {
        false
    }

    fn size(&self) -> (r: usize) {
        self.len()
    }

    fn get(&self, index: usize) -> (r: Result<&T, Error>)
        ensures
            (r matches Err(e) ==> e == (Error::IndexOutOfRange { index, total: self.len() })),
    {
        if index < self.len() {
            Ok(&self[index])
        } else {
            Err(Error::IndexOutOfRange { index, total: self.len() })
        }
    }

    fn add(&mut self, indiv: T) -> (r: Result<(), Error>) {
        self.push(indiv);
        Ok(())
    }

    fn del(&mut self, index: usize) -> (r: Result<T, Error>)
        ensures
            (r matches Ok(_) ==> final(self)@ == old(self)@.update(
                index as int,
                old(self)@.last(),
            ).drop_last()),
            (r matches Err(e) ==> e == (Error::IndexOutOfRange {
                index,
                total: old(self).len(),
            })),
    {
        if index < self.len() {
            let ghost pre = self@;
            let v = self.swap_remove(index);
            proof {
                broadcast use vstd::seq_lib::group_to_multiset_ensures;

                lemma_swap_remove_multiset(pre, index as int);
            }
            Ok(v)
        } else {
            Err(Error::IndexOutOfRange { index, total: self.len() })
        }
    }

    fn merge(self, other: Self) -> (r: Result<Self, Error>) {
        let mut joined = self;
        let mut tail = other;
        joined.append(&mut tail);
        Ok(joined)
    }
}

proof fn lemma_swap_remove_multiset<T>(pre: Seq<T>, i: int)
    requires
        0 <= i < pre.len(),
    ensures
        pre.update(i, pre.last()).drop_last().to_multiset() == pre.to_multiset().remove(pre[i]),
{
    broadcast use vstd::seq_lib::group_to_multiset_ensures;

    let n = pre.len() as int;
    let lastv = pre.last();
    if i == n - 1 {
        assert(pre.update(i, lastv) =~= pre);
        assert(pre.update(i, lastv).drop_last() =~= pre.remove(i));
        assert(pre.remove(i).to_multiset() =~= pre.to_multiset().remove(pre[i]));
    } else {
        let g = pre.update(i, lastv);
        assert(g.remove(i) =~= pre.remove(i));
        assert(g.remove(i).to_multiset() =~= g.to_multiset().remove(g[i]));
        assert(pre.remove(i).to_multiset() =~= pre.to_multiset().remove(pre[i]));
        assert(g.drop_last() =~= g.remove(n - 1));
        assert(g.remove(n - 1).to_multiset() =~= g.to_multiset().remove(g[n - 1]));
        assert(g[i] == lastv);
        assert(g[n - 1] == lastv);
    }
}

impl<T> PopulationEmpty for Vec<T> where T: Individual {
    type E = Error;

    open spec fn empty_can_fail() -> bool {
        false
    }

    fn make_empty() -> (r: Result<Self, Error>) {
        Ok(Vec::new())
    }
}

} // verus!
