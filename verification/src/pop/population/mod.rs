use vstd::prelude::*;
use crate::exec::flat;
use super::individual::Individual;

pub mod manager;
pub mod vec;

verus! {

/// An ordered population of individuals. `del` removes one individual
/// without promising to keep the order of the rest; everything else
/// keeps insertion order.
pub trait Population: Sized {
    type I: Individual;

    type E;

    /// The individuals held, in insertion order.
    spec fn individuals(&self) -> Seq<Self::I>;

    /// Whether `add` is ever allowed to fail for this implementation.
    spec fn add_can_fail() -> bool;

    /// Whether `del` is ever allowed to fail in range.
    spec fn del_can_fail() -> bool;

    /// Whether `merge` is ever allowed to fail for this implementation.
    spec fn merge_can_fail() -> bool;

    fn size(&self) -> (r: usize)
        ensures
            r == self.individuals().len(),
    ;

    fn get(&self, index: usize) -> (r: Result<&Self::I, Self::E>)
        ensures
            (match r {
                Ok(v) => index < self.individuals().len() && *v == self.individuals()[index as int],
                Err(_) => index >= self.individuals().len(),
            }),
    ;

    fn add(&mut self, indiv: Self::I) -> (r: Result<(), Self::E>)
        ensures
            (match r {
                Ok(_) => final(self).individuals() == old(self).individuals().push(indiv),
                Err(_) => Self::add_can_fail() && final(self).individuals() == old(
                    self,
                ).individuals(),
            }),
    ;

    /// Removes the individual at `index`: exactly that one leaves the
    /// population.
    fn del(&mut self, index: usize) -> (r: Result<Self::I, Self::E>)
        ensures
            (match r {
                Ok(v) => {
                    &&& index < old(self).individuals().len()
                    &&& v == old(self).individuals()[index as int]
                    &&& final(self).individuals().to_multiset()
                        == old(self).individuals().to_multiset().remove(v)
                },
                Err(_) => {
                    &&& index >= old(self).individuals().len() || Self::del_can_fail()
                    &&& final(self).individuals() == old(self).individuals()
                },
            }),
    ;

    fn merge(self, other: Self) -> (r: Result<Self, Self::E>)
        ensures
            (match r {
                Ok(c) => c.individuals() == self.individuals() + other.individuals(),
                Err(_) => Self::merge_can_fail(),
            }),
    ;

    /// Folds a batch of populations into one by repeated `merge`; `None`
    /// exactly when the batch is empty.
    fn merge_many(populations: Vec<Self>) -> (r: Result<Option<Self>, Self::E>)
        ensures
            (match r {
                Ok(None) => populations@.len() == 0,
                Ok(Some(p)) => populations@.len() > 0 && p.individuals() == flat(
                    populations@.map_values(|q: Self| q.individuals()),
                ),
                Err(_) => Self::merge_can_fail() && populations@.len() > 1,
            }),
            populations@.len() == 0 ==> r matches Ok(None),
    {
        let ghost all = populations@;
        let ghost all_views = populations@.map_values(|q: Self| q.individuals());
        let mut rest = populations;
        if rest.len() == 0 {
            return Ok(None);
        }
        let mut current = rest.remove(0);
        proof {
            assert(all_views.take(1).drop_last() =~= Seq::<Seq<Self::I>>::empty());
            assert(flat(all_views.take(1).drop_last()) =~= Seq::<Self::I>::empty());
            assert(all_views.take(1).last() == all_views[0]);
            assert(flat(all_views.take(1)) == flat(all_views.take(1).drop_last())
                + all_views.take(1).last());
            assert(flat(all_views.take(1)) =~= all_views[0]);
            assert(all_views[0] == all[0].individuals());
            assert(rest@ =~= all.skip(1));
        }
        loop
            invariant
                all == populations@,
                all_views == all.map_values(|q: Self| q.individuals()),
                all_views.len() == all.len(),
                rest@ =~= all.skip(all.len() - rest@.len()),
                rest@.len() < all.len(),
                current.individuals() == flat(all_views.take(all.len() - rest@.len())),
            ensures
                rest@.len() == 0,
                current.individuals() == flat(all_views.take(all.len() as int)),
            decreases rest@.len(),
        {
            if rest.len() == 0 {
                break ;
            }
            let ghost used = all.len() - rest@.len();
            let nxt = rest.remove(0);
            proof {
                assert(rest@ =~= all.skip(used + 1));
                assert(nxt == all[used]);
            }
            match current.merge(nxt) {
                Ok(c) => {
                    proof {
                        lemma_flat_take_step(all_views, used);
                        assert(all_views[used] == all[used].individuals());
                    }
                    current = c;
                },
                Err(e) => {
                    return Err(e);
                },
            }
        }
        proof {
            assert(all_views.take(all_views.len() as int) =~= all_views);
        }
        Ok(Some(current))
    }
}

/// One more member extends a prefix flattening by exactly its elements.
proof fn lemma_flat_take_step<T>(views: Seq<Seq<T>>, k: int)
    requires
        0 <= k < views.len(),
    ensures
        flat(views.take(k + 1)) == flat(views.take(k)) + views[k],
{
    assert(views.take(k + 1).drop_last() =~= views.take(k));
    assert(views.take(k + 1).last() == views[k]);
}

/// A population that can be made from nothing.
pub trait PopulationEmpty: Sized {
    type E;

    /// Whether `make_empty` is ever allowed to fail.
    spec fn empty_can_fail() -> bool;

    fn make_empty() -> (r: Result<Self, Self::E>)
        ensures
            r matches Err(_) ==> Self::empty_can_fail(),
    ;
}

} // verus!
