use vstd::prelude::*;

pub mod merge;
pub mod sort;
pub mod union;
pub mod vec;

verus! {

/// An append-only, indexable, consumable collection of items.
///
/// The model of a value is the sequence `items()` of its elements in
/// insertion order. `size` reports its length, `get` reads one element,
/// `add` appends one, and `into_iter` consumes the collection and hands
/// its elements out in the same order.
pub trait ItemSet: Sized {
    type T;

    type E;

    type I: SetIter<T = Self::T, E = Self::E>;

    /// The elements held, in insertion order.
    spec fn items(&self) -> Seq<Self::T>;

    /// Whether `add` is ever allowed to fail for this implementation.
    spec fn add_can_fail() -> bool;

    fn size(&self) -> (r: usize)
        ensures
            r == self.items().len(),
    ;

    /// Reads the element at `index`; fails exactly when `index` is out of
    /// range.
    fn get(&self, index: usize) -> (r: Result<&Self::T, Self::E>)
        ensures
            (match r {
                Ok(v) => index < self.items().len() && *v == self.items()[index as int],
                Err(_) => index >= self.items().len(),
            }),
    ;

    /// Appends `item`. On success the model grows by exactly that element.
    fn add(&mut self, item: Self::T) -> (r: Result<(), Self::E>)
        ensures
            (match r {
                Ok(_) => final(self).items() == old(self).items().push(item),
                Err(_) => Self::add_can_fail() && final(self).items() == old(self).items(),
            }),
    ;

    /// Consumes the collection; the iterator will yield exactly `items()`,
    /// in order.
    fn into_iter(self) -> (r: Self::I)
        ensures
            r.remaining() == self.items(),
    ;
}

/// The consuming iterator of an [`ItemSet`]: `next` yields the elements of
/// `remaining()` from the front, or reports a failure of the underlying
/// source where the implementation admits one.
pub trait SetIter: Sized {
    type T;

    type E;

    /// The elements not yet yielded, in order.
    spec fn remaining(&self) -> Seq<Self::T>;

    /// Whether `next` is ever allowed to fail for this implementation.
    spec fn next_can_fail() -> bool;

    fn next(&mut self) -> (r: Option<Result<Self::T, Self::E>>)
        ensures
            (match r {
                None => old(self).remaining().len() == 0 && final(self).remaining().len() == 0,
                Some(Ok(v)) => old(self).remaining().len() > 0 && v == old(self).remaining()[0]
                    && final(self).remaining() == old(self).remaining().drop_first(),
                Some(Err(_)) => Self::next_can_fail(),
            }),
    ;
}

/// A collection that can be made from nothing, without a manager.
pub trait SetEmpty: ItemSet {
    type E;

    /// Whether `make_empty` is ever allowed to fail for this implementation.
    spec fn empty_can_fail() -> bool;

    fn make_empty() -> (r: Result<Self, <Self as SetEmpty>::E>)
        ensures
            (match r {
                Ok(s) => s.items().len() == 0,
                Err(_) => Self::empty_can_fail(),
            }),
    ;
}

/// Allocator and reserver for a concrete [`ItemSet`]. The size hint handed
/// to `make_set` and the capacity asked of `reserve` are advisory: neither
/// shows up in the model.
pub trait SetManager {
    type S: ItemSet;

    type E;

    /// Whether `make_set` is ever allowed to fail for this implementation.
    spec fn make_can_fail() -> bool;

    /// Whether `reserve` is ever allowed to fail for this implementation.
    spec fn reserve_can_fail() -> bool;

    fn make_set(&mut self, size_hint: Option<usize>) -> (r: Result<Self::S, Self::E>)
        ensures
            (match r {
                Ok(s) => s.items().len() == 0,
                Err(_) => Self::make_can_fail(),
            }),
    ;

    fn reserve(&mut self, set: &mut Self::S, additional: usize) -> (r: Result<(), Self::E>)
        ensures
            final(set).items() == old(set).items(),
            (r matches Err(_) ==> Self::reserve_can_fail()),
    {
        Ok(())
    }
}

/// A value that can hand out its set manager for mutation.
pub trait SetManagerMut {
    type SM: SetManager;

    fn set_manager_mut(&mut self) -> &mut Self::SM;
}

} // verus!
