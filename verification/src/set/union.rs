use vstd::prelude::*;
use super::{ItemSet, SetIter, SetManager};

verus! {

#[derive(PartialEq, Debug)]
pub enum Error<ES, ESM> {
    ItemSet(ES),
    SetManager(ESM),
}

/// Appends every element of `item_b` to `item_a`, in order: the result
/// models `item_a.items() + item_b.items()`. Fails only where a component
/// admits failure; with infallible components it always succeeds.
#[verifier::loop_isolation(false)]
pub fn union<S, SE, SM, SME>(set_manager: &mut SM, item_a: S, item_b: S) -> (r: Result<
    S,
    Error<SE, SME>,
>) where S: ItemSet<E = SE>, SM: SetManager<S = S, E = SME>
    ensures
        (match r {
            Ok(c) => c.items() == item_a.items() + item_b.items(),
            Err(Error::ItemSet(_)) => S::add_can_fail() || <S::I as SetIter>::next_can_fail(),
            Err(Error::SetManager(_)) => SM::reserve_can_fail(),
        }),
        !(S::add_can_fail() || <S::I as SetIter>::next_can_fail() || SM::reserve_can_fail())
            ==> r matches Ok(_),
{
    let ghost items_a = item_a.items();
    let ghost items_b = item_b.items();
    let mut item_a = item_a;
    match set_manager.reserve(&mut item_a, item_b.size()) {
        Ok(_) => {},
        Err(e) => {
            return Err(Error::SetManager(e));
        },
    }
    let mut iter_b = item_b.into_iter();
    loop
        invariant
            item_a.items() + iter_b.remaining() == items_a + items_b,
        decreases iter_b.remaining().len(),
    {
        match iter_b.next() {
            None => {
                proof {
                    assert(item_a.items() =~= item_a.items() + iter_b.remaining());
                }
                return Ok(item_a);
            },
            Some(Ok(value)) => {
                let ghost pre = item_a.items();
                match item_a.add(value) {
                    Ok(_) => {
                        proof {
                            assert(item_a.items() + iter_b.remaining() =~= items_a + items_b);
                        }
                    },
                    Err(e) => {
                        return Err(Error::ItemSet(e));
                    },
                }
            },
            Some(Err(e)) => {
                return Err(Error::ItemSet(e));
            },
        }
    }
}

/// Law: union with an empty collection, on either side, leaves the other
/// side's contents untouched: at the model level the union's result,
/// `a + b`, is `b` when `a` is empty and `a` when `b` is empty.
pub proof fn lemma_union_identity<T>(s: Seq<T>)
    ensures
        Seq::<T>::empty() + s == s,
        s + Seq::<T>::empty() == s,
{
    assert(Seq::<T>::empty() + s =~= s);
    assert(s + Seq::<T>::empty() =~= s);
}

} // verus!
