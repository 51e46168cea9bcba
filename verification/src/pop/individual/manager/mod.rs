use vstd::prelude::*;
use super::Individual;

verus! {

/// Generation and evaluation of individuals where the order of creation,
/// not a work index, identifies them.
pub trait IndividualManager {
    type I: Individual;

    type FI;

    type E;

    /// Whether `generate` is ever allowed to fail for this implementation.
    spec fn generate_can_fail() -> bool;

    /// Whether `fitness` is ever allowed to fail for this implementation.
    spec fn fitness_can_fail() -> bool;

    /// What the host promises of every generated individual.
    spec fn generated(indiv: Self::I) -> bool;

    /// What the host promises of a fitness computed for an individual.
    spec fn fitness_of(indiv: Self::I, fit: Self::FI) -> bool;

    fn generate(&mut self) -> (r: Result<Self::I, Self::E>)
        ensures
            (match r {
                Ok(i) => Self::generated(i),
                Err(_) => Self::generate_can_fail(),
            }),
    ;

    fn fitness(&mut self, individual: &Self::I) -> (r: Result<Self::FI, Self::E>)
        ensures
            (match r {
                Ok(f) => Self::fitness_of(*individual, f),
                Err(_) => Self::fitness_can_fail(),
            }),
    ;
}

} // verus!
