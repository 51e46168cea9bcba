use vstd::prelude::*;

pub mod chromosome;
pub mod manager;

use chromosome::Chromosome;

verus! {

/// One candidate solution, carrying its chromosome.
pub trait Individual {
    type C: Chromosome;

    type E;

    fn get_chromosome(&self) -> &Self::C;
}

/// Generation and evaluation of individuals by work index. `generated`
/// and `fitness_of` are the host's own meaning of the two operations:
/// the engine only carries them through.
pub trait IndividualManager {
    type I;

    type FI;

    type E;

    /// Whether `generate` is ever allowed to fail for this implementation.
    spec fn generate_can_fail() -> bool;

    /// Whether `fitness` is ever allowed to fail for this implementation.
    spec fn fitness_can_fail() -> bool;

    /// What the host promises of an individual generated for an index.
    spec fn generated(index: usize, indiv: Self::I) -> bool;

    /// What the host promises of a fitness computed for an individual.
    spec fn fitness_of(indiv: Self::I, fit: Self::FI) -> bool;

    fn generate(&mut self, index: usize) -> (r: Result<Self::I, Self::E>)
        ensures
            (match r {
                Ok(i) => Self::generated(index, i),
                Err(_) => Self::generate_can_fail(),
            }),
    ;

    fn fitness(&mut self, indiv: &Self::I) -> (r: Result<Self::FI, Self::E>)
        ensures
            (match r {
                Ok(f) => Self::fitness_of(*indiv, f),
                Err(_) => Self::fitness_can_fail(),
            }),
    ;
}

} // verus!
