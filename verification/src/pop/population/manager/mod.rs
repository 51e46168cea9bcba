use vstd::prelude::*;
use crate::set::ItemSet;
use crate::IndexSource;
use super::super::individual::Individual;
use super::super::individual::manager::IndividualManager;

pub mod simple;

verus! {

/// Owner of the per-worker ingredients of population work: it makes one
/// individual manager per worker and shares the job definitions.
pub trait PopulationManager {
    type PJ: PopulationJobs;

    type IM: IndividualManager;

    type E;

    /// Whether `make_individual_manager` is ever allowed to fail.
    spec fn make_im_can_fail() -> bool;

    fn make_individual_manager(&self) -> (r: Result<Self::IM, Self::E>)
        ensures
            r matches Err(_) ==> Self::make_im_can_fail(),
    ;

    fn jobs(&self) -> &Self::PJ;
}

/// The population-level jobs one worker runs: filling a population from a
/// stream of work indices, and evaluating a batch of individuals.
pub trait PopulationJobs {
    type I: Individual;

    type P: ItemSet<T = Self::I>;

    type FI;

    type IM: IndividualManager<I = Self::I, FI = Self::FI>;

    type FS: ItemSet<T = (usize, Self::FI)>;

    type E;

    /// Whether `init` may fail for a reason of its own, besides its
    /// components failing.
    spec fn init_can_fail() -> bool;

    /// Whether `fitness` may fail for a reason of its own.
    spec fn fitness_jobs_can_fail() -> bool;

    fn init<IT: IndexSource>(&self, individual_manager: &mut Self::IM, indices: &mut IT) -> (r: Result<
        Self::P,
        Self::E,
    >)
        ensures
            (match r {
                Ok(pop) => forall|j: int|
                    0 <= j < pop.items().len() ==> Self::IM::generated(#[trigger] pop.items()[j]),
                Err(_) => Self::init_can_fail() || Self::IM::generate_can_fail()
                    || <Self::P as ItemSet>::add_can_fail(),
            }),
    ;

    fn fitness(&self, individual_manager: &mut Self::IM, individuals: &Vec<(usize, &Self::I)>) -> (r:
        Result<Self::FS, Self::E>)
        ensures
            (match r {
                Ok(fs) => {
                    &&& fs.items().len() == individuals@.len()
                    &&& forall|j: int|
                        0 <= j < individuals@.len() ==> (#[trigger] fs.items()[j]).0
                            == individuals@[j].0 && Self::IM::fitness_of(
                            *individuals@[j].1,
                            fs.items()[j].1,
                        )
                },
                Err(_) => Self::fitness_jobs_can_fail() || Self::IM::fitness_can_fail()
                    || <Self::FS as ItemSet>::add_can_fail(),
            }),
    ;
}

} // verus!
