use vstd::prelude::*;
use crate::exec::{Executor, WorkAmount};
use crate::set::ItemSet;

pub mod standard;

verus! {

/// A fitness evaluator driven by an executor: from a shared read-only
/// population to a set of `(fitness, index)` pairs.
pub trait PopulationFit {
    type Exec: Executor;

    type Indiv;

    type Pop: ItemSet<T = Self::Indiv>;

    type Fit;

    type Fits: ItemSet<T = (Self::Fit, usize)>;

    type Err;

    /// What this evaluator promises of a result for the given population.
    spec fn fit_ok(&self, population: Self::Pop, fits: Self::Fits) -> bool;

    /// What this evaluator promises of an error for the given population,
    /// given how many workers the executor ran.
    spec fn fit_err(&self, population: Self::Pop, workers: nat, err: Self::Err) -> bool;

    fn fit<WA: WorkAmount>(&self, population: &Self::Pop, exec: &mut Self::Exec) -> (r: Result<
        Self::Fits,
        Self::Err,
    >)
        ensures
            final(exec).workers() == old(exec).workers(),
            (match r {
                Ok(f) => self.fit_ok(*population, f),
                Err(e) => self.fit_err(*population, old(exec).workers(), e),
            }),
    ;
}

} // verus!
