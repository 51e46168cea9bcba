use vstd::prelude::*;
use crate::exec::{Executor, WorkAmount};
use crate::set::ItemSet;

pub mod limited;

verus! {

/// A population initializer driven by an executor. What an
/// implementation promises of its output and of its errors is its own:
/// the two spec functions carry the implementation's contract through
/// the trait.
pub trait PopulationInit {
    type Exec: Executor;

    type Indiv;

    type Pop: ItemSet<T = Self::Indiv>;

    type Err;

    /// What this initializer promises of a population it returns.
    spec fn init_ok(&self, pop: Self::Pop) -> bool;

    /// What this initializer promises of an error it returns, given how
    /// many workers the executor ran.
    spec fn init_err(&self, workers: nat, err: Self::Err) -> bool;

    fn init<WA: WorkAmount>(&self, exec: &mut Self::Exec) -> (r: Result<Self::Pop, Self::Err>)
        ensures
            final(exec).workers() == old(exec).workers(),
            (match r {
                Ok(pop) => self.init_ok(pop),
                Err(e) => self.init_err(old(exec).workers(), e),
            }),
    ;
}

} // verus!
