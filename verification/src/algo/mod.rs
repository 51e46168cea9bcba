use vstd::prelude::*;
use crate::exec::Executor;

pub mod mu_comma_lambda;

verus! {

/// A whole search algorithm: handed a not-yet-started executor, it runs
/// to completion and leaves the executor behind.
pub trait Algorithm: Sized {
    type Exec: Executor;

    type Res;

    type Err;

    /// What the algorithm promises of a result it returns.
    spec fn run_ok(&self, res: Self::Res) -> bool;

    /// What the algorithm promises of an error it returns, given how many
    /// workers the executor was planned with.
    spec fn run_err(&self, workers: nat, err: Self::Err) -> bool;

    fn run(self, not_started_executor: Self::Exec) -> (r: Result<Self::Res, Self::Err>)
        ensures
            (match r {
                Ok(res) => self.run_ok(res),
                Err(e) => self.run_err(not_started_executor.planned(), e),
            }),
    ;
}

} // verus!
