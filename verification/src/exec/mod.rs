use vstd::prelude::*;

pub mod amount;
pub mod laws;
pub mod sequential;

verus! {

/// Failure of starting an executor: either the executor itself or the
/// local-context builder refused.
#[derive(Debug)]
pub enum ExecutorNewError<EE, LCBE> {
    Executor(EE),
    LocalContextBuilder(LCBE),
}

/// Failure of one map or reduce call inside a job.
#[derive(Debug)]
pub enum JobExecuteError<ME, RE> {
    Mapping(ME),
    Reducing(RE),
}

/// Failure of a whole job: the executor itself failed, exactly one worker
/// failed, or several did, in which case all of their errors are kept.
#[derive(Debug)]
pub enum ExecutorJobError<EE, JE> {
    Executor(EE),
    Job(JE),
    Several(Vec<JE>),
}

/// Builds one local context per worker, once, at executor start.
pub trait LocalContextBuilder {
    type LC;

    type E;

    /// Whether `build` is ever allowed to fail for this implementation.
    spec fn build_can_fail() -> bool;

    fn build(&mut self) -> (r: Result<Self::LC, Self::E>)
        ensures
            r matches Err(_) ==> Self::build_can_fail(),
    ;
}

/// The sequence `0, 1, ..., n - 1`.
pub open spec fn range_seq(n: nat) -> Seq<usize> {
    Seq::new(n, |i: int| i as usize)
}

/// Concatenation of a sequence of sequences, in order.
pub open spec fn flat<T>(parts: Seq<Seq<T>>) -> Seq<T>
    decreases parts.len(),
{
    if parts.len() == 0 {
        Seq::empty()
    } else {
        flat(parts.drop_last()) + parts.last()
    }
}

pub open spec fn strictly_ascending(s: Seq<usize>) -> bool {
    forall|i: int, j: int| #![trigger s[i], s[j]] 0 <= i < j < s.len() ==> s[i] < s[j]
}

/// The index sequences that a work amount deals to `workers` workers, in
/// worker order.
pub open spec fn all_parts<WA: WorkAmount>(amount: &WA, workers: int) -> Seq<Seq<usize>> {
    Seq::new(workers as nat, |k: int| amount.part(k, workers))
}

/// A work amount knows how a range `0..total` of work indices is divided
/// among a number of workers. The partition law is part of the trait:
/// every implementation deals the whole range out exactly once, each
/// worker's share in ascending order.
pub trait WorkAmount: Sized {
    /// How much work there is: the indices `0..total_spec()` are dealt out.
    spec fn total_spec(&self) -> nat;

    /// The share of the given worker, in the order it is visited.
    spec fn part(&self, worker: int, workers: int) -> Seq<usize>;

    fn new(amount: usize) -> (r: Self)
        ensures
            r.total_spec() == amount,
    ;

    fn total(&self) -> (r: usize)
        ensures
            r == self.total_spec(),
    ;

    fn indices(&self, worker: usize, workers: usize) -> (r: Vec<usize>)
        requires
            0 < workers,
            worker < workers,
        ensures
            r@ == self.part(worker as int, workers as int),
    ;

    /// Law: dealt to any number of workers, the shares are disjoint and
    /// cover `0..total` completely — their concatenation is a permutation
    /// of `0..total` — and each share is strictly ascending.
    proof fn lemma_partition(&self, workers: int)
        requires
            workers >= 1,
        ensures
            flat(Seq::new(workers as nat, |k: int| self.part(k, workers))).to_multiset()
                == range_seq(self.total_spec()).to_multiset(),
            forall|k: int| 0 <= k < workers ==> strictly_ascending(#[trigger] self.part(k, workers)),
    ;
}

/// One map/reduce job. `map` turns one worker's share of indices into a
/// partial result; `reduce` combines two partials. The four spec
/// functions are the job's contract: every outcome of `map` and `reduce`
/// is pinned by them.
pub trait Job {
    type LC;

    type P;

    type ME;

    type RE;

    /// What the job asks of its surroundings before it may run at all:
    /// most jobs ask nothing, one holding a predicate asks that the
    /// predicate accept every pair.
    spec fn wf(&self) -> bool;

    /// What a successful map of `indices` may return.
    spec fn map_ok(&self, indices: Seq<usize>, out: Self::P) -> bool;

    /// What a failed map of `indices` may report.
    spec fn map_fail(&self, indices: Seq<usize>, err: Self::ME) -> bool;

    /// What a successful reduction of `a` and `b` may return.
    spec fn red_ok(&self, a: Self::P, b: Self::P, out: Self::P) -> bool;

    /// What a failed reduction of `a` and `b` may report.
    spec fn red_fail(&self, a: Self::P, b: Self::P, err: Self::RE) -> bool;

    fn map(&self, lc: &mut Self::LC, indices: &Vec<usize>) -> (r: Result<Self::P, Self::ME>)
        requires
            self.wf(),
        ensures
            (match r {
                Ok(p) => self.map_ok(indices@, p),
                Err(e) => self.map_fail(indices@, e),
            }),
    ;

    fn reduce(&self, lc: &mut Self::LC, a: Self::P, b: Self::P) -> (r: Result<Self::P, Self::RE>)
        requires
            self.wf(),
        ensures
            (match r {
                Ok(p) => self.red_ok(a, b, p),
                Err(e) => self.red_fail(a, b, e),
            }),
    ;
}

/// The nonempty shares, in worker order: exactly these are dispatched, so
/// that a worker with no work receives none.
pub open spec fn nonempty_parts(parts: Seq<Seq<usize>>) -> Seq<Seq<usize>>
    decreases parts.len(),
{
    if parts.len() == 0 {
        Seq::empty()
    } else {
        let rest = nonempty_parts(parts.drop_last());
        if parts.last().len() > 0 {
            rest.push(parts.last())
        } else {
            rest
        }
    }
}

/// The shares a job execution dispatches: the nonempty ones, in worker
/// order.
pub open spec fn dispatched<WA: WorkAmount>(amount: &WA, workers: int) -> Seq<Seq<usize>> {
    nonempty_parts(all_parts(amount, workers))
}

/// Each partial is a possible map output of the corresponding share.
pub open spec fn parts_mapped<J: Job>(job: &J, parts: Seq<Seq<usize>>, outs: Seq<J::P>) -> bool {
    &&& outs.len() == parts.len()
    &&& forall|i: int| 0 <= i < parts.len() ==> job.map_ok(parts[i], #[trigger] outs[i])
}

/// A left fold of the partials through the job's reducer: `result` is
/// reachable from `outs` by reducing left to right.
pub open spec fn folds_to<J: Job>(job: &J, outs: Seq<J::P>, result: J::P) -> bool
    decreases outs.len(),
{
    if outs.len() == 0 {
        false
    } else if outs.len() == 1 {
        result == outs[0]
    } else {
        exists|mid: J::P|
            folds_to(job, outs.drop_last(), mid) && #[trigger] job.red_ok(
                mid,
                outs.last(),
                result,
            )
    }
}

/// Any reduction tree over the partials: some split is reduced after both
/// halves were. A left fold is one such tree.
pub open spec fn tree_folds_to<J: Job>(job: &J, outs: Seq<J::P>, result: J::P) -> bool
    decreases outs.len(),
{
    if outs.len() == 0 {
        false
    } else if outs.len() == 1 {
        result == outs[0]
    } else {
        exists|k: int, l: J::P, r: J::P|
            #![trigger outs.take(k), job.red_ok(l, r, result)]
            0 < k < outs.len() && tree_folds_to(job, outs.take(k), l) && tree_folds_to(
                job,
                outs.skip(k),
                r,
            ) && job.red_ok(l, r, result)
    }
}

/// Some dispatched share could have reported this map error.
pub open spec fn map_err_possible<J: Job>(job: &J, parts: Seq<Seq<usize>>, e: J::ME) -> bool {
    exists|i: int| 0 <= i < parts.len() && job.map_fail(#[trigger] parts[i], e)
}

/// Some pair of partials could have reported this reduce error.
pub open spec fn red_err_possible<J: Job>(job: &J, e: J::RE) -> bool {
    exists|a: J::P, b: J::P| #[trigger] job.red_fail(a, b, e)
}

/// The error is one that the job itself could have reported on one of the
/// dispatched shares.
pub open spec fn job_err_possible<J: Job>(
    job: &J,
    parts: Seq<Seq<usize>>,
    err: JobExecuteError<J::ME, J::RE>,
) -> bool {
    match err {
        JobExecuteError::Mapping(e) => map_err_possible(job, parts, e),
        JobExecuteError::Reducing(e) => red_err_possible(job, e),
    }
}

/// The fork/partition/join engine: a job is dispatched over the shares of
/// a work amount, and the partial results are reduced to one.
pub trait Executor: Sized {
    type LC;

    type E;

    /// How many workers are running.
    spec fn workers(&self) -> nat;

    /// How many workers a start will bring up.
    spec fn planned(&self) -> nat;

    /// Whether the executor machinery itself can fail a job.
    spec fn exec_can_fail() -> bool;

    /// Builds one local context per planned worker; on success the
    /// executor is running. The first build failure aborts the start.
    fn try_start<LCB: LocalContextBuilder<LC = Self::LC>>(self, lc_builder: LCB) -> (r: Result<
        Self,
        ExecutorNewError<Self::E, LCB::E>,
    >)
        ensures
            (match r {
                Ok(e) => e.workers() == self.planned(),
                Err(ExecutorNewError::LocalContextBuilder(_)) => LCB::build_can_fail(),
                Err(ExecutorNewError::Executor(_)) => Self::exec_can_fail(),
            }),
            !LCB::build_can_fail() && !Self::exec_can_fail() ==> r matches Ok(_),
    ;

    /// Runs one job. With no work at all, or no workers at all, the
    /// result is `None` and no worker receives anything. Otherwise every
    /// nonempty share is mapped on its worker and the partials are
    /// reduced in worker order; every reported error is one that a map or
    /// reduce call actually returned, a single failure is surfaced alone,
    /// and `Several` only ever holds two or more.
    fn try_execute_job<WA: WorkAmount, J: Job<LC = Self::LC>>(&mut self, amount: WA, job: &J) -> (r:
        Result<Option<J::P>, ExecutorJobError<Self::E, JobExecuteError<J::ME, J::RE>>>)
        requires
            job.wf(),
        ensures
            final(self).workers() == old(self).workers(),
            (match r {
                Ok(None) => amount.total_spec() == 0 || old(self).workers() == 0,
                Ok(Some(p)) => amount.total_spec() > 0 && old(self).workers() > 0 && (exists|
                    outs: Seq<J::P>,
                |
                    #[trigger] parts_mapped(
                        job,
                        dispatched(&amount, old(self).workers() as int),
                        outs,
                    ) && folds_to(job, outs, p)),
                Err(ExecutorJobError::Executor(_)) => Self::exec_can_fail(),
                Err(ExecutorJobError::Job(je)) => job_err_possible(
                    job,
                    dispatched(&amount, old(self).workers() as int),
                    je,
                ),
                Err(ExecutorJobError::Several(errs)) => errs.len() >= 2 && (forall|i: int|
                    0 <= i < errs.len() ==> job_err_possible(
                        job,
                        dispatched(&amount, old(self).workers() as int),
                        #[trigger] errs[i],
                    )),
            }),
            amount.total_spec() == 0 || old(self).workers() == 0 ==> r matches Ok(None),
            !Self::exec_can_fail() && (forall|idx: Seq<usize>, e: J::ME| !job.map_fail(idx, e)) && (
            forall|a: J::P, b: J::P, e: J::RE| !job.red_fail(a, b, e)) && amount.total_spec() > 0
                && old(self).workers() > 0 ==> r matches Ok(Some(_)),
    ;
}

} // verus!
