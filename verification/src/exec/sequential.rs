use vstd::prelude::*;
use super::{
    all_parts, dispatched, flat, folds_to, job_err_possible, map_err_possible, nonempty_parts,
    parts_mapped, range_seq, red_err_possible, Executor, ExecutorJobError, ExecutorNewError, Job,
    JobExecuteError, LocalContextBuilder, WorkAmount,
};
use super::laws::{
    lemma_nonempty_parts_flat, lemma_nonempty_parts_len_pos, lemma_nonempty_parts_step,
};

verus! {

/// An executor that performs a job's work itself, without threads: one
/// simulated worker per local context, dispatched one after another, the
/// partials reduced in worker order. It realizes the executor contract in
/// a single control flow; a host wanting OS threads runs the same
/// dispatch around its own worker pool.
pub struct SequentialExecutor<LC> {
    planned: usize,
    contexts: Vec<LC>,
}

impl<LC> SequentialExecutor<LC> {
    /// How many workers the executor will hold once started.
    pub closed spec fn planned_spec(&self) -> nat {
        self.planned as nat
    }

    /// A not-yet-started executor over the given worker count.
    pub fn new(workers: usize) -> (r: SequentialExecutor<LC>)
        ensures
            r.planned_spec() == workers,
            r.planned() == workers,
            r.workers() == 0,
    {
        SequentialExecutor { planned: workers, contexts: Vec::new() }
    }

}

impl<LC> Executor for SequentialExecutor<LC> {
    type LC = LC;

    type E = ();

    closed spec fn workers(&self) -> nat {
        self.contexts@.len()
    }

    closed spec fn planned(&self) -> nat {
        self.planned as nat
    }

    open spec fn exec_can_fail() -> bool {
        false
    }

    fn try_start<LCB: LocalContextBuilder<LC = LC>>(self, lc_builder: LCB) -> (r: Result<
        Self,
        ExecutorNewError<(), LCB::E>,
    >) {
        let mut lc_builder = lc_builder;
        let planned = self.planned;
        let mut contexts: Vec<LC> = Vec::new();
        let mut k: usize = 0;
        while k < planned
            invariant
                0 <= k <= planned,
                contexts@.len() == k,
            decreases planned - k,
        {
            match lc_builder.build() {
                Ok(lc) => {
                    contexts.push(lc);
                },
                Err(e) => {
                    return Err(ExecutorNewError::LocalContextBuilder(e));
                },
            }
            k = k + 1;
        }
        Ok(SequentialExecutor { planned, contexts })
    }

    #[verifier::loop_isolation(false)]
    #[verifier::rlimit(100)]
    fn try_execute_job<WA: WorkAmount, J: Job<LC = LC>>(&mut self, amount: WA, job: &J) -> (r:
        Result<Option<J::P>, ExecutorJobError<(), JobExecuteError<J::ME, J::RE>>>) {
        broadcast use vstd::seq_lib::group_to_multiset_ensures;

        let w: usize = self.contexts.len();
        let ghost wi = w as int;
        let ghost parts = all_parts(&amount, wi);
        let ghost disp = dispatched(&amount, wi);
        let total = amount.total();
        if total == 0 || w == 0 {
            return Ok(None);
        }
        proof {
            amount.lemma_partition(wi);
            lemma_nonempty_parts_flat(parts);
            assert(flat(parts).to_multiset().len() == range_seq(
                amount.total_spec(),
            ).to_multiset().len());
            assert(flat(parts).len() > 0);
            lemma_nonempty_parts_len_pos(parts);
            assert(parts.take(0) =~= Seq::<Seq<usize>>::empty());
        }
        let mut partials: Vec<J::P> = Vec::new();
        let mut errors: Vec<JobExecuteError<J::ME, J::RE>> = Vec::new();
        let mut k: usize = 0;
        while k < w
            invariant
                0 <= k <= w,
                self.contexts@.len() == w,
                errors@.len() == 0 ==> parts_mapped(
                    job,
                    nonempty_parts(parts.take(k as int)),
                    partials@,
                ),
                forall|i: int|
                    0 <= i < errors@.len() ==> job_err_possible(
                        job,
                        nonempty_parts(parts.take(k as int)),
                        #[trigger] errors@[i],
                    ),
            decreases w - k,
        {
            let idx = amount.indices(k, w);
            let ghost ne_old = nonempty_parts(parts.take(k as int));
            let ghost errs0 = errors@;
            let ghost parts0 = partials@;
            proof {
                lemma_nonempty_parts_step(parts, k as int);
                assert(parts[k as int] == amount.part(k as int, wi));
            }
            if idx.len() > 0 {
                let lc = &mut self.contexts[k];
                match job.map(lc, &idx) {
                    Ok(p) => {
                        if errors.len() == 0 {
                            partials.push(p);
                        }
                    },
                    Err(e) => {
                        errors.push(JobExecuteError::Mapping(e));
                    },
                }
            }
            k = k + 1;
            proof {
                let ne = nonempty_parts(parts.take(k as int));
                if errors@.len() == 0 {
                    assert(parts_mapped(job, ne, partials@)) by {
                        if idx@.len() > 0 {
                            assert(ne == ne_old.push(parts[k as int - 1]));
                            assert(partials@ == parts0.push(partials@.last()));
                            assert forall|i: int| 0 <= i < ne.len() implies job.map_ok(
                                ne[i],
                                #[trigger] partials@[i],
                            ) by {
                                if i < ne.len() - 1 {
                                    assert(ne[i] == ne_old[i]);
                                    assert(partials@[i] == parts0[i]);
                                }
                            }
                        } else {
                            assert(ne == ne_old);
                        }
                    }
                }
                assert forall|i: int| 0 <= i < errors@.len() implies job_err_possible(
                    job,
                    ne,
                    #[trigger] errors@[i],
                ) by {
                    if i < errs0.len() {
                        assert(errors@[i] == errs0[i]);
                        assert(job_err_possible(job, ne_old, errs0[i]));
                        match errs0[i] {
                            JobExecuteError::Mapping(e) => {
                                let j = choose|j: int|
                                    0 <= j < ne_old.len() && job.map_fail(#[trigger] ne_old[j], e);
                                assert(ne[j] == ne_old[j]);
                            },
                            JobExecuteError::Reducing(_) => {},
                        }
                    } else {
                        assert(idx@.len() > 0);
                        assert(ne == ne_old.push(parts[k as int - 1]));
                        assert(ne[ne.len() - 1] == parts[k as int - 1]);
                        if let JobExecuteError::Mapping(e) = errors@[i] {
                            assert(job.map_fail(parts[k as int - 1], e));
                            assert(map_err_possible(job, ne, e));
                        }
                    }
                }
            }
        }
        proof {
            assert(parts.take(wi) =~= parts);
        }
        if errors.len() > 0 {
            if errors.len() == 1 {
                let e = errors.remove(0);
                return Err(ExecutorJobError::Job(e));
            }
            return Err(ExecutorJobError::Several(errors));
        }
        proof {
            assert(parts_mapped(job, disp, partials@));
            assert(disp.len() > 0);
        }
        let ghost outs = partials@;
        let mut acc = partials.remove(0);
        proof {
            assert(partials@ =~= outs.drop_first());
            assert(outs.take(1) =~= seq![outs[0]]);
            assert(folds_to(job, outs.take(1), acc));
            assert(partials@ =~= outs.skip(outs.len() - partials@.len()));
        }
        while partials.len() > 0
            invariant
                partials@.len() < outs.len(),
                partials@ == outs.skip(outs.len() - partials@.len()),
                folds_to(job, outs.take(outs.len() - partials@.len()), acc),
                self.contexts@.len() == w,
            decreases partials@.len(),
        {
            let ghost consumed = outs.len() - partials@.len();
            let nxt = partials.remove(0);
            proof {
                assert(outs.skip(consumed)[0] == outs[consumed]);
                assert(nxt == outs[consumed]);
                assert(partials@ =~= outs.skip(consumed + 1));
            }
            let lc0 = &mut self.contexts[0];
            match job.reduce(lc0, acc, nxt) {
                Ok(p) => {
                    proof {
                        assert(outs.take(consumed + 1).drop_last() =~= outs.take(consumed));
                        assert(outs.take(consumed + 1).last() == outs[consumed]);
                        assert(folds_to(job, outs.take(consumed + 1), p));
                    }
                    acc = p;
                },
                Err(e) => {
                    proof {
                        assert(job.red_fail(acc, nxt, e));
                        assert(red_err_possible(job, e));
                        assert(disp == dispatched(&amount, old(self).workers() as int));
                    }
                    return Err(ExecutorJobError::Job(JobExecuteError::Reducing(e)));
                },
            }
        }
        proof {
            assert(outs.take(outs.len() as int) =~= outs);
            assert(folds_to(job, outs, acc));
            assert(parts_mapped(job, dispatched(&amount, old(self).workers() as int), outs));
        }
        Ok(Some(acc))
    }
}

} // verus!
