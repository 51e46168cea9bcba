use vstd::prelude::*;
use core::marker::PhantomData;
use super::PopulationInit;
use super::super::individual::IndividualManager;
use super::super::super::set::{ItemSet, SetIter, SetManager};
use super::super::super::set::union;
use crate::exec::{
    dispatched, flat, folds_to, parts_mapped, range_seq, Executor, ExecutorJobError, Job,
    JobExecuteError, WorkAmount,
};
use crate::exec::laws::{
    concat_op, lemma_flat_pointwise, lemma_fold1_concat_is_flat, lemma_fold_abstraction,
    lemma_nonempty_parts_flat, respects,
};

verus! {

/// A value that can hand out its population set manager for mutation.
pub trait RetrievePopulationManager {
    type PopM;

    fn retrieve(&mut self) -> &mut Self::PopM;
}

/// A value that can hand out its individual manager for mutation.
pub trait RetrieveIndividualManager {
    type IM;

    fn retrieve(&mut self) -> &mut Self::IM;
}

/// The types the initialization stage works over, declared once by the
/// host.
pub trait Policy {
    type LocalContext: RetrievePopulationManager<PopM = Self::PopSM> + RetrieveIndividualManager<
        IM = Self::IndivM,
    >;

    type Exec: Executor<LC = Self::LocalContext>;

    type Indiv;

    type IndivME;

    type IndivM: IndividualManager<I = Self::Indiv, E = Self::IndivME>;

    type PopE;

    type Pop: ItemSet<T = Self::Indiv, E = Self::PopE>;

    type PopSME;

    type PopSM: SetManager<S = Self::Pop, E = Self::PopSME>;
}

/// Population initialization up to a fixed target count.
pub struct LimitedPopulationInit<P> where P: Policy {
    limit: usize,
    _marker: PhantomData<P>,
}

impl<P> LimitedPopulationInit<P> where P: Policy {
    /// The target population size.
    pub closed spec fn limit_spec(&self) -> nat {
        self.limit as nat
    }

    pub fn new(limit: usize) -> (r: LimitedPopulationInit<P>)
        ensures
            r.limit_spec() == limit,
    {
        LimitedPopulationInit { limit, _marker: PhantomData }
    }
}

/// Failure inside one worker's share of an initialization job.
#[derive(Debug)]
pub enum GenerateError<SE, SME, IME> {
    ItemSet(SE),
    SetManager(SME),
    IndividualManager(IME),
}

/// Failure of the whole initialization stage.
#[derive(Debug)]
pub enum Error<ExecE, PopE, PopSME, IndivME> {
    NoOutputPopulation,
    Executor(
        ExecutorJobError<
            ExecE,
            JobExecuteError<GenerateError<PopE, PopSME, IndivME>, union::Error<PopE, PopSME>>,
        >,
    ),
}

pub type ErrorP<P> = Error<
    <<P as Policy>::Exec as Executor>::E,
    <P as Policy>::PopE,
    <P as Policy>::PopSME,
    <P as Policy>::IndivME,
>;

/// The initialization job: map generates one individual per index of the
/// worker's share; reduce appends one partial population to another.
struct InitJob<P> where P: Policy {
    _marker: PhantomData<P>,
}

impl<P> Job for InitJob<P> where P: Policy {
    type LC = P::LocalContext;

    type P = P::Pop;

    type ME = GenerateError<P::PopE, P::PopSME, P::IndivME>;

    type RE = union::Error<P::PopE, P::PopSME>;

    closed spec fn wf(&self) -> bool {
        true
    }

    closed spec fn map_ok(&self, indices: Seq<usize>, out: P::Pop) -> bool {
        &&& out.items().len() == indices.len()
        &&& forall|j: int|
            0 <= j < indices.len() ==> P::IndivM::generated(indices[j], #[trigger] out.items()[j])
    }

    closed spec fn map_fail(
        &self,
        indices: Seq<usize>,
        err: GenerateError<P::PopE, P::PopSME, P::IndivME>,
    ) -> bool {
        match err {
            GenerateError::ItemSet(_) => <P::Pop as ItemSet>::add_can_fail(),
            GenerateError::SetManager(_) => P::PopSM::make_can_fail(),
            GenerateError::IndividualManager(_) => P::IndivM::generate_can_fail(),
        }
    }

    closed spec fn red_ok(&self, a: P::Pop, b: P::Pop, out: P::Pop) -> bool {
        out.items() == a.items() + b.items()
    }

    closed spec fn red_fail(
        &self,
        a: P::Pop,
        b: P::Pop,
        err: union::Error<P::PopE, P::PopSME>,
    ) -> bool {
        match err {
            union::Error::ItemSet(_) => <P::Pop as ItemSet>::add_can_fail() || <<P::Pop as ItemSet>::I as SetIter>::next_can_fail(),
            union::Error::SetManager(_) => P::PopSM::reserve_can_fail(),
        }
    }

    #[verifier::loop_isolation(false)]
    fn map(&self, lc: &mut P::LocalContext, indices: &Vec<usize>) -> (r: Result<
        P::Pop,
        GenerateError<P::PopE, P::PopSME, P::IndivME>,
    >) {
        let mut population = match <P::LocalContext as RetrievePopulationManager>::retrieve(
            lc,
        ).make_set(None) {
            Ok(s) => s,
            Err(e) => {
                return Err(GenerateError::SetManager(e));
            },
        };
        let mut j: usize = 0;
        while j < indices.len()
            invariant
                0 <= j <= indices@.len(),
                population.items().len() == j,
                forall|t: int|
                    0 <= t < j ==> P::IndivM::generated(
                        indices@[t],
                        #[trigger] population.items()[t],
                    ),
            decreases indices@.len() - j,
        {
            let indiv = match <P::LocalContext as RetrieveIndividualManager>::retrieve(lc).generate(
                indices[j],
            ) {
                Ok(indiv) => indiv,
                Err(e) => {
                    return Err(GenerateError::IndividualManager(e));
                },
            };
            match population.add(indiv) {
                Ok(_) => {},
                Err(e) => {
                    return Err(GenerateError::ItemSet(e));
                },
            }
            j = j + 1;
        }
        Ok(population)
    }

    fn reduce(&self, lc: &mut P::LocalContext, a: P::Pop, b: P::Pop) -> (r: Result<
        P::Pop,
        union::Error<P::PopE, P::PopSME>,
    >) {
        union::union(<P::LocalContext as RetrievePopulationManager>::retrieve(lc), a, b)
    }
}

impl<P> PopulationInit for LimitedPopulationInit<P> where P: Policy {
    type Exec = P::Exec;

    type Indiv = P::Indiv;

    type Pop = P::Pop;

    type Err = ErrorP<P>;

    /// The stage's promise: exactly `limit` individuals, each generated
    /// for its own work index, the indices together covering
    /// `0..limit` exactly once.
    open spec fn init_ok(&self, pop: P::Pop) -> bool {
        &&& self.limit_spec() > 0
        &&& pop.items().len() == self.limit_spec()
        &&& exists|idxs: Seq<usize>|
            {
                &&& #[trigger] idxs.to_multiset() == range_seq(self.limit_spec()).to_multiset()
                &&& idxs.len() == pop.items().len()
                &&& forall|j: int|
                    0 <= j < idxs.len() ==> P::IndivM::generated(
                        idxs[j],
                        #[trigger] pop.items()[j],
                    )
            }
    }

    /// The stage's promise about errors: a request that dispatches no
    /// work — none asked for, or no workers at all — is reported as
    /// `NoOutputPopulation` and nothing else; any other failure was
    /// reported by a component that is allowed to fail, and a `Several`
    /// holds at least two of them.
    open spec fn init_err(&self, workers: nat, err: ErrorP<P>) -> bool {
        match err {
            Error::NoOutputPopulation => self.limit_spec() == 0 || workers == 0,
            Error::Executor(e) => {
                &&& self.limit_spec() > 0
                &&& workers > 0
                &&& (<P::Pop as ItemSet>::add_can_fail() || <<P::Pop as ItemSet>::I as SetIter>::next_can_fail()
                    || P::PopSM::make_can_fail() || P::PopSM::reserve_can_fail()
                    || P::IndivM::generate_can_fail() || P::Exec::exec_can_fail())
                &&& (e matches ExecutorJobError::Several(errs) ==> errs@.len() >= 2)
            },
        }
    }

    fn init<WA: WorkAmount>(&self, exec: &mut P::Exec) -> (r: Result<P::Pop, ErrorP<P>>) {
        broadcast use vstd::seq_lib::group_to_multiset_ensures;

        let job: InitJob<P> = InitJob { _marker: PhantomData };
        let amount = WA::new(self.limit);
        let ghost wi = old(exec).workers() as int;
        let ghost total = amount.total_spec();
        let outcome = exec.try_execute_job(amount, &job);
        match outcome {
            Ok(None) => Err(Error::NoOutputPopulation),
            Ok(Some(pop)) => {
                proof {
                    let disp = dispatched(&amount, wi);
                    let outs = choose|outs: Seq<P::Pop>|
                        #[trigger] parts_mapped(&job, disp, outs) && folds_to(&job, outs, pop);
                    let alpha = |s: P::Pop| s.items();
                    let op = concat_op::<P::Indiv>();
                    assert(respects(&job, alpha, op)) by {
                        assert forall|x: P::Pop, y: P::Pop, z: P::Pop| #[trigger] job.red_ok(
                            x,
                            y,
                            z,
                        ) implies alpha(z) == op(alpha(x), alpha(y)) by {}
                    }
                    lemma_fold_abstraction(&job, outs, pop, alpha, op);
                    let vs = outs.map_values(alpha);
                    lemma_fold1_concat_is_flat(vs);
                    assert forall|i: int| #![trigger disp[i]] 0 <= i < disp.len() implies disp[i].len()
                        == vs[i].len() && (forall|j: int|
                        0 <= j < disp[i].len() ==> P::IndivM::generated(
                            #[trigger] disp[i][j],
                            vs[i][j],
                        )) by {
                        assert(job.map_ok(disp[i], outs[i]));
                        assert(vs[i] == outs[i].items());
                    }
                    lemma_flat_pointwise(
                        disp,
                        vs,
                        |idx: usize, ind: P::Indiv| P::IndivM::generated(idx, ind),
                    );
                    lemma_nonempty_parts_flat(crate::exec::all_parts(&amount, wi));
                    amount.lemma_partition(wi);
                    assert(crate::exec::all_parts(&amount, wi) =~= Seq::new(
                        wi as nat,
                        |k: int| amount.part(k, wi),
                    ));
                    assert(flat(disp).to_multiset() == range_seq(self.limit_spec()).to_multiset());
                    assert(flat(disp).len() == range_seq(self.limit_spec()).to_multiset().len());
                    assert(range_seq(self.limit_spec()).len() == self.limit_spec());
                    assert(pop.items() == flat(vs));
                    assert(pop.items().len() == flat(disp).len());
                    let idxs = flat(disp);
                    assert forall|j: int| 0 <= j < idxs.len() implies P::IndivM::generated(
                        idxs[j],
                        #[trigger] pop.items()[j],
                    ) by {
                        let rel = |idx: usize, ind: P::Indiv| P::IndivM::generated(idx, ind);
                        assert(rel(flat(disp)[j], flat(vs)[j]));
                    }
                    assert(self.init_ok(pop));
                }
                Ok(pop)
            },
            Err(e) => {
                proof {
                    match &e {
                        ExecutorJobError::Executor(_) => {},
                        ExecutorJobError::Job(je) => {
                            lemma_init_job_err_at::<P>(&job, dispatched(&amount, wi), *je);
                        },
                        ExecutorJobError::Several(errs) => {
                            assert(crate::exec::job_err_possible(
                                &job,
                                dispatched(&amount, wi),
                                errs@[0],
                            ));
                            lemma_init_job_err_at::<P>(&job, dispatched(&amount, wi), errs@[0]);
                        },
                    }
                }
                Err(Error::Executor(e))
            },
        }
    }
}

proof fn lemma_init_job_err_at<P: Policy>(
    job: &InitJob<P>,
    parts: Seq<Seq<usize>>,
    je: JobExecuteError<
        GenerateError<P::PopE, P::PopSME, P::IndivME>,
        union::Error<P::PopE, P::PopSME>,
    >,
)
    requires
        crate::exec::job_err_possible(job, parts, je),
    ensures
        <P::Pop as ItemSet>::add_can_fail() || <<P::Pop as ItemSet>::I as SetIter>::next_can_fail()
            || P::PopSM::make_can_fail() || P::PopSM::reserve_can_fail()
            || P::IndivM::generate_can_fail(),
{
    match je {
        JobExecuteError::Mapping(e) => {
            let i = choose|i: int| 0 <= i < parts.len() && job.map_fail(#[trigger] parts[i], e);
        },
        JobExecuteError::Reducing(e) => {
            let (a, b) = choose|a: P::Pop, b: P::Pop| #[trigger] job.red_fail(a, b, e);
        },
    }
}

} // verus!
