use vstd::prelude::*;
use core::marker::PhantomData;
use super::PopulationFit;
use super::super::individual::IndividualManager;
use super::super::super::set::{ItemSet, SetIter, SetManager};
use super::super::super::set::union;
use crate::exec::{
    dispatched, flat, folds_to, parts_mapped, range_seq, Executor, ExecutorJobError, Job,
    JobExecuteError, WorkAmount,
};
use crate::exec::laws::{
    concat_op, lemma_flat_map_pointwise, lemma_flat_member_elements, lemma_flat_pointwise,
    lemma_fold1_concat_is_flat, lemma_fold_abstraction, lemma_nonempty_parts_flat,
    lemma_nonempty_parts_membership, lemma_partition_value_bound, respects,
};

verus! {

/// A value that can hand out its fitness set manager for mutation.
pub trait RetrieveFitsManager {
    type FitsM;

    fn retrieve(&mut self) -> &mut Self::FitsM;
}

/// A value that can hand out its individual manager for mutation.
pub trait RetrieveIndividualManager {
    type IM;

    fn retrieve(&mut self) -> &mut Self::IM;
}

/// The types the fitness stage works over, declared once by the host.
pub trait Policy {
    type LocalContext: RetrieveFitsManager<FitsM = Self::FitsM> + RetrieveIndividualManager<
        IM = Self::IndivM,
    >;

    type Exec: Executor<LC = Self::LocalContext>;

    type Indiv;

    type Fit;

    type IndivME;

    type IndivM: IndividualManager<I = Self::Indiv, FI = Self::Fit, E = Self::IndivME>;

    type PopE;

    type Pop: ItemSet<T = Self::Indiv, E = Self::PopE>;

    type FitsE;

    type Fits: ItemSet<T = (Self::Fit, usize), E = Self::FitsE>;

    type FitsME;

    type FitsM: SetManager<S = Self::Fits, E = Self::FitsME>;
}

/// Fitness evaluation of a whole shared population.
pub struct StandardPopulationFit<P> where P: Policy {
    _marker: PhantomData<P>,
}

impl<P> StandardPopulationFit<P> where P: Policy {
    pub fn new() -> (r: StandardPopulationFit<P>) {
        StandardPopulationFit { _marker: PhantomData }
    }
}

/// Failure inside one worker's share of a fitness job.
#[derive(Debug)]
pub enum FitnessError<PE, FE, FME, IME> {
    Population(PE),
    FitsSet(FE),
    FitsSetManager(FME),
    IndividualManager(IME),
}

/// Failure of the whole fitness stage.
#[derive(Debug)]
pub enum Error<ExecE, PopE, FitsE, FitsME, IndivME> {
    NoOutputFitnessValues,
    Executor(
        ExecutorJobError<
            ExecE,
            JobExecuteError<
                FitnessError<PopE, FitsE, FitsME, IndivME>,
                union::Error<FitsE, FitsME>,
            >,
        >,
    ),
}

pub type ErrorP<P> = Error<
    <<P as Policy>::Exec as Executor>::E,
    <P as Policy>::PopE,
    <P as Policy>::FitsE,
    <P as Policy>::FitsME,
    <P as Policy>::IndivME,
>;

/// The fitness job: map fetches each individual of the worker's share
/// from the shared population, computes its fitness, and records the
/// pair with the original index; reduce appends one partial to another.
struct FitJob<'a, P> where P: Policy {
    population: &'a P::Pop,
}

impl<'a, P> Job for FitJob<'a, P> where P: Policy {
    type LC = P::LocalContext;

    type P = P::Fits;

    type ME = FitnessError<P::PopE, P::FitsE, P::FitsME, P::IndivME>;

    type RE = union::Error<P::FitsE, P::FitsME>;

    closed spec fn wf(&self) -> bool {
        true
    }

    closed spec fn map_ok(&self, indices: Seq<usize>, out: P::Fits) -> bool {
        &&& out.items().len() == indices.len()
        &&& forall|j: int|
            0 <= j < indices.len() ==> {
                &&& (#[trigger] out.items()[j]).1 == indices[j]
                &&& indices[j] < self.population.items().len()
                &&& P::IndivM::fitness_of(
                    self.population.items()[indices[j] as int],
                    out.items()[j].0,
                )
            }
    }

    closed spec fn map_fail(
        &self,
        indices: Seq<usize>,
        err: FitnessError<P::PopE, P::FitsE, P::FitsME, P::IndivME>,
    ) -> bool {
        match err {
            FitnessError::Population(_) => exists|j: int|
                0 <= j < indices.len() && #[trigger] indices[j]
                    >= self.population.items().len(),
            FitnessError::FitsSet(_) => <P::Fits as ItemSet>::add_can_fail(),
            FitnessError::FitsSetManager(_) => P::FitsM::make_can_fail(),
            FitnessError::IndividualManager(_) => P::IndivM::fitness_can_fail(),
        }
    }

    closed spec fn red_ok(&self, a: P::Fits, b: P::Fits, out: P::Fits) -> bool {
        out.items() == a.items() + b.items()
    }

    closed spec fn red_fail(
        &self,
        a: P::Fits,
        b: P::Fits,
        err: union::Error<P::FitsE, P::FitsME>,
    ) -> bool {
        match err {
            union::Error::ItemSet(_) => <P::Fits as ItemSet>::add_can_fail() || <<P::Fits as ItemSet>::I as SetIter>::next_can_fail(),
            union::Error::SetManager(_) => P::FitsM::reserve_can_fail(),
        }
    }

    #[verifier::loop_isolation(false)]
    fn map(&self, lc: &mut P::LocalContext, indices: &Vec<usize>) -> (r: Result<
        P::Fits,
        FitnessError<P::PopE, P::FitsE, P::FitsME, P::IndivME>,
    >) {
        let population_size = self.population.size();
        let mut fitness_results = match <P::LocalContext as RetrieveFitsManager>::retrieve(
            lc,
        ).make_set(Some(population_size)) {
            Ok(s) => s,
            Err(e) => {
                return Err(FitnessError::FitsSetManager(e));
            },
        };
        let mut j: usize = 0;
        while j < indices.len()
            invariant
                0 <= j <= indices@.len(),
                fitness_results.items().len() == j,
                forall|t: int|
                    0 <= t < j ==> {
                        &&& (#[trigger] fitness_results.items()[t]).1 == indices@[t]
                        &&& indices@[t] < self.population.items().len()
                        &&& P::IndivM::fitness_of(
                            self.population.items()[indices@[t] as int],
                            fitness_results.items()[t].0,
                        )
                    },
            decreases indices@.len() - j,
        {
            let index = indices[j];
            let indiv = match self.population.get(index) {
                Ok(indiv) => indiv,
                Err(e) => {
                    return Err(FitnessError::Population(e));
                },
            };
            let fitness = match <P::LocalContext as RetrieveIndividualManager>::retrieve(
                lc,
            ).fitness(indiv) {
                Ok(f) => f,
                Err(e) => {
                    return Err(FitnessError::IndividualManager(e));
                },
            };
            match fitness_results.add((fitness, index)) {
                Ok(_) => {},
                Err(e) => {
                    return Err(FitnessError::FitsSet(e));
                },
            }
            j = j + 1;
        }
        Ok(fitness_results)
    }

    fn reduce(&self, lc: &mut P::LocalContext, a: P::Fits, b: P::Fits) -> (r: Result<
        P::Fits,
        union::Error<P::FitsE, P::FitsME>,
    >) {
        union::union(<P::LocalContext as RetrieveFitsManager>::retrieve(lc), a, b)
    }
}

impl<P> PopulationFit for StandardPopulationFit<P> where P: Policy {
    type Exec = P::Exec;

    type Indiv = P::Indiv;

    type Pop = P::Pop;

    type Fit = P::Fit;

    type Fits = P::Fits;

    type Err = ErrorP<P>;

    /// The stage's promise: one `(fitness, index)` pair per individual,
    /// the index projection a permutation of the population's indices,
    /// each fitness computed for the individual its index names.
    open spec fn fit_ok(&self, population: P::Pop, fits: P::Fits) -> bool {
        &&& population.items().len() > 0
        &&& fits.items().len() == population.items().len()
        &&& fits.items().map_values(|p: (P::Fit, usize)| p.1).to_multiset() == range_seq(
            population.items().len(),
        ).to_multiset()
        &&& forall|j: int|
            0 <= j < fits.items().len() ==> {
                &&& (#[trigger] fits.items()[j]).1 < population.items().len()
                &&& P::IndivM::fitness_of(
                    population.items()[fits.items()[j].1 as int],
                    fits.items()[j].0,
                )
            }
    }

    /// The stage's promise about errors: a run that dispatches no work —
    /// an empty population, or no workers at all — is reported as
    /// `NoOutputFitnessValues` and nothing else; any other failure was
    /// reported by a component that is allowed to fail — never by an
    /// out-of-range access to the shared population — and a `Several`
    /// holds at least two of them.
    open spec fn fit_err(&self, population: P::Pop, workers: nat, err: ErrorP<P>) -> bool {
        match err {
            Error::NoOutputFitnessValues => population.items().len() == 0 || workers == 0,
            Error::Executor(e) => {
                &&& population.items().len() > 0
                &&& workers > 0
                &&& (<P::Fits as ItemSet>::add_can_fail() || <<P::Fits as ItemSet>::I as SetIter>::next_can_fail()
                    || P::FitsM::make_can_fail() || P::FitsM::reserve_can_fail()
                    || P::IndivM::fitness_can_fail() || P::Exec::exec_can_fail())
                &&& (e matches ExecutorJobError::Several(errs) ==> errs@.len() >= 2)
            },
        }
    }

    fn fit<WA: WorkAmount>(&self, population: &P::Pop, exec: &mut P::Exec) -> (r: Result<
        P::Fits,
        ErrorP<P>,
    >) {
        broadcast use vstd::seq_lib::group_to_multiset_ensures;

        let population_size = population.size();
        let job: FitJob<P> = FitJob { population };
        let amount = WA::new(population_size);
        let ghost wi = old(exec).workers() as int;
        let ghost n = population.items().len();
        proof {
            if wi >= 1 {
                amount.lemma_partition(wi);
                assert(crate::exec::all_parts(&amount, wi) =~= Seq::new(
                    wi as nat,
                    |k: int| amount.part(k, wi),
                ));
                lemma_nonempty_parts_flat(crate::exec::all_parts(&amount, wi));
                lemma_nonempty_parts_membership(crate::exec::all_parts(&amount, wi));
            }
        }
        let ghost disp = dispatched(&amount, wi);
        proof {
            if wi >= 1 {
                assert forall|i: int, j: int|
                    0 <= i < disp.len() && 0 <= j < disp[i].len() implies #[trigger] disp[i][j]
                    < n by {
                    let ap = crate::exec::all_parts(&amount, wi);
                    assert(ap.contains(disp[i]));
                    lemma_flat_member_elements(ap, disp[i], j);
                    lemma_partition_value_bound(ap, n, disp[i][j]);
                }
            }
        }
        let outcome = exec.try_execute_job(amount, &job);
        match outcome {
            Ok(None) => Err(Error::NoOutputFitnessValues),
            Ok(Some(fits)) => {
                proof {
                    let outs = choose|outs: Seq<P::Fits>|
                        #[trigger] parts_mapped(&job, disp, outs) && folds_to(&job, outs, fits);
                    let alpha = |s: P::Fits| s.items();
                    let op = concat_op::<(P::Fit, usize)>();
                    assert(respects(&job, alpha, op)) by {
                        assert forall|x: P::Fits, y: P::Fits, z: P::Fits| #[trigger] job.red_ok(
                            x,
                            y,
                            z,
                        ) implies alpha(z) == op(alpha(x), alpha(y)) by {}
                    }
                    lemma_fold_abstraction(&job, outs, fits, alpha, op);
                    let vs = outs.map_values(alpha);
                    lemma_fold1_concat_is_flat(vs);
                    assert(fits.items() == flat(vs));
                    let proj = |p: (P::Fit, usize)| p.1;
                    assert forall|i: int| #![trigger vs[i]] 0 <= i < vs.len() implies vs[i].map_values(
                        proj,
                    ) == disp[i] by {
                        assert(job.map_ok(disp[i], outs[i]));
                        assert(vs[i] == outs[i].items());
                        assert(vs[i].map_values(proj) =~= disp[i]);
                    }
                    lemma_flat_map_pointwise(vs, disp, proj);
                    assert(flat(vs).map_values(proj).to_multiset() == range_seq(n).to_multiset());
                    assert(fits.items().map_values(|p: (P::Fit, usize)| p.1) =~= flat(
                        vs,
                    ).map_values(proj));
                    assert(flat(disp).len() == range_seq(n).to_multiset().len());
                    assert(range_seq(n).len() == n);
                    assert(fits.items().len() == flat(vs).len());
                    assert(flat(vs).len() == flat(disp).len()) by {
                        assert(flat(vs).map_values(proj).len() == flat(vs).len());
                    }
                    let rel = |idx: usize, pr: (P::Fit, usize)|
                        {
                            &&& pr.1 == idx
                            &&& idx < population.items().len()
                            &&& P::IndivM::fitness_of(population.items()[idx as int], pr.0)
                        };
                    assert forall|i: int| #![trigger disp[i]] 0 <= i < disp.len() implies disp[i].len()
                        == vs[i].len() && (forall|j: int|
                        0 <= j < disp[i].len() ==> rel(#[trigger] disp[i][j], vs[i][j])) by {
                        assert(job.map_ok(disp[i], outs[i]));
                        assert(vs[i] == outs[i].items());
                        assert forall|j: int| 0 <= j < disp[i].len() implies rel(
                            #[trigger] disp[i][j],
                            vs[i][j],
                        ) by {
                            assert(disp[i][j] < n);
                        }
                    }
                    lemma_flat_pointwise(disp, vs, rel);
                    assert forall|j: int| 0 <= j < fits.items().len() implies ((
                    #[trigger] fits.items()[j]).1 < population.items().len()
                        && P::IndivM::fitness_of(
                        population.items()[fits.items()[j].1 as int],
                        fits.items()[j].0,
                    )) by {
                        assert(rel(flat(disp)[j], flat(vs)[j]));
                    }
                    assert(self.fit_ok(*population, fits));
                }
                Ok(fits)
            },
            Err(e) => {
                proof {
                    match &e {
                        ExecutorJobError::Executor(_) => {},
                        ExecutorJobError::Job(je) => {
                            lemma_fit_job_err::<P>(&job, disp, n, *je);
                        },
                        ExecutorJobError::Several(errs) => {
                            assert(crate::exec::job_err_possible(&job, disp, errs@[0]));
                            lemma_fit_job_err::<P>(&job, disp, n, errs@[0]);
                        },
                    }
                }
                Err(Error::Executor(e))
            },
        }
    }
}

proof fn lemma_fit_job_err<P: Policy>(
    job: &FitJob<P>,
    parts: Seq<Seq<usize>>,
    n: nat,
    je: JobExecuteError<
        FitnessError<P::PopE, P::FitsE, P::FitsME, P::IndivME>,
        union::Error<P::FitsE, P::FitsME>,
    >,
)
    requires
        crate::exec::job_err_possible(job, parts, je),
        job.population.items().len() == n,
        forall|i: int, j: int|
            0 <= i < parts.len() && 0 <= j < parts[i].len() ==> #[trigger] parts[i][j] < n,
    ensures
        <P::Fits as ItemSet>::add_can_fail() || <<P::Fits as ItemSet>::I as SetIter>::next_can_fail()
            || P::FitsM::make_can_fail() || P::FitsM::reserve_can_fail()
            || P::IndivM::fitness_can_fail(),
{
    match je {
        JobExecuteError::Mapping(e) => {
            let i = choose|i: int| 0 <= i < parts.len() && job.map_fail(#[trigger] parts[i], e);
            match e {
                FitnessError::Population(_) => {
                    let j = choose|j: int|
                        0 <= j < parts[i].len() && #[trigger] parts[i][j]
                            >= job.population.items().len();
                    assert(parts[i][j] < n);
                    assert(false);
                },
                FitnessError::FitsSet(_) => {},
                FitnessError::FitsSetManager(_) => {},
                FitnessError::IndividualManager(_) => {},
            }
        },
        JobExecuteError::Reducing(e) => {
            let (a, b) = choose|a: P::Fits, b: P::Fits| #[trigger] job.red_fail(a, b, e);
        },
    }
}

} // verus!
