use vstd::prelude::*;
use core::marker::PhantomData;
use super::Algorithm;
use super::super::pop::individual::IndividualManager;
use super::super::pop::init::PopulationInit;
use super::super::pop::init::limited;
use super::super::pop::fit::PopulationFit;
use super::super::pop::fit::standard;
use super::super::set::{ItemSet, SetManager};
use crate::exec::{Executor, ExecutorNewError, LocalContextBuilder, WorkAmount};

verus! {

/// The one record of types a host binds the whole skeleton to.
pub trait Policy {
    type Indiv;

    type IndivME;

    type IndivM: IndividualManager<I = Self::Indiv, FI = Self::Fit, E = Self::IndivME>;

    type PopSE;

    type PopS: ItemSet<T = Self::Indiv, E = Self::PopSE>;

    type PopSME;

    type PopSM: SetManager<S = Self::PopS, E = Self::PopSME>;

    type Fit;

    type FitsE;

    type Fits: ItemSet<T = (Self::Fit, usize), E = Self::FitsE>;

    type FitsME;

    type FitsM: SetManager<S = Self::Fits, E = Self::FitsME>;
}

/// The per-worker bundle of managers that every stage draws from.
pub struct LocalContext<P> where P: Policy {
    pub indiv_manager: P::IndivM,
    pub pop_set_manager: P::PopSM,
    pub fits_set_manager: P::FitsM,
}

impl<P> limited::RetrievePopulationManager for LocalContext<P> where P: Policy {
    type PopM = P::PopSM;

    fn retrieve(&mut self) -> &mut P::PopSM {
        &mut self.pop_set_manager
    }
}

impl<P> limited::RetrieveIndividualManager for LocalContext<P> where P: Policy {
    type IM = P::IndivM;

    fn retrieve(&mut self) -> &mut P::IndivM {
        &mut self.indiv_manager
    }
}

impl<P> standard::RetrieveFitsManager for LocalContext<P> where P: Policy {
    type FitsM = P::FitsM;

    fn retrieve(&mut self) -> &mut P::FitsM {
        &mut self.fits_set_manager
    }
}

impl<P> standard::RetrieveIndividualManager for LocalContext<P> where P: Policy {
    type IM = P::IndivM;

    fn retrieve(&mut self) -> &mut P::IndivM {
        &mut self.indiv_manager
    }
}

/// The algorithm-level policy: the stage policy, the context builder and
/// the executor that runs the stages.
pub trait APolicy {
    type P: Policy;

    type LCBuilder: LocalContextBuilder<LC = LocalContext<Self::P>>;

    type Exec: Executor<LC = LocalContext<Self::P>>;
}

/// The initialization stage's view of an [`APolicy`].
pub struct PopInitPolicy<AP>(PhantomData<AP>) where AP: APolicy;

impl<AP> limited::Policy for PopInitPolicy<AP> where AP: APolicy {
    type LocalContext = LocalContext<AP::P>;

    type Exec = AP::Exec;

    type Indiv = <AP::P as Policy>::Indiv;

    type IndivME = <AP::P as Policy>::IndivME;

    type IndivM = <AP::P as Policy>::IndivM;

    type PopE = <AP::P as Policy>::PopSE;

    type Pop = <AP::P as Policy>::PopS;

    type PopSME = <AP::P as Policy>::PopSME;

    type PopSM = <AP::P as Policy>::PopSM;
}

/// The fitness stage's view of an [`APolicy`].
pub struct PopFitPolicy<AP>(PhantomData<AP>) where AP: APolicy;

impl<AP> standard::Policy for PopFitPolicy<AP> where AP: APolicy {
    type LocalContext = LocalContext<AP::P>;

    type Exec = AP::Exec;

    type Indiv = <AP::P as Policy>::Indiv;

    type Fit = <AP::P as Policy>::Fit;

    type IndivME = <AP::P as Policy>::IndivME;

    type IndivM = <AP::P as Policy>::IndivM;

    type PopE = <AP::P as Policy>::PopSE;

    type Pop = <AP::P as Policy>::PopS;

    type FitsE = <AP::P as Policy>::FitsE;

    type Fits = <AP::P as Policy>::Fits;

    type FitsME = <AP::P as Policy>::FitsME;

    type FitsM = <AP::P as Policy>::FitsM;
}

/// The (μ,λ) skeleton: initialize a population of λ individuals, evaluate
/// it, and stop there — selection and breeding are the host's.
pub struct MuCommaLambda<AP> where AP: APolicy {
    lc_builder: AP::LCBuilder,
    pop_init: limited::LimitedPopulationInit<PopInitPolicy<AP>>,
    pop_fit: standard::StandardPopulationFit<PopFitPolicy<AP>>,
}

impl<AP> MuCommaLambda<AP> where AP: APolicy {
    /// The target population size λ.
    pub closed spec fn lambda_spec(&self) -> nat {
        self.pop_init.limit_spec()
    }

    pub fn new(lc_builder: AP::LCBuilder, lambda: usize) -> (r: MuCommaLambda<AP>)
        ensures
            r.lambda_spec() == lambda,
    {
        MuCommaLambda {
            lc_builder,
            pop_init: limited::LimitedPopulationInit::new(lambda),
            pop_fit: standard::StandardPopulationFit::new(),
        }
    }
}

/// Everything the skeleton can report. `Dummy` stands where the host's
/// selection and breeding would continue.
pub enum Error<AP> where AP: APolicy {
    ExecutorStart(
        ExecutorNewError<<AP::Exec as Executor>::E, <AP::LCBuilder as LocalContextBuilder>::E>,
    ),
    PopulationInit(limited::ErrorP<PopInitPolicy<AP>>),
    PopulationFit(standard::ErrorP<PopFitPolicy<AP>>),
    Dummy,
}

impl<AP> Algorithm for MuCommaLambda<AP> where AP: APolicy {
    type Exec = AP::Exec;

    type Res = <AP::P as Policy>::Indiv;

    type Err = Error<AP>;

    /// Selection and breeding are out of the engine's scope, so the
    /// skeleton never finds a best individual: no result is ever returned.
    closed spec fn run_ok(&self, res: <AP::P as Policy>::Indiv) -> bool {
        false
    }

    /// Every error the skeleton surfaces is one of its collaborators'
    /// own: a failed start, a failed initialization, a failed evaluation
    /// of the freshly initialized population, or — only after both stages
    /// succeeded — the deliberate stop where breeding would continue.
    closed spec fn run_err(&self, workers: nat, err: Error<AP>) -> bool {
        match err {
            Error::ExecutorStart(e) => (match e {
                ExecutorNewError::LocalContextBuilder(_) => AP::LCBuilder::build_can_fail(),
                ExecutorNewError::Executor(_) => AP::Exec::exec_can_fail(),
            }),
            Error::PopulationInit(e) => self.pop_init.init_err(workers, e),
            Error::PopulationFit(e) => exists|pop: <AP::P as Policy>::PopS|
                self.pop_init.init_ok(pop) && #[trigger] self.pop_fit.fit_err(pop, workers, e),
            Error::Dummy => exists|pop: <AP::P as Policy>::PopS, fits: <AP::P as Policy>::Fits|
                self.pop_init.init_ok(pop) && #[trigger] self.pop_fit.fit_ok(pop, fits),
        }
    }

    fn run(self, not_started_executor: AP::Exec) -> (r: Result<<AP::P as Policy>::Indiv, Error<AP>>)
    {
        let this = self;
        let mut executor = match not_started_executor.try_start(this.lc_builder) {
            Ok(e) => e,
            Err(e) => {
                return Err(Error::ExecutorStart(e));
            },
        };
        let init_population = match this.pop_init.init::<crate::exec::amount::ByEqualChunks>(
            &mut executor,
        ) {
            Ok(p) => p,
            Err(e) => {
                return Err(Error::PopulationInit(e));
            },
        };
        let current_population = init_population;
        let fit_results = match this.pop_fit.fit::<crate::exec::amount::ByEqualChunks>(
            &current_population,
            &mut executor,
        ) {
            Ok(f) => f,
            Err(e) => {
                return Err(Error::PopulationFit(e));
            },
        };
        Err(Error::Dummy)
    }
}

} // verus!
