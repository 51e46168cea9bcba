use gen_lsb::algo::mu_comma_lambda::{self, LocalContext, MuCommaLambda};
use gen_lsb::algo::Algorithm;
use gen_lsb::exec::sequential::SequentialExecutor;
use gen_lsb::exec::LocalContextBuilder;
use gen_lsb::pop::individual::IndividualManager;
use gen_lsb::set::vec::{Error as VecSetError, Manager};

struct IndivManager;

impl IndividualManager for IndivManager {
    type I = usize;
    type FI = u64;
    type E = ();

    fn generate_can_fail() -> bool {
        false
    }

    fn fitness_can_fail() -> bool {
        false
    }

    fn generated(_index: usize, _indiv: usize) -> bool {
        true
    }

    fn fitness_of(_indiv: usize, _fit: u64) -> bool {
        true
    }

    fn generate(&mut self, index: usize) -> Result<usize, ()> {
        Ok(index)
    }

    fn fitness(&mut self, indiv: &usize) -> Result<u64, ()> {
        Ok(u64::MAX - *indiv as u64)
    }
}

struct SkeletonPolicy;

impl mu_comma_lambda::Policy for SkeletonPolicy {
    type Indiv = usize;
    type IndivME = ();
    type IndivM = IndivManager;
    type PopSE = VecSetError;
    type PopS = Vec<usize>;
    type PopSME = ();
    type PopSM = Manager<usize>;
    type Fit = u64;
    type FitsE = VecSetError;
    type Fits = Vec<(u64, usize)>;
    type FitsME = ();
    type FitsM = Manager<(u64, usize)>;
}

struct Builder;

impl LocalContextBuilder for Builder {
    type LC = LocalContext<SkeletonPolicy>;
    type E = ();

    fn build_can_fail() -> bool {
        false
    }

    fn build(&mut self) -> Result<LocalContext<SkeletonPolicy>, ()> {
        Ok(LocalContext {
            indiv_manager: IndivManager,
            pop_set_manager: Manager::new(),
            fits_set_manager: Manager::new(),
        })
    }
}

struct SkeletonAPolicy;

impl mu_comma_lambda::APolicy for SkeletonAPolicy {
    type P = SkeletonPolicy;
    type LCBuilder = Builder;
    type Exec = SequentialExecutor<LocalContext<SkeletonPolicy>>;
}

#[test]
fn skeleton_runs_both_stages() {
    let algorithm: MuCommaLambda<SkeletonAPolicy> = MuCommaLambda::new(Builder, 256);
    let exec: SequentialExecutor<LocalContext<SkeletonPolicy>> = SequentialExecutor::new(4);
    let outcome = algorithm.run(exec);
    // selection and breeding are out of the engine's scope: a run that got
    // through both stages reports the deliberate stop.
    assert!(matches!(outcome, Err(mu_comma_lambda::Error::Dummy)));
}
