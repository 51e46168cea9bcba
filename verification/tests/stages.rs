use gen_lsb::exec::amount::{Alternately, ByEqualChunks};
use gen_lsb::exec::sequential::SequentialExecutor;
use gen_lsb::exec::{Executor, ExecutorJobError, JobExecuteError, LocalContextBuilder, WorkAmount};
use gen_lsb::pop::individual::IndividualManager;
use gen_lsb::pop::init::PopulationInit;
use gen_lsb::pop::init::limited::{self, GenerateError, LimitedPopulationInit};
use gen_lsb::pop::fit::PopulationFit;
use gen_lsb::pop::fit::standard::{self, StandardPopulationFit};
use gen_lsb::set::vec::{Error as VecSetError, Manager};
use gen_lsb::set::sort::{self, sort};

fn next_rand(state: &mut u64) -> u64 {
    let mut x = *state ^ 0x9e3779b97f4a7c15;
    x ^= x << 13;
    x ^= x >> 7;
    x ^= x << 17;
    *state = x;
    x
}

struct IndivManager;

impl IndividualManager for IndivManager {
    type I = usize;
    type FI = f64;
    type E = ();

    fn generate_can_fail() -> bool {
        false
    }

    fn fitness_can_fail() -> bool {
        false
    }

    fn generated(_index: usize, _indiv: usize) -> bool {
        true
    }

    fn fitness_of(_indiv: usize, _fit: f64) -> bool {
        true
    }

    fn generate(&mut self, index: usize) -> Result<usize, ()> {
        Ok(index)
    }

    fn fitness(&mut self, indiv: &usize) -> Result<f64, ()> {
        Ok(1.0 / *indiv as f64)
    }
}

struct LocalContext {
    set_manager: Manager<usize>,
    fits_manager: Manager<(f64, usize)>,
    indiv_manager: IndivManager,
}

impl limited::RetrievePopulationManager for LocalContext {
    type PopM = Manager<usize>;

    fn retrieve(&mut self) -> &mut Manager<usize> {
        &mut self.set_manager
    }
}

impl limited::RetrieveIndividualManager for LocalContext {
    type IM = IndivManager;

    fn retrieve(&mut self) -> &mut IndivManager {
        &mut self.indiv_manager
    }
}

impl standard::RetrieveFitsManager for LocalContext {
    type FitsM = Manager<(f64, usize)>;

    fn retrieve(&mut self) -> &mut Manager<(f64, usize)> {
        &mut self.fits_manager
    }
}

impl standard::RetrieveIndividualManager for LocalContext {
    type IM = IndivManager;

    fn retrieve(&mut self) -> &mut IndivManager {
        &mut self.indiv_manager
    }
}

impl sort::RetrieveSortManager for LocalContext {
    type SortM = Manager<usize>;

    fn retrieve(&mut self) -> &mut Manager<usize> {
        &mut self.set_manager
    }
}

impl sort::RetrieveSetManager for LocalContext {
    type SetM = Manager<usize>;

    fn retrieve(&mut self) -> &mut Manager<usize> {
        &mut self.set_manager
    }
}

struct Builder;

impl LocalContextBuilder for Builder {
    type LC = LocalContext;
    type E = ();

    fn build_can_fail() -> bool {
        false
    }

    fn build(&mut self) -> Result<LocalContext, ()> {
        Ok(LocalContext {
            set_manager: Manager::new(),
            fits_manager: Manager::new(),
            indiv_manager: IndivManager,
        })
    }
}

struct TestPolicy;

impl limited::Policy for TestPolicy {
    type LocalContext = LocalContext;
    type Exec = SequentialExecutor<LocalContext>;
    type Indiv = usize;
    type IndivME = ();
    type IndivM = IndivManager;
    type PopE = VecSetError;
    type Pop = Vec<usize>;
    type PopSME = ();
    type PopSM = Manager<usize>;
}

impl standard::Policy for TestPolicy {
    type LocalContext = LocalContext;
    type Exec = SequentialExecutor<LocalContext>;
    type Indiv = usize;
    type Fit = f64;
    type IndivME = ();
    type IndivM = IndivManager;
    type PopE = VecSetError;
    type Pop = Vec<usize>;
    type FitsE = VecSetError;
    type Fits = Vec<(f64, usize)>;
    type FitsME = ();
    type FitsM = Manager<(f64, usize)>;
}

fn started_executor(workers: usize) -> SequentialExecutor<LocalContext> {
    SequentialExecutor::new(workers).try_start(Builder).unwrap()
}

#[test]
fn parallel_generator() {
    let mut exec = started_executor(4);

    let initializer: LimitedPopulationInit<TestPolicy> = LimitedPopulationInit::new(1024);
    let mut population = initializer.init::<Alternately>(&mut exec).unwrap();
    population.sort();
    assert_eq!(population, (0..1024).collect::<Vec<_>>());
}

#[test]
fn equal_chunks_generator() {
    let mut exec = started_executor(4);

    let initializer: LimitedPopulationInit<TestPolicy> = LimitedPopulationInit::new(1024);
    let mut population = initializer.init::<ByEqualChunks>(&mut exec).unwrap();
    population.sort();
    assert_eq!(population, (0..1024).collect::<Vec<_>>());
}

#[test]
fn single_worker_generator() {
    let mut exec = started_executor(1);

    let initializer: LimitedPopulationInit<TestPolicy> = LimitedPopulationInit::new(100);
    let population = initializer.init::<ByEqualChunks>(&mut exec).unwrap();
    assert_eq!(population, (0..100).collect::<Vec<_>>());
}

#[test]
fn zero_workers_init() {
    let mut exec = started_executor(0);

    let initializer: LimitedPopulationInit<TestPolicy> = LimitedPopulationInit::new(5);
    let outcome = initializer.init::<ByEqualChunks>(&mut exec);
    assert!(matches!(outcome, Err(limited::Error::NoOutputPopulation)));
}

#[test]
fn empty_init_request() {
    let mut exec = started_executor(4);

    let initializer: LimitedPopulationInit<TestPolicy> = LimitedPopulationInit::new(0);
    let outcome = initializer.init::<ByEqualChunks>(&mut exec);
    assert!(matches!(outcome, Err(limited::Error::NoOutputPopulation)));
}

#[test]
fn parallel_fitness() {
    let mut exec = started_executor(4);

    let population = (0..1024).collect::<Vec<_>>();

    let fitness_calculator: StandardPopulationFit<TestPolicy> = StandardPopulationFit::new();
    let mut fit_results = fitness_calculator.fit::<Alternately>(&population, &mut exec).unwrap();
    fit_results.sort_by_key(|v| v.1);
    assert_eq!(fit_results.iter().map(|&(_, i)| i).collect::<Vec<_>>(), population);
}

#[test]
fn empty_fitness_request() {
    let mut exec = started_executor(4);

    let population: Vec<usize> = Vec::new();
    let fitness_calculator: StandardPopulationFit<TestPolicy> = StandardPopulationFit::new();
    let outcome = fitness_calculator.fit::<ByEqualChunks>(&population, &mut exec);
    assert!(matches!(outcome, Err(standard::Error::NoOutputFitnessValues)));
}

#[test]
fn parallel_sort() {
    let total = 131072;
    let mut state: u64 = 3;
    let values: Vec<u64> = (0..total).map(|_| next_rand(&mut state)).collect();

    let mut exec = started_executor(4);

    let values_clone = values.clone();
    let sorted_indices: Vec<usize> = sort(
        ByEqualChunks::new(values.len()),
        move |ia: usize, ib: usize| values_clone[ia] < values_clone[ib],
        &mut exec,
    )
    .unwrap();

    assert_eq!(sorted_indices.len(), total);
    for i in 1..total {
        assert!(values[sorted_indices[i - 1]] <= values[sorted_indices[i]]);
    }
}

#[test]
fn empty_sort_request() {
    let mut exec = started_executor(3);
    let outcome: Result<Vec<usize>, _> = sort(
        ByEqualChunks::new(0),
        |ia: usize, ib: usize| ia < ib,
        &mut exec,
    );
    assert!(matches!(outcome, Err(sort::Error::EmptySet)));
}

struct FlakyManager {
    fail_from: usize,
}

impl IndividualManager for FlakyManager {
    type I = usize;
    type FI = f64;
    type E = u32;

    fn generate_can_fail() -> bool {
        true
    }

    fn fitness_can_fail() -> bool {
        true
    }

    fn generated(_index: usize, _indiv: usize) -> bool {
        true
    }

    fn fitness_of(_indiv: usize, _fit: f64) -> bool {
        true
    }

    fn generate(&mut self, index: usize) -> Result<usize, u32> {
        if index < self.fail_from {
            Ok(index)
        } else {
            Err(7)
        }
    }

    fn fitness(&mut self, _indiv: &usize) -> Result<f64, u32> {
        Err(7)
    }
}

struct FlakyContext {
    set_manager: Manager<usize>,
    indiv_manager: FlakyManager,
}

impl limited::RetrievePopulationManager for FlakyContext {
    type PopM = Manager<usize>;

    fn retrieve(&mut self) -> &mut Manager<usize> {
        &mut self.set_manager
    }
}

impl limited::RetrieveIndividualManager for FlakyContext {
    type IM = FlakyManager;

    fn retrieve(&mut self) -> &mut FlakyManager {
        &mut self.indiv_manager
    }
}

struct FlakyBuilder;

impl LocalContextBuilder for FlakyBuilder {
    type LC = FlakyContext;
    type E = ();

    fn build_can_fail() -> bool {
        false
    }

    fn build(&mut self) -> Result<FlakyContext, ()> {
        Ok(FlakyContext { set_manager: Manager::new(), indiv_manager: FlakyManager { fail_from: 512 } })
    }
}

struct FlakyPolicy;

impl limited::Policy for FlakyPolicy {
    type LocalContext = FlakyContext;
    type Exec = SequentialExecutor<FlakyContext>;
    type Indiv = usize;
    type IndivME = u32;
    type IndivM = FlakyManager;
    type PopE = VecSetError;
    type Pop = Vec<usize>;
    type PopSME = ();
    type PopSM = Manager<usize>;
}

#[test]
fn one_worker_error_is_surfaced_alone() {
    // two workers on 0..1024 by equal chunks: only the second worker's
    // share reaches the failing indices, so exactly its error comes back,
    // not wrapped in Several.
    let exec: SequentialExecutor<FlakyContext> = SequentialExecutor::new(2);
    let mut exec = exec.try_start(FlakyBuilder).unwrap();

    let initializer: LimitedPopulationInit<FlakyPolicy> = LimitedPopulationInit::new(1024);
    let outcome = initializer.init::<ByEqualChunks>(&mut exec);
    assert!(matches!(
        outcome,
        Err(limited::Error::Executor(ExecutorJobError::Job(JobExecuteError::Mapping(
            GenerateError::IndividualManager(7),
        ))))
    ));
}

#[test]
fn several_worker_errors_are_kept() {
    // four workers on 0..2048 by equal chunks: the last three shares all
    // reach failing indices, so all three errors come back together.
    let exec: SequentialExecutor<FlakyContext> = SequentialExecutor::new(4);
    let mut exec = exec.try_start(FlakyBuilder).unwrap();

    let initializer: LimitedPopulationInit<FlakyPolicy> = LimitedPopulationInit::new(2048);
    let outcome = initializer.init::<ByEqualChunks>(&mut exec);
    match outcome {
        Err(limited::Error::Executor(ExecutorJobError::Several(errors))) => {
            assert_eq!(errors.len(), 3);
        },
        _ => {
            panic!("expected an aggregated failure");
        },
    }
}
