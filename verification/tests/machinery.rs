use gen_lsb::{Algorithm, AlgorithmLayout, ErrorsLayout, RunResult};
use gen_lsb::pop::individual;
use gen_lsb::pop::population::manager::simple::SimplePopulationJobs;
use gen_lsb::pop::population::manager::PopulationManager;

#[derive(PartialEq, Eq, Debug)]
struct TestC(u8);

impl individual::chromosome::Chromosome for TestC {
    type E = ();
}

#[derive(PartialEq, Eq, Debug)]
struct TestI(TestC);

impl individual::Individual for TestI {
    type C = TestC;
    type E = ();

    fn get_chromosome(&self) -> &TestC {
        &self.0
    }
}

struct TestIM(u8);

impl individual::manager::IndividualManager for TestIM {
    type I = TestI;
    type FI = ();
    type E = ();

    fn generate_can_fail() -> bool {
        false
    }

    fn fitness_can_fail() -> bool {
        false
    }

    fn generated(_indiv: TestI) -> bool {
        true
    }

    fn fitness_of(_indiv: TestI, _fit: ()) -> bool {
        true
    }

    fn generate(&mut self) -> Result<TestI, ()> {
        self.0 = self.0.wrapping_add(1);
        Ok(TestI(TestC(self.0)))
    }

    fn fitness(&mut self, _individual: &TestI) -> Result<(), ()> {
        Ok(())
    }
}

struct TestPM {
    jobs: SimplePopulationJobs<Vec<TestI>, TestIM>,
}

impl PopulationManager for TestPM {
    type PJ = SimplePopulationJobs<Vec<TestI>, TestIM>;
    type IM = TestIM;
    type E = ();

    fn make_im_can_fail() -> bool {
        false
    }

    fn make_individual_manager(&self) -> Result<TestIM, ()> {
        Ok(TestIM(0))
    }

    fn jobs(&self) -> &SimplePopulationJobs<Vec<TestI>, TestIM> {
        &self.jobs
    }
}

#[derive(Debug)]
struct TestEL;

impl ErrorsLayout for TestEL {
    type CE = ();
    type IE = ();
    type IME = ();
    type PE = gen_lsb::pop::population::vec::Error;
    type PME = ();
    type PJE = gen_lsb::pop::population::manager::simple::Error<gen_lsb::set::vec::Error, ()>;
}

struct TestAL;

impl AlgorithmLayout for TestAL {
    type EL = TestEL;
    type C = TestC;
    type I = TestI;
    type IM = TestIM;
    type P = Vec<TestI>;
    type PJ = SimplePopulationJobs<Vec<TestI>, TestIM>;
    type PM = TestPM;

    fn views_agree(_p: Vec<TestI>) {}
}

#[test]
fn run_protocol() {
    let pm = TestPM { jobs: SimplePopulationJobs::new(10) };
    let mut algorithm: Algorithm<TestAL> = Algorithm::new(pm, 3).unwrap();
    let outcome = algorithm.run();
    assert!(matches!(outcome, Ok(RunResult::PopLimitExceeded)));
    algorithm.shutdown().unwrap();
}

#[test]
fn run_with_no_workers() {
    let pm = TestPM { jobs: SimplePopulationJobs::new(10) };
    let mut algorithm: Algorithm<TestAL> = Algorithm::new(pm, 0).unwrap();
    // with nothing to merge, the run reports the empty population
    let outcome = algorithm.run();
    assert!(matches!(outcome, Err(gen_lsb::Error::UnexpectedEmptyPopulation)));
}

#[test]
fn population_initialize_needs_started_workers() {
    let pm = TestPM { jobs: SimplePopulationJobs::new(10) };
    let mut algorithm: Algorithm<TestAL> = Algorithm::new(pm, 2).unwrap();
    // workers are still idle: the initialize command is a protocol error
    // for every one of them, and both errors are kept.
    let outcome = algorithm.population_initialize();
    match outcome {
        Err(gen_lsb::Error::Several(errors)) => {
            assert_eq!(errors.len(), 2);
        },
        _ => {
            panic!("expected both idle workers to refuse");
        },
    }
}
