use gen_lsb::IndexRange;
use gen_lsb::pop::individual;
use gen_lsb::pop::population::{Population, PopulationEmpty};
use gen_lsb::pop::population::vec::Error;
use gen_lsb::pop::population::manager::PopulationJobs;
use gen_lsb::pop::population::manager::simple::{self, SimplePopulationJobs};
use gen_lsb::set::ItemSet;

#[derive(PartialEq, Eq, Debug)]
struct TestC(u8);

impl individual::chromosome::Chromosome for TestC {
    type E = ();
}

#[derive(PartialEq, Eq, Debug)]
struct TestI(TestC);

impl individual::Individual for TestI {
    type C = TestC;
    type E = ();

    fn get_chromosome(&self) -> &TestC {
        &self.0
    }
}

struct TestIM(u8);

impl individual::manager::IndividualManager for TestIM {
    type I = TestI;
    type FI = ();
    type E = ();

    fn generate_can_fail() -> bool {
        false
    }

    fn fitness_can_fail() -> bool {
        false
    }

    fn generated(_indiv: TestI) -> bool {
        true
    }

    fn fitness_of(_indiv: TestI, _fit: ()) -> bool {
        true
    }

    fn generate(&mut self) -> Result<TestI, ()> {
        self.0 += 1;
        Ok(TestI(TestC(self.0)))
    }

    fn fitness(&mut self, _individual: &TestI) -> Result<(), ()> {
        Ok(())
    }
}

fn run_population_basic<P>(mut pop: P)
where
    P: Population<I = TestI, E = Error>,
{
    assert_eq!(pop.size(), 0);
    assert_eq!(pop.add(TestI(TestC(0))), Ok(()));
    assert_eq!(pop.size(), 1);
    assert_eq!(pop.add(TestI(TestC(1))), Ok(()));
    assert_eq!(pop.size(), 2);
    assert_eq!(pop.get(0), Ok(&TestI(TestC(0))));
    assert_eq!(pop.get(1), Ok(&TestI(TestC(1))));
    assert_eq!(pop.get(2), Err(Error::IndexOutOfRange { index: 2, total: 2 }));
    assert_eq!(pop.del(0), Ok(TestI(TestC(0))));
    assert_eq!(pop.size(), 1);
    assert_eq!(pop.get(0), Ok(&TestI(TestC(1))));
}

#[test]
fn population_vec_basic() {
    let pop: Vec<TestI> = PopulationEmpty::make_empty().unwrap();
    run_population_basic(pop);
}

#[test]
fn merge() {
    let v1 = vec![TestI(TestC(1)), TestI(TestC(2)), TestI(TestC(3))];
    let v2 = vec![TestI(TestC(4)), TestI(TestC(5))];
    assert_eq!(
        Population::merge_many(vec![v1, v2]),
        Ok(Some(vec![
            TestI(TestC(1)),
            TestI(TestC(2)),
            TestI(TestC(3)),
            TestI(TestC(4)),
            TestI(TestC(5)),
        ]))
    );
    let empty: Vec<Vec<TestI>> = Vec::new();
    assert_eq!(Population::merge_many(empty), Ok(None));
}

#[test]
fn init() {
    let jobs: SimplePopulationJobs<Vec<TestI>, TestIM> = SimplePopulationJobs::new(10);
    let mut im = TestIM(0);
    let p = jobs.init(&mut im, &mut IndexRange::new(0, 100)).unwrap();
    for i in 0..10 {
        assert_eq!(ItemSet::get(&p, i), Ok(&TestI(TestC(i as u8 + 1))));
    }
    assert_eq!(
        ItemSet::get(&p, 10),
        Err(gen_lsb::set::vec::Error::IndexOutOfRange { index: 10, total: 10 })
    );
}

#[test]
fn init_eof() {
    let jobs: SimplePopulationJobs<Vec<TestI>, TestIM> = SimplePopulationJobs::new(10);
    let mut im = TestIM(0);
    assert_eq!(
        jobs.init(&mut im, &mut IndexRange::new(0, 8)),
        Err(simple::Error::UnexpectedEndOfSourceIterator)
    );
}

#[test]
fn fitness_pairs() {
    let jobs: SimplePopulationJobs<Vec<TestI>, TestIM> = SimplePopulationJobs::new(10);
    let mut im = TestIM(0);
    let a = TestI(TestC(3));
    let b = TestI(TestC(4));
    let batch: Vec<(usize, &TestI)> = vec![(0, &a), (1, &b)];
    let fs = jobs.fitness(&mut im, &batch).unwrap();
    assert_eq!(fs, vec![(0, ()), (1, ())]);
}
