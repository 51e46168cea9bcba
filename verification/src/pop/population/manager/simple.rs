use vstd::prelude::*;
use core::marker::PhantomData;
use super::PopulationJobs;
use super::super::super::super::set::{ItemSet, SetEmpty};
use super::super::super::individual::Individual;
use super::super::super::individual::manager::IndividualManager;
use crate::IndexSource;

verus! {

/// Population jobs that fill a population up to a fixed limit: a worker
/// draws indices from its source and generates one individual for every
/// index below the limit; the first index at or over the limit ends its
/// share.
pub struct SimplePopulationJobs<P, IM> {
    limit: usize,
    _marker: PhantomData<(P, IM)>,
}

impl<P, IM> SimplePopulationJobs<P, IM> {
    /// The population size this job fills up to.
    pub closed spec fn limit_spec(&self) -> nat {
        self.limit as nat
    }

    pub fn new(limit: usize) -> (r: SimplePopulationJobs<P, IM>)
        ensures
            r.limit_spec() == limit,
    {
        SimplePopulationJobs { limit, _marker: PhantomData }
    }
}

#[derive(Clone, Copy, PartialEq, Eq, Debug)]
pub enum Error<PE, IME> {
    InitPopulation(PE),
    InitIndividualManager(IME),
    UnexpectedEndOfSourceIterator,
}

/// Whether a source yields an index at or over the limit before it
/// exhausts: exactly then a limited fill run ends with a population.
pub open spec fn reaches_limit<IT: IndexSource>(src: IT, limit: nat) -> bool
    decreases src.fuel(),
    via reaches_limit_decreases::<IT>
{
    match src.next_val() {
        None => false,
        Some(v) => (v as nat) >= limit || reaches_limit(src.advanced(), limit),
    }
}

#[via_fn]
proof fn reaches_limit_decreases<IT: IndexSource>(src: IT, limit: nat) {
    if src.next_val() is Some {
        src.fuel_decreases();
    }
}

/// How many indices strictly below the limit a source yields before its
/// first index at or over it: the size of the population a limited fill
/// run builds.
pub open spec fn below_limit_count<IT: IndexSource>(src: IT, limit: nat) -> nat
    decreases src.fuel(),
    via below_limit_count_decreases::<IT>
{
    match src.next_val() {
        None => 0,
        Some(v) => {
            if (v as nat) >= limit {
                0
            } else {
                1 + below_limit_count(src.advanced(), limit)
            }
        },
    }
}

#[via_fn]
proof fn below_limit_count_decreases<IT: IndexSource>(src: IT, limit: nat) {
    if src.next_val() is Some {
        src.fuel_decreases();
    }
}

impl<I, P, IM, PE> PopulationJobs for SimplePopulationJobs<P, IM> where
    I: Individual,
    IM: IndividualManager<I = I>,
    P: ItemSet<T = I, E = PE> + SetEmpty<E = PE>,
 {
    type I = I;

    type P = P;

    type FI = IM::FI;

    type IM = IM;

    type FS = Vec<(usize, IM::FI)>;

    type E = Error<PE, IM::E>;

    open spec fn init_can_fail() -> bool {
        true
    }

    open spec fn fitness_jobs_can_fail() -> bool {
        false
    }

    #[verifier::loop_isolation(false)]
    fn init<IT: IndexSource>(&self, individual_manager: &mut IM, indices: &mut IT) -> (r: Result<
        P,
        Error<PE, IM::E>,
    >)
        ensures
            (match r {
                Ok(pop) => reaches_limit(*old(indices), self.limit_spec()) && pop.items().len()
                    == below_limit_count(*old(indices), self.limit_spec()),
                Err(e) => (match e {
                    Error::UnexpectedEndOfSourceIterator => !reaches_limit(
                        *old(indices),
                        self.limit_spec(),
                    ),
                    Error::InitPopulation(_) => <P as SetEmpty>::empty_can_fail() || <P as ItemSet>::add_can_fail(),
                    Error::InitIndividualManager(_) => IM::generate_can_fail(),
                }),
            }),
            !(<P as SetEmpty>::empty_can_fail() || <P as ItemSet>::add_can_fail()
                || IM::generate_can_fail()) && reaches_limit(*old(indices), self.limit_spec())
                ==> r matches Ok(_),
    {
        let ghost src0 = *indices;
        let mut population = match P::make_empty() {
            Ok(p) => p,
            Err(e) => {
                return Err(Error::InitPopulation(e));
            },
        };
        loop
            invariant
                forall|j: int|
                    0 <= j < population.items().len() ==> IM::generated(
                        #[trigger] population.items()[j],
                    ),
                reaches_limit(src0, self.limit_spec()) == reaches_limit(
                    *indices,
                    self.limit_spec(),
                ),
                below_limit_count(src0, self.limit_spec()) == population.items().len()
                    + below_limit_count(*indices, self.limit_spec()),
            decreases indices.fuel(),
        {
            let ghost pre = *indices;
            match indices.next() {
                None => {
                    proof {
                        assert(!reaches_limit(pre, self.limit_spec()));
                    }
                    return Err(Error::UnexpectedEndOfSourceIterator);
                },
                Some(i) => {
                    if i >= self.limit {
                        proof {
                            assert(reaches_limit(pre, self.limit_spec()));
                            assert(below_limit_count(pre, self.limit_spec()) == 0);
                        }
                        return Ok(population);
                    }
                    let indiv = match individual_manager.generate() {
                        Ok(indiv) => indiv,
                        Err(e) => {
                            return Err(Error::InitIndividualManager(e));
                        },
                    };
                    match population.add(indiv) {
                        Ok(_) => {},
                        Err(e) => {
                            return Err(Error::InitPopulation(e));
                        },
                    }
                    proof {
                        assert(reaches_limit(pre, self.limit_spec()) == reaches_limit(
                            *indices,
                            self.limit_spec(),
                        ));
                        assert(below_limit_count(pre, self.limit_spec()) == 1 + below_limit_count(
                            *indices,
                            self.limit_spec(),
                        ));
                    }
                },
            }
        }
    }

    #[verifier::loop_isolation(false)]
    fn fitness(&self, individual_manager: &mut IM, individuals: &Vec<(usize, &I)>) -> (r: Result<
        Vec<(usize, IM::FI)>,
        Error<PE, IM::E>,
    >) {
        let mut results: Vec<(usize, IM::FI)> = Vec::new();
        let mut j: usize = 0;
        while j < individuals.len()
            invariant
                0 <= j <= individuals@.len(),
                results@.len() == j,
                forall|t: int|
                    0 <= t < j ==> (#[trigger] results@[t]).0 == individuals@[t].0
                        && IM::fitness_of(*individuals@[t].1, results@[t].1),
            decreases individuals@.len() - j,
        {
            let (index, indiv) = (individuals[j].0, individuals[j].1);
            let fit = match individual_manager.fitness(indiv) {
                Ok(f) => f,
                Err(e) => {
                    return Err(Error::InitIndividualManager(e));
                },
            };
            results.push((index, fit));
            j = j + 1;
        }
        Ok(results)
    }
}

} // verus!
