//! The core of a parallel evolutionary-search engine: a fork/partition/
//! join executor over an integer work amount, the two strategies that
//! divide the range among workers, append-only set containers with their
//! union and merge combinators, and the population stages built on them —
//! initialization, fitness evaluation and sorting. The master/worker
//! command protocol is realized here in sequential form; a threaded host
//! drives the same steps behind channels.

pub mod algo;
pub mod exec;
pub mod pop;
pub mod set;

mod seq_lemmas;

use vstd::prelude::*;
use vstd::pervasive::unreached;
use set::ItemSet;
use pop::individual::Individual;
use pop::individual::chromosome::Chromosome;
use pop::individual::manager::IndividualManager;
use pop::population::manager::{PopulationJobs, PopulationManager};
use pop::population::Population;

verus! {

/// The error types a host binds the engine's layers to.
pub trait ErrorsLayout {
    type CE;

    type IE;

    type IME;

    type PE;

    type PME;

    type PJE;
}

/// The full set of types the master/worker machinery runs over.
pub trait AlgorithmLayout {
    type EL: ErrorsLayout;

    type C: Chromosome<E = <Self::EL as ErrorsLayout>::CE>;

    type I: Individual<C = Self::C, E = <Self::EL as ErrorsLayout>::IE>;

    type IM: IndividualManager<I = Self::I, E = <Self::EL as ErrorsLayout>::IME>;

    type P: ItemSet<T = Self::I> + Population<I = Self::I, E = <Self::EL as ErrorsLayout>::PE>;

    /// Law a layout must bring: its population type models the same
    /// sequence as a set and as a population.
    proof fn views_agree(p: Self::P)
        ensures
            p.items() == p.individuals(),
    ;

    type PJ: PopulationJobs<I = Self::I, P = Self::P, IM = Self::IM, E = <Self::EL as ErrorsLayout>::PJE>;

    type PM: PopulationManager<PJ = Self::PJ, IM = Self::IM, E = <Self::EL as ErrorsLayout>::PME>;
}

/// Everything that can go wrong across the master/worker machinery.
/// `Several` aggregates the failures of more than one worker.
#[derive(Debug)]
pub enum Error<EL> where EL: ErrorsLayout {
    SpawnSlave(String),
    Chromosome(EL::CE),
    Individual(EL::IE),
    IndividualManager(EL::IME),
    Population(EL::PE),
    PopulationManager(EL::PME),
    PopulationJobs(EL::PJE),
    UnexpectedMasterCommand,
    UnexpectedSlaveReply,
    UnexpectedEmptyPopulation,
    Several(Vec<Error<EL>>),
}

/// A command the master addresses to one worker. The payloads travel
/// beside the command: the population manager with `SlaveStart`, the
/// shared index counter with `PopulationInitialize`.
#[derive(Clone, Copy, PartialEq, Eq, Debug)]
pub enum Command {
    SlaveStart,
    PopulationInitialize,
    SlaveStop,
    SlaveQuit,
}

/// A worker's reply to one command.
#[derive(Debug)]
pub enum Report<AL> where AL: AlgorithmLayout {
    SlaveStarted,
    PopulationInitialized(AL::P),
    SlaveStopped,
    SlaveQuitted,
}

impl<AL> Report<AL> where AL: AlgorithmLayout {
    /// Whether two replies answer the same kind of command.
    pub open spec fn same_kind(&self, other: &Report<AL>) -> bool {
        match (self, other) {
            (Report::SlaveStarted, Report::SlaveStarted) => true,
            (Report::PopulationInitialized(_), Report::PopulationInitialized(_)) => true,
            (Report::SlaveStopped, Report::SlaveStopped) => true,
            (Report::SlaveQuitted, Report::SlaveQuitted) => true,
            _ => false,
        }
    }

    /// Takes the population out of an initialization reply.
    pub fn population_results(self) -> (r: AL::P)
        requires
            self matches Report::PopulationInitialized(_),
        ensures
            self matches Report::PopulationInitialized(p) && r == p,
    {
        match self {
            Report::PopulationInitialized(population) => population,
            _ => unreached(),
        }
    }

    pub fn same_type(&self, other: &Report<AL>) -> (r: bool)
        ensures
            r == self.same_kind(other),
    {
        match (self, other) {
            (Report::SlaveStarted, Report::SlaveStarted) => true,
            (Report::PopulationInitialized(..), Report::PopulationInitialized(..)) => true,
            (Report::SlaveStopped, Report::SlaveStopped) => true,
            (Report::SlaveQuitted, Report::SlaveQuitted) => true,
            _ => false,
        }
    }
}

/// A stream of work indices for demand-driven consumption. The model is
/// deterministic: `next_val` is what the next draw returns and
/// `advanced` is the stream afterwards.
pub trait IndexSource: Sized {
    /// What the next draw returns. The defaults here describe a source
    /// that is already exhausted; a verified source overrides all three.
    open spec fn next_val(&self) -> Option<usize> {
        None
    }

    /// The stream after one draw.
    open spec fn advanced(&self) -> Self {
        *self
    }

    /// A bound on the draws left: it shrinks with every successful draw,
    /// so every source is eventually exhausted.
    open spec fn fuel(&self) -> nat {
        0
    }

    fn next(&mut self) -> (r: Option<usize>)
        ensures
            r == old(self).next_val(),
            *final(self) == old(self).advanced(),
            r is Some ==> final(self).fuel() < old(self).fuel(),
    ;

    /// Law a source must bring: a successful draw consumes fuel, at the
    /// model level as well.
    proof fn fuel_decreases(&self)
        requires
            self.next_val() is Some,
        ensures
            self.advanced().fuel() < self.fuel(),
    ;
}

/// The shared synchronization counter as an index source: every draw
/// yields the counter and moves it up by one, so workers that share the
/// counter's position consume disjoint indices on demand.
pub struct SyncIter {
    counter: usize,
}

impl SyncIter {
    /// The next index this counter will hand out.
    pub closed spec fn counter_spec(&self) -> nat {
        self.counter as nat
    }

    pub fn new(start: usize) -> (r: SyncIter)
        ensures
            r.counter_spec() == start,
    {
        SyncIter { counter: start }
    }

    /// Reads the counter back, to carry demand-driven consumption over to
    /// the next worker.
    pub fn position(&self) -> (r: usize)
        ensures
            r == self.counter_spec(),
    {
        self.counter
    }
}

impl IndexSource for SyncIter {
    closed spec fn fuel(&self) -> nat {
        (usize::MAX - self.counter) as nat
    }

    closed spec fn next_val(&self) -> Option<usize> {
        if self.counter_spec() < usize::MAX {
            Some(self.counter)
        } else {
            None
        }
    }

    closed spec fn advanced(&self) -> SyncIter {
        if self.counter_spec() < usize::MAX {
            SyncIter { counter: (self.counter + 1) as usize }
        } else {
            SyncIter { counter: self.counter }
        }
    }

    fn next(&mut self) -> (r: Option<usize>) {
        if self.counter < usize::MAX {
            let v = self.counter;
            self.counter = self.counter + 1;
            Some(v)
        } else {
            None
        }
    }

    proof fn fuel_decreases(&self) {
    }
}

/// A bounded run of indices as an index source: yields from `start` up
/// to `end`, then ends.
pub struct IndexRange {
    next_index: usize,
    end: usize,
}

impl IndexRange {
    pub closed spec fn next_spec(&self) -> nat {
        self.next_index as nat
    }

    pub closed spec fn end_spec(&self) -> nat {
        self.end as nat
    }

    pub fn new(start: usize, end: usize) -> (r: IndexRange)
        ensures
            r.next_spec() == start,
            r.end_spec() == end,
    {
        IndexRange { next_index: start, end }
    }
}

impl IndexSource for IndexRange {
    closed spec fn fuel(&self) -> nat {
        if self.next_spec() < self.end_spec() {
            (self.end_spec() - self.next_spec()) as nat
        } else {
            0
        }
    }

    closed spec fn next_val(&self) -> Option<usize> {
        if self.next_spec() < self.end_spec() {
            Some(self.next_index)
        } else {
            None
        }
    }

    closed spec fn advanced(&self) -> IndexRange {
        if self.next_spec() < self.end_spec() {
            IndexRange { next_index: (self.next_index + 1) as usize, end: self.end }
        } else {
            IndexRange { next_index: self.next_index, end: self.end }
        }
    }

    fn next(&mut self) -> (r: Option<usize>) {
        if self.next_index < self.end {
            let v = self.next_index;
            self.next_index = self.next_index + 1;
            Some(v)
        } else {
            None
        }
    }

    proof fn fuel_decreases(&self) {
    }
}


/// One worker's lifecycle position, as the master tracks it.
#[derive(Clone, Copy, PartialEq, Eq, Debug)]
pub enum SlaveState {
    Idle,
    Started,
    Done,
}

/// One worker of the master/worker machinery, in its sequential form: the
/// master hands it one command at a time and reads one reply. A threaded
/// host runs the same step functions behind a channel pair per worker.
pub struct Slave<AL> where AL: AlgorithmLayout {
    state: SlaveState,
    individual_manager: Option<AL::IM>,
    last_report: Option<Report<AL>>,
}

impl<AL> Slave<AL> where AL: AlgorithmLayout {
    pub closed spec fn state_spec(&self) -> SlaveState {
        self.state
    }

    pub closed spec fn report_spec(&self) -> Option<Report<AL>> {
        self.last_report
    }

    /// What the machinery keeps true of a worker: while started it holds
    /// its individual manager, and a stored initialization reply holds
    /// only generated individuals.
    pub closed spec fn wf(&self) -> bool {
        &&& (self.state is Started ==> self.individual_manager is Some)
        &&& (match self.last_report {
            Some(Report::PopulationInitialized(p)) => forall|j: int|
                0 <= j < p.items().len() ==> AL::IM::generated(#[trigger] p.items()[j]),
            _ => true,
        })
    }

    /// A fresh worker: idle, holding nothing.
    pub fn spawn(slave_id: usize) -> (r: Slave<AL>)
        ensures
            r.wf(),
            r.state_spec() is Idle,
            r.report_spec() is None,
    {
        let _ = slave_id;
        Slave { state: SlaveState::Idle, individual_manager: None, last_report: None }
    }

    /// One step of the worker protocol, from whatever state the worker is
    /// in. Stray commands are answered with `UnexpectedMasterCommand`, as
    /// a fatal protocol error, never ignored.
    pub fn step(
        &mut self,
        population_manager: &AL::PM,
        sync_counter: &mut SyncIter,
        cmd: Command,
    ) -> (reply: Result<Report<AL>, Error<AL::EL>>)
        requires
            old(self).wf(),
        ensures
            final(self).wf(),
            final(self).report_spec() == old(self).report_spec(),
            (match cmd {
                Command::SlaveStart => (reply matches Ok(rep) ==> rep is SlaveStarted && final(self).state_spec() is Started),
                Command::PopulationInitialize => (reply matches Ok(rep)
                    ==> rep is PopulationInitialized && final(self).state_spec() is Started),
                Command::SlaveStop => (reply matches Ok(rep) ==> rep is SlaveStopped && final(self).state_spec() is Idle),
                Command::SlaveQuit => (reply matches Ok(rep) ==> rep is SlaveQuitted && final(self).state_spec() is Done),
            }),
            (reply matches Ok(rep) ==> (rep matches Report::PopulationInitialized(p)
                ==> forall|j: int|
                0 <= j < p.items().len() ==> AL::IM::generated(#[trigger] p.items()[j]))),
            (reply matches Err(e) ==> step_err_possible::<AL>(cmd, e)),
            (command_ready::<AL>(cmd, *old(self)) ==> reply matches Ok(_)),
    {
        match self.state {
            SlaveState::Idle => slave_idle(self, population_manager, cmd),
            SlaveState::Started => slave_loop(self, population_manager, sync_counter, cmd),
            SlaveState::Done => Err(Error::UnexpectedMasterCommand),
        }
    }
}

/// Whether filling a population can fail at all through the layout's
/// host components.
pub open spec fn init_can_fail_any<AL: AlgorithmLayout>() -> bool {
    ||| AL::PJ::init_can_fail()
    ||| AL::IM::generate_can_fail()
    ||| <AL::P as ItemSet>::add_can_fail()
}

/// Whether the protocol alone guarantees that this command succeeds on a
/// worker in this state: the worker is in the right state and no host
/// component that is allowed to fail is consulted.
pub open spec fn command_ready<AL: AlgorithmLayout>(cmd: Command, s: Slave<AL>) -> bool {
    match cmd {
        Command::SlaveStart => s.state_spec() is Idle && !AL::PM::make_im_can_fail(),
        Command::PopulationInitialize => s.state_spec() is Started && !init_can_fail_any::<AL>(),
        Command::SlaveStop => s.state_spec() is Started,
        Command::SlaveQuit => s.state_spec() is Idle || s.state_spec() is Started,
    }
}

/// The errors one worker step may answer this command with: a host
/// component's failure where one is consulted and allowed to fail, or the
/// fatal protocol error for a command out of place.
pub open spec fn step_err_possible<AL: AlgorithmLayout>(cmd: Command, e: Error<AL::EL>) -> bool {
    match cmd {
        Command::SlaveStart => (e is PopulationManager && AL::PM::make_im_can_fail())
            || e is UnexpectedMasterCommand,
        Command::PopulationInitialize => (e is PopulationJobs && init_can_fail_any::<AL>())
            || e is UnexpectedMasterCommand,
        Command::SlaveStop => e is UnexpectedMasterCommand,
        Command::SlaveQuit => e is UnexpectedMasterCommand,
    }
}

/// The reply kind each command is answered with on success.
pub open spec fn expected_report<AL: AlgorithmLayout>(cmd: Command, rep: Report<AL>) -> bool {
    match cmd {
        Command::SlaveStart => rep is SlaveStarted,
        Command::PopulationInitialize => rep is PopulationInitialized,
        Command::SlaveStop => rep is SlaveStopped,
        Command::SlaveQuit => rep is SlaveQuitted,
    }
}

/// The errors a broadcast may surface: one possible step error alone, or
/// two or more of them kept together in `Several`.
pub open spec fn spread_err_possible<AL: AlgorithmLayout>(cmd: Command, e: Error<AL::EL>) -> bool {
    match e {
        Error::Several(v) => v@.len() >= 2 && (forall|i: int|
            0 <= i < v@.len() ==> step_err_possible::<AL>(cmd, #[trigger] v@[i])),
        _ => step_err_possible::<AL>(cmd, e),
    }
}

/// The errors filling a fresh population may surface: an empty worker
/// set, a failed merge where merging may fail, or a broadcast failure.
pub open spec fn pop_init_err_possible<AL: AlgorithmLayout>(e: Error<AL::EL>, workers: int) -> bool {
    ||| e is UnexpectedEmptyPopulation && workers == 0
    ||| e is Population && AL::P::merge_can_fail()
    ||| spread_err_possible::<AL>(Command::PopulationInitialize, e)
}

/// What a worker does with a command received while idle:
/// `SlaveStart` builds its individual manager and starts it, `SlaveQuit`
/// acknowledges and terminates, anything else is a fatal protocol error.
pub fn slave_idle<AL>(
    slave: &mut Slave<AL>,
    population_manager: &AL::PM,
    cmd: Command,
) -> (reply: Result<Report<AL>, Error<AL::EL>>) where AL: AlgorithmLayout
    requires
        old(slave).wf(),
        old(slave).state_spec() is Idle,
    ensures
        final(slave).wf(),
        final(slave).report_spec() == old(slave).report_spec(),
        (match cmd {
            Command::SlaveStart => (match reply {
                Ok(rep) => rep is SlaveStarted && final(slave).state_spec() is Started,
                Err(e) => e is PopulationManager && AL::PM::make_im_can_fail() && final(slave).state_spec() is Idle,
            }),
            Command::SlaveQuit => (reply matches Ok(rep) && rep is SlaveQuitted) && final(slave).state_spec() is Done,
            _ => (reply matches Err(e) && e is UnexpectedMasterCommand) && *final(slave) == *old(slave),
        }),
{
    match cmd {
        Command::SlaveStart => match population_manager.make_individual_manager() {
            Ok(individual_manager) => {
                slave.individual_manager = Some(individual_manager);
                slave.state = SlaveState::Started;
                Ok(Report::SlaveStarted)
            },
            Err(err) => Err(Error::PopulationManager(err)),
        },
        Command::SlaveQuit => {
            slave.state = SlaveState::Done;
            Ok(Report::SlaveQuitted)
        },
        _ => Err(Error::UnexpectedMasterCommand),
    }
}

/// What a worker does with a command received while started:
/// `PopulationInitialize` fills a population from the shared counter,
/// `SlaveStop` returns it to idle, `SlaveQuit` is acknowledged and
/// terminates it from any live state, and a stray `SlaveStart` is a fatal
/// protocol error.
pub fn slave_loop<AL>(
    slave: &mut Slave<AL>,
    population_manager: &AL::PM,
    sync_counter: &mut SyncIter,
    cmd: Command,
) -> (reply: Result<Report<AL>, Error<AL::EL>>) where AL: AlgorithmLayout
    requires
        old(slave).wf(),
        old(slave).state_spec() is Started,
    ensures
        final(slave).wf(),
        final(slave).report_spec() == old(slave).report_spec(),
        (match cmd {
            Command::PopulationInitialize => final(slave).state_spec() is Started && (match reply {
                Ok(rep) => rep matches Report::PopulationInitialized(p) && (forall|j: int|
                    0 <= j < p.items().len() ==> AL::IM::generated(#[trigger] p.items()[j])),
                Err(e) => e is PopulationJobs && init_can_fail_any::<AL>(),
            }),
            Command::SlaveStop => (reply matches Ok(rep) && rep is SlaveStopped) && final(slave).state_spec() is Idle,
            Command::SlaveQuit => (reply matches Ok(rep) && rep is SlaveQuitted) && final(slave).state_spec() is Done,
            _ => (reply matches Err(e) && e is UnexpectedMasterCommand) && *final(slave) == *old(slave),
        }),
{
    match cmd {
        Command::PopulationInitialize => {
            let population_jobs = population_manager.jobs();
            match &mut slave.individual_manager {
                Some(individual_manager) => match population_jobs.init(
                    individual_manager,
                    sync_counter,
                ) {
                    Ok(population) => Ok(Report::PopulationInitialized(population)),
                    Err(err) => Err(Error::PopulationJobs(err)),
                },
                None => unreached(),
            }
        },
        Command::SlaveStop => {
            slave.state = SlaveState::Idle;
            Ok(Report::SlaveStopped)
        },
        Command::SlaveQuit => {
            slave.state = SlaveState::Done;
            Ok(Report::SlaveQuitted)
        },
        _ => Err(Error::UnexpectedMasterCommand),
    }
}

/// Where a run ends.
#[derive(Debug)]
pub enum RunResult<I> {
    FoundBest(I),
    PopLimitExceeded,
}

/// The state a worker reaches when the master's command succeeds, and the
/// reply it leaves behind.
pub open spec fn after_command<AL: AlgorithmLayout>(cmd: Command, s: Slave<AL>) -> bool {
    match cmd {
        Command::SlaveStart => s.state_spec() is Started && (s.report_spec() matches Some(rep)
            && rep is SlaveStarted),
        Command::PopulationInitialize => s.state_spec() is Started && (s.report_spec()
            matches Some(rep) && rep is PopulationInitialized),
        Command::SlaveStop => s.state_spec() is Idle && (s.report_spec() matches Some(rep)
            && rep is SlaveStopped),
        Command::SlaveQuit => s.state_spec() is Done && (s.report_spec() matches Some(rep)
            && rep is SlaveQuitted),
    }
}

/// The sequential master: it owns the population manager and its workers
/// and drives them through the command protocol one at a time.
pub struct Algorithm<AL> where AL: AlgorithmLayout {
    population_manager: AL::PM,
    slaves: Vec<Slave<AL>>,
}

impl<AL> Algorithm<AL> where AL: AlgorithmLayout {
    pub closed spec fn wf(&self) -> bool {
        forall|i: int| 0 <= i < self.slaves@.len() ==> (#[trigger] self.slaves@[i]).wf()
    }

    pub closed spec fn slaves_spec(&self) -> Seq<Slave<AL>> {
        self.slaves@
    }

    pub fn new(population_manager: AL::PM, slaves_count: usize) -> (r: Result<
        Algorithm<AL>,
        Error<AL::EL>,
    >)
        ensures
            (match r {
                Ok(a) => a.wf() && a.slaves_spec().len() == slaves_count && (forall|i: int|
                    0 <= i < slaves_count ==> (#[trigger] a.slaves_spec()[i]).state_spec()
                        is Idle),
                Err(_) => false,
            }),
    {
        let mut slaves: Vec<Slave<AL>> = Vec::new();
        let mut i: usize = 0;
        while i < slaves_count
            invariant
                0 <= i <= slaves_count,
                slaves@.len() == i,
                forall|t: int|
                    0 <= t < i ==> (#[trigger] slaves@[t]).wf() && slaves@[t].state_spec() is Idle,
            decreases slaves_count - i,
        {
            slaves.push(Slave::spawn(i));
            i = i + 1;
        }
        Ok(Algorithm { population_manager, slaves })
    }

    /// Sends one command to every worker in turn and collects the
    /// replies: successful replies are stored with their workers, and the
    /// errors are surfaced exactly — one alone, several as `Several`,
    /// none dropped. Where every worker is ready for the command, success
    /// is owed.
    #[verifier::loop_isolation(false)]
    fn spread_sync(&mut self, sync_counter: &mut SyncIter, cmd: Command) -> (r: Result<
        (),
        Error<AL::EL>,
    >)
        requires
            old(self).wf(),
        ensures
            final(self).wf(),
            final(self).slaves_spec().len() == old(self).slaves_spec().len(),
            (r matches Ok(_) ==> forall|i: int|
                0 <= i < final(self).slaves_spec().len() ==> after_command(
                    cmd,
                    #[trigger] final(self).slaves_spec()[i],
                )),
            (r matches Err(e) ==> spread_err_possible::<AL>(cmd, e)),
            (forall|i: int|
                0 <= i < old(self).slaves_spec().len() ==> command_ready::<AL>(
                    cmd,
                    #[trigger] old(self).slaves_spec()[i],
                )) ==> r matches Ok(_),
    {
        let mut errors: Vec<Error<AL::EL>> = Vec::new();
        let total = self.slaves.len();
        let mut i: usize = 0;
        while i < total
            invariant
                0 <= i <= total,
                self.slaves@.len() == total,
                forall|t: int| 0 <= t < total ==> (#[trigger] self.slaves@[t]).wf(),
                forall|t: int|
                    i <= t < total ==> self.slaves@[t] == #[trigger] old(self).slaves_spec()[t],
                errors@.len() == 0 ==> (forall|t: int|
                    0 <= t < i ==> after_command(cmd, #[trigger] self.slaves@[t])),
                forall|t: int|
                    0 <= t < errors@.len() ==> step_err_possible::<AL>(cmd, #[trigger] errors@[t]),
                (forall|t: int|
                    0 <= t < total ==> command_ready::<AL>(
                        cmd,
                        #[trigger] old(self).slaves_spec()[t],
                    )) ==> errors@.len() == 0,
            decreases total - i,
        {
            let slave = &mut self.slaves[i];
            let reply = slave.step(&self.population_manager, sync_counter, cmd);
            match reply {
                Ok(rep) => {
                    slave.last_report = Some(rep);
                },
                Err(e) => {
                    proof {
                        if forall|t: int|
                            0 <= t < total ==> command_ready::<AL>(
                                cmd,
                                #[trigger] old(self).slaves_spec()[t],
                            ) {
                            assert(command_ready::<AL>(cmd, old(self).slaves_spec()[i as int]));
                        }
                    }
                    errors.push(e);
                },
            }
            i = i + 1;
        }
        if errors.len() == 0 {
            Ok(())
        } else if errors.len() == 1 {
            Err(errors.remove(0))
        } else {
            Err(Error::Several(errors))
        }
    }

    /// Spreads one command and then demands that every worker answered
    /// with the expected kind of reply, consuming the stored replies: a
    /// missing or differently-kinded reply is the fatal
    /// `UnexpectedSlaveReply`.
    #[verifier::loop_isolation(false)]
    fn spread_sync_expect(
        &mut self,
        sync_counter: &mut SyncIter,
        cmd: Command,
        rep: Report<AL>,
    ) -> (r: Result<(), Error<AL::EL>>)
        requires
            old(self).wf(),
        ensures
            final(self).wf(),
            final(self).slaves_spec().len() == old(self).slaves_spec().len(),
            (r matches Ok(_) ==> forall|i: int|
                0 <= i < final(self).slaves_spec().len() ==> after_state(
                    cmd,
                    #[trigger] final(self).slaves_spec()[i],
                ) && (#[trigger] final(self).slaves_spec()[i]).report_spec() is None),
            (r matches Err(e) ==> spread_err_possible::<AL>(cmd, e) || (e
                is UnexpectedSlaveReply && !expected_report::<AL>(cmd, rep))),
            (forall|i: int|
                0 <= i < old(self).slaves_spec().len() ==> command_ready::<AL>(
                    cmd,
                    #[trigger] old(self).slaves_spec()[i],
                )) && expected_report::<AL>(cmd, rep) ==> r matches Ok(_),
    {
        match self.spread_sync(sync_counter, cmd) {
            Ok(_) => {},
            Err(e) => {
                return Err(e);
            },
        }
        let total = self.slaves.len();
        let mut i: usize = 0;
        while i < total
            invariant
                0 <= i <= total,
                self.slaves@.len() == total,
                forall|t: int| 0 <= t < total ==> (#[trigger] self.slaves@[t]).wf(),
                forall|t: int| 0 <= t < total ==> after_state(cmd, #[trigger] self.slaves@[t]),
                forall|t: int| 0 <= t < i ==> (#[trigger] self.slaves@[t]).report_spec() is None,
                forall|t: int| i <= t < total ==> after_command(cmd, #[trigger] self.slaves@[t]),
            decreases total - i,
        {
            let slave = &mut self.slaves[i];
            let mut taken: Option<Report<AL>> = None;
            core::mem::swap(&mut slave.last_report, &mut taken);
            match taken {
                Some(slave_reply) => {
                    if !slave_reply.same_type(&rep) {
                        proof {
                            assert(expected_report::<AL>(cmd, slave_reply));
                            assert(!expected_report::<AL>(cmd, rep));
                        }
                        return Err(Error::UnexpectedSlaveReply);
                    }
                },
                None => {
                    proof {
                        assert(false);
                    }
                    return Err(Error::UnexpectedSlaveReply);
                },
            }
            i = i + 1;
        }
        Ok(())
    }

    /// Fills a fresh population: every worker draws indices from one
    /// shared counter, and the partial populations — one per worker — are
    /// merged in worker order. With no workers at all there is nothing to
    /// merge, the fatal `UnexpectedEmptyPopulation`; with every worker
    /// started and no fallible component in the layout, success is owed.
    #[verifier::loop_isolation(false)]
    pub fn population_initialize(&mut self) -> (r: Result<AL::P, Error<AL::EL>>)
        requires
            old(self).wf(),
        ensures
            final(self).wf(),
            final(self).slaves_spec().len() == old(self).slaves_spec().len(),
            (r matches Err(e) ==> pop_init_err_possible::<AL>(
                e,
                old(self).slaves_spec().len() as int,
            )),
            (old(self).slaves_spec().len() == 0 ==> (r matches Err(e)
                && e is UnexpectedEmptyPopulation)),
            (r matches Ok(pop) ==> {
                &&& old(self).slaves_spec().len() > 0
                &&& (forall|j: int|
                    0 <= j < pop.individuals().len() ==> AL::IM::generated(
                        #[trigger] pop.individuals()[j],
                    ))
                &&& (exists|parts: Seq<AL::P>|
                    (#[trigger] parts.len()) == old(self).slaves_spec().len()
                        && pop.individuals() == crate::exec::flat(
                        parts.map_values(|q: AL::P| q.individuals()),
                    ))
                &&& (forall|i: int|
                    0 <= i < final(self).slaves_spec().len() ==> (#[trigger] final(self).slaves_spec()[i]).state_spec() is Started && final(self).slaves_spec()[i].report_spec() is None)
            }),
            (forall|i: int|
                0 <= i < old(self).slaves_spec().len() ==> (#[trigger] old(self).slaves_spec()[i]).state_spec() is Started) && old(self).slaves_spec().len() > 0
                && !init_can_fail_any::<AL>() && !AL::P::merge_can_fail() ==> r matches Ok(_),
    {
        let mut sync_counter = SyncIter::new(0);
        match self.spread_sync(&mut sync_counter, Command::PopulationInitialize) {
            Ok(_) => {},
            Err(e) => {
                return Err(e);
            },
        }
        let total = self.slaves.len();
        let mut partials: Vec<AL::P> = Vec::new();
        let mut i: usize = 0;
        while i < total
            invariant
                0 <= i <= total,
                self.slaves@.len() == total,
                forall|t: int| 0 <= t < total ==> (#[trigger] self.slaves@[t]).wf(),
                forall|t: int|
                    0 <= t < total ==> (#[trigger] self.slaves@[t]).state_spec() is Started,
                forall|t: int| 0 <= t < i ==> (#[trigger] self.slaves@[t]).report_spec() is None,
                forall|t: int|
                    i <= t < total ==> after_command(
                        Command::PopulationInitialize,
                        #[trigger] self.slaves@[t],
                    ),
                partials@.len() == i,
                forall|t: int, j: int|
                    0 <= t < partials@.len() && 0 <= j < (#[trigger] partials@[t]).individuals().len()
                        ==> AL::IM::generated(#[trigger] partials@[t].individuals()[j]),
            decreases total - i,
        {
            let slave = &mut self.slaves[i];
            let mut taken: Option<Report<AL>> = None;
            core::mem::swap(&mut slave.last_report, &mut taken);
            match taken {
                Some(reply) => {
                    match reply {
                        Report::PopulationInitialized(population) => {
                            proof {
                                AL::views_agree(population);
                            }
                            partials.push(population);
                        },
                        _ => {
                            proof {
                                assert(false);
                            }
                            return Err(Error::UnexpectedSlaveReply);
                        },
                    }
                },
                None => {
                    proof {
                        assert(false);
                    }
                    return Err(Error::UnexpectedSlaveReply);
                },
            }
            i = i + 1;
        }
        let merged = match AL::P::merge_many(partials) {
            Ok(m) => m,
            Err(e) => {
                return Err(Error::Population(e));
            },
        };
        match merged {
            Some(population) => {
                proof {
                    let views = partials@.map_values(|q: AL::P| q.individuals());
                    assert forall|t: int, j: int|
                        0 <= t < views.len() && 0 <= j < (#[trigger] views[t]).len()
                        implies AL::IM::generated(#[trigger] views[t][j]) by {
                        assert(views[t] == partials@[t].individuals());
                    }
                    lemma_flat_generated::<AL>(views);
                }
                Ok(population)
            },
            None => Err(Error::UnexpectedEmptyPopulation),
        }
    }

    fn run_with_guard(&mut self) -> (r: Result<RunResult<AL::I>, Error<AL::EL>>)
        requires
            old(self).wf(),
        ensures
            final(self).wf(),
            final(self).slaves_spec().len() == old(self).slaves_spec().len(),
            (r matches Ok(res) ==> res is PopLimitExceeded && (forall|i: int|
                0 <= i < final(self).slaves_spec().len() ==> (#[trigger] final(
                self).slaves_spec()[i]).state_spec() is Started)),
            (r matches Err(e) ==> pop_init_err_possible::<AL>(
                e,
                old(self).slaves_spec().len() as int,
            )),
            (forall|i: int|
                0 <= i < old(self).slaves_spec().len() ==> (#[trigger] old(
                self).slaves_spec()[i]).state_spec() is Started) && old(self).slaves_spec().len()
                > 0 && !init_can_fail_any::<AL>() && !AL::P::merge_can_fail() ==> r matches Ok(_),
    {
        let population = self.population_initialize();
        match population {
            Ok(_) => Ok(RunResult::PopLimitExceeded),
            Err(e) => Err(e),
        }
    }

    /// One full run: start every worker, fill a population, and stop
    /// every worker again; the stop is attempted on every exit path past
    /// the start, and failures of the run and of the mandatory stop are
    /// both kept, together where both happened. With idle workers and no
    /// fallible component in the layout, success is owed.
    pub fn run(&mut self) -> (r: Result<RunResult<AL::I>, Error<AL::EL>>)
        requires
            old(self).wf(),
        ensures
            final(self).wf(),
            final(self).slaves_spec().len() == old(self).slaves_spec().len(),
            (r matches Ok(res) ==> res is PopLimitExceeded && (forall|i: int|
                0 <= i < final(self).slaves_spec().len() ==> (#[trigger] final(
                self).slaves_spec()[i]).state_spec() is Idle && final(
                self).slaves_spec()[i].report_spec() is None)),
            (r matches Err(e) ==> (e matches Error::Several(v) ==> v@.len() >= 2)),
            (forall|i: int|
                0 <= i < old(self).slaves_spec().len() ==> (#[trigger] old(
                self).slaves_spec()[i]).state_spec() is Idle) && old(self).slaves_spec().len() > 0
                && !AL::PM::make_im_can_fail() && !init_can_fail_any::<AL>()
                && !AL::P::merge_can_fail() ==> r matches Ok(_),
    {
        let mut sync_counter = SyncIter::new(0);
        match self.spread_sync_expect(&mut sync_counter, Command::SlaveStart, Report::SlaveStarted) {
            Ok(_) => {},
            Err(e) => {
                return Err(e);
            },
        }
        let guarded = self.run_with_guard();
        let stopped = self.spread_sync_expect(
            &mut sync_counter,
            Command::SlaveStop,
            Report::SlaveStopped,
        );
        match (guarded, stopped) {
            (Ok(result), Ok(_)) => Ok(result),
            (Ok(_), Err(err)) => Err(err),
            (Err(err), Ok(_)) => Err(err),
            (Err(ea), Err(eb)) => {
                let mut both: Vec<Error<AL::EL>> = Vec::new();
                both.push(ea);
                both.push(eb);
                Err(Error::Several(both))
            },
        }
    }

    /// Sends `SlaveQuit` to every worker and demands the acknowledgement:
    /// the explicit form of the threaded host's teardown. Every live
    /// worker — idle or started — acknowledges, so on a live worker set
    /// success is owed.
    pub fn shutdown(&mut self) -> (r: Result<(), Error<AL::EL>>)
        requires
            old(self).wf(),
        ensures
            final(self).wf(),
            (r matches Ok(_) ==> forall|i: int|
                0 <= i < final(self).slaves_spec().len() ==> (#[trigger] final(self).slaves_spec()[i]).state_spec() is Done),
            (r matches Err(e) ==> spread_err_possible::<AL>(Command::SlaveQuit, e)),
            (forall|i: int|
                0 <= i < old(self).slaves_spec().len() ==> ((#[trigger] old(
                self).slaves_spec()[i]).state_spec() is Idle || old(
                self).slaves_spec()[i].state_spec() is Started)) ==> r matches Ok(_),
    {
        let mut sync_counter = SyncIter::new(0);
        match self.spread_sync_expect(&mut sync_counter, Command::SlaveQuit, Report::SlaveQuitted) {
            Ok(_) => Ok(()),
            Err(e) => Err(e),
        }
    }
}

/// Every element of a flattening satisfies what every element of every
/// member satisfies.
proof fn lemma_flat_generated<AL: AlgorithmLayout>(views: Seq<Seq<AL::I>>)
    requires
        forall|t: int, j: int|
            0 <= t < views.len() && 0 <= j < (#[trigger] views[t]).len() ==> AL::IM::generated(
                #[trigger] views[t][j],
            ),
    ensures
        forall|j: int|
            0 <= j < crate::exec::flat(views).len() ==> AL::IM::generated(
                #[trigger] crate::exec::flat(views)[j],
            ),
    decreases views.len(),
{
    if views.len() == 0 {
    } else {
        assert forall|t: int, j: int|
            0 <= t < views.drop_last().len() && 0 <= j < (#[trigger] views.drop_last()[t]).len()
            implies AL::IM::generated(#[trigger] views.drop_last()[t][j]) by {
            assert(views.drop_last()[t] == views[t]);
        }
        lemma_flat_generated::<AL>(views.drop_last());
        let off = crate::exec::flat(views.drop_last()).len() as int;
        assert forall|j: int| 0 <= j < crate::exec::flat(views).len() implies AL::IM::generated(
            #[trigger] crate::exec::flat(views)[j],
        ) by {
            if j < off {
                assert(crate::exec::flat(views)[j] == crate::exec::flat(views.drop_last())[j]);
            } else {
                assert(crate::exec::flat(views)[j] == views.last()[j - off]);
                assert(views.last() == views[views.len() - 1]);
            }
        }
    }
}

/// The state a worker is left in when the master's command succeeded,
/// once its reply has been consumed.
pub open spec fn after_state<AL: AlgorithmLayout>(cmd: Command, s: Slave<AL>) -> bool {
    match cmd {
        Command::SlaveStart => s.state_spec() is Started,
        Command::PopulationInitialize => s.state_spec() is Started,
        Command::SlaveStop => s.state_spec() is Idle,
        Command::SlaveQuit => s.state_spec() is Done,
    }
}

} // verus!
