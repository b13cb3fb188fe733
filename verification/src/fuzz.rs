//! The fuzzer's rules: its phases and the barrier between them, the choice
//! of the next input, and what a worker does with an input before and after
//! the guest has run it.

use vstd::prelude::*;
use crate::config::{AppConfig, Config, FeedBackMethod};
use crate::corpus::{
    log2, log2_floor, lemma_log2_monotone, content_name, has_name, with_file, Corpus, FuzzCov,
    FuzzInput, FuzzInputView,
};
use crate::memory::{overwritten, VMMemoryError};
use crate::paging::{address_space, byte_va, page_base};
use crate::vm::{marks_outside, outside_error, restored, Vm, VmError};

verus! {

/// The phase that the fuzzer is in.
#[derive(Clone, Copy, Debug, PartialEq, Eq, Structural)]
pub enum Mode {
    /// Inputs are taken from the input directory as they are.
    Static,
    /// Each seed file is run once, to fill the corpus.
    DynamicDryRun,
    /// Inputs are taken from the corpus and mutated.
    DynamicMain,
    /// The corpus is minimized.
    DynamicMinimize,
}

/// A worker of the fuzzer.
#[derive(Debug)]
pub struct FuzzWorker {
}

/// Virtual address at which the guest finds its input.
pub const INPUT_ADDRESS: u64 = 0x8_0000;

/// Most bytes of an input that the guest is given.
pub const INPUT_WINDOW: usize = 0x1000;

/// The name of the empty input that stands in for a corpus that the dry run
/// left empty.
pub open spec fn empty_input_name() -> Seq<char> {
    "[DYNAMIC-0-SIZE]"@
}

/// The counters that the workers keep and the supervisor reads.
#[derive(Clone, Copy, Debug, PartialEq, Eq, Structural)]
pub struct Metrics {
    pub fuzz_case_count: usize,
    pub mutations_count: usize,
    pub fuzz_input_count: usize,
    pub crashes_count: usize,
    pub new_units_added: usize,
    pub tested_file_count: usize,
    pub job_active_count: usize,
    pub job_finished_count: usize,
    /// Seconds since the start at which coverage last grew.
    pub last_cov_update: usize,
    pub max_fuzz_run_time_ms: usize,
    pub fuzz_input_max_size: usize,
}

/// The phase in which the fuzzer starts: the main phase with the socket
/// fuzzer, else the dry run where feedback is gathered, else the static
/// phase.
pub open spec fn spec_fuzz_mode(socket_fuzzer: bool, feedback: FeedBackMethod) -> Mode {
    if socket_fuzzer {
        Mode::DynamicMain
    } else if feedback != FeedBackMethod::NONE {
        Mode::DynamicDryRun
    } else {
        Mode::Static
    }
}

/// The phase in which the fuzzer starts.
pub fn compute_fuzz_mode(config: &Config) -> (mode: Mode)
    ensures
        mode == spec_fuzz_mode(config.app_config.socket_fuzzer, config.app_config.feedback_method),
{
    if config.app_config.socket_fuzzer {
        Mode::DynamicMain
    } else {
        match config.app_config.feedback_method {
            FeedBackMethod::NONE => Mode::Static,
            FeedBackMethod::SOFT => Mode::DynamicDryRun,
        }
    }
}

/// `v`, but at least `lo` and at most `hi`.
pub open spec fn clamp(v: int, lo: int, hi: int) -> int {
    if v < lo {
        lo
    } else if v > hi {
        hi
    } else {
        v
    }
}

/// How slow a case is against the average: the time that an input takes on
/// average is the time since the start, by the number of mutations and by
/// the number of jobs, between one microsecond and one second; the case's
/// time is taken between the same bounds. A case that is no faster than the
/// average gets the quotient of its time by the average; a faster one the
/// negative of the quotient the other way round.
pub open spec fn speed_factor(elapsed_usecs: int, mutations: int, jobs: int, sample_usecs: int)
    -> int {
    let avg = clamp(elapsed_usecs / mutations / jobs, 1, 1_000_000);
    let sample = clamp(sample_usecs, 1, 1_000_000);
    if sample >= avg {
        sample / avg
    } else {
        -(avg / sample)
    }
}

/// How slow a case is against the average, where `elapsed_usecs` is the time
/// since the fuzzer started and `sample_usecs` the time at which the case
/// started, in microseconds.
pub fn input_speed_factor(
    elapsed_usecs: usize,
    mutations_count: usize,
    jobs: usize,
    sample_usecs: usize,
) -> (factor: isize)
    requires
        mutations_count > 0,
        jobs > 0,
    ensures
        factor == speed_factor(
            elapsed_usecs as int,
            mutations_count as int,
            jobs as int,
            sample_usecs as int,
        ),
        -1_000_000 <= factor <= 1_000_000,
{
    let mut avg: usize = elapsed_usecs / mutations_count / jobs;
    if avg < 1 {
        avg = 1;
    } else if avg > 1_000_000 {
        avg = 1_000_000;
    }
    let mut sample: usize = sample_usecs;
    if sample < 1 {
        sample = 1;
    } else if sample > 1_000_000 {
        sample = 1_000_000;
    }
    if sample >= avg {
        let q: usize = sample / avg;
        assert(q <= sample) by (nonlinear_arith)
            requires
                q == sample / avg,
                avg >= 1,
        ;
        q as isize
    } else {
        let q: usize = avg / sample;
        assert(q <= avg) by (nonlinear_arith)
            requires
                q == avg / sample,
                sample >= 1,
        ;
        -(q as isize)
    }
}

/// What an input's age adds to its skip factor: the older it is among the
/// `count` inputs, the more.
pub open spec fn age_penalty(idx: int, count: int) -> int {
    let percentile = idx * 100 / count;
    if percentile <= 40 {
        2
    } else if percentile <= 70 {
        1
    } else if percentile <= 80 {
        0
    } else if percentile <= 90 {
        -1
    } else if percentile <= 97 {
        -2
    } else {
        -3
    }
}

/// What an input's size adds to its skip factor: nothing for an empty input
/// and for one of a kilobyte, one more or less for each doubling or halving,
/// five at most.
pub open spec fn size_penalty(len: int) -> int {
    if len <= 0 {
        0
    } else {
        clamp(log2_floor(len) - 10, -5, 5)
    }
}

/// The skip factor of an input: the larger it is, the less likely the input
/// is picked.
pub open spec fn skip_factor(speed: int, idx: int, count: int, len: int) -> int {
    clamp(speed, -10, 2) + age_penalty(idx, count) + size_penalty(len)
}

/// The speed factor between -10 and 2, and the skip factor, of an input
/// which has number `idx` among `fuzz_input_count` inputs and `len` bytes,
/// for a case with speed factor `speed`.
pub fn input_skip_factor(speed: isize, idx: usize, fuzz_input_count: usize, len: usize) -> (r: (
    isize,
    isize,
))
    requires
        fuzz_input_count > 0,
        idx <= fuzz_input_count,
    ensures
        r.0 == clamp(speed as int, -10, 2),
        r.1 == skip_factor(speed as int, idx as int, fuzz_input_count as int, len as int),
        -18 <= r.1 <= 9,
{
    let speed_factor: isize = if speed < -10 {
        -10
    } else if speed > 2 {
        2
    } else {
        speed
    };
    let mut penalty: isize = speed_factor;
    let percentile: u128 = (idx as u128) * 100 / (fuzz_input_count as u128);
    if percentile <= 40 {
        penalty = penalty + 2;
    } else if percentile <= 70 {
        penalty = penalty + 1;
    } else if percentile <= 80 {
    } else if percentile <= 90 {
        penalty = penalty - 1;
    } else if percentile <= 97 {
        penalty = penalty - 2;
    } else {
        penalty = penalty - 3;
    }
    if len > 0 {
        let mut bias: isize = log2(len) as isize - 10;
        if bias < -5 {
            bias = -5;
        } else if bias > 5 {
            bias = 5;
        }
        penalty = penalty + bias;
    }
    (speed_factor, penalty)
}

/// A newer input has no larger skip factor than an older one that is
/// otherwise like it: the nearer an input's number is to the count of
/// inputs, the likelier it is picked.
pub proof fn lemma_skip_factor_age(speed: int, older: int, newer: int, count: int, len: int)
    requires
        0 <= older <= newer,
        count > 0,
    ensures
        skip_factor(speed, newer, count, len) <= skip_factor(speed, older, count, len),
{
    assert(older * 100 / count <= newer * 100 / count) by (nonlinear_arith)
        requires
            0 <= older <= newer,
            count > 0,
    ;
}

/// A longer input has no smaller skip factor than a shorter one that is
/// otherwise like it and not empty: the larger an input is, the less likely
/// it is picked.
pub proof fn lemma_skip_factor_size(speed: int, idx: int, count: int, shorter: int, longer: int)
    requires
        1 <= shorter <= longer,
    ensures
        skip_factor(speed, idx, count, shorter) <= skip_factor(speed, idx, count, longer),
{
    lemma_log2_monotone(shorter, longer);
}

/// Smallest size to which the largest input size is set after the dry run.
pub const INPUT_MIN_SIZE: usize = 0x2000;

/// The state that the workers share.
pub struct App {
    /// The phase that the fuzzer is in.
    pub mode: Mode,
    /// Whether the fuzzer is to stop.
    pub terminating: bool,
    /// Whether a worker waits at the barrier to switch the phase.
    pub switching_feedback: bool,
    /// Number of workers that have reached the barrier after the dry run.
    pub barrier: usize,
    /// Number of coverage points that the runs have hit.
    pub breakpoint_count: usize,
    pub metrics: Metrics,
    pub corpus: Corpus,
    /// The upper envelope of the coverage of the inputs in the corpus.
    pub max_cov: FuzzCov,
    /// The name after which the choice of the next input goes on.
    pub current_file: Option<String>,
    /// Number of seed files that the workers have taken, in the order of the
    /// listing: the place of the next one.
    pub seed_cursor: usize,
}

/// What a worker at the barrier does next.
#[derive(Clone, Copy, Debug, PartialEq, Eq, Structural)]
pub enum BarrierPoll {
    /// All workers are there: switch the phase.
    Proceed,
    /// The fuzzer is to stop: leave.
    Abort,
    /// Wait and ask again.
    Wait,
}

impl App {
    /// The shared state at the start, in phase `mode`.
    pub fn new(mode: Mode) -> (app: App)
        ensures
            app.mode == mode,
            !app.terminating,
            !app.switching_feedback,
            app.barrier == 0,
            app.breakpoint_count == 0,
            app.metrics == Metrics::spec_new(),
            app.corpus@ == Seq::<FuzzInputView>::empty(),
            app.max_cov@ == seq![0u64, 0u64, 0u64, 0u64],
            app.current_file is None,
            app.seed_cursor == 0,
            app.wf(),
            mode == Mode::DynamicDryRun || mode == Mode::Static ==> forall|jobs: usize|
                app.barrier_passed(jobs),
    {
        App {
            mode,
            terminating: false,
            switching_feedback: false,
            barrier: 0,
            breakpoint_count: 0,
            metrics: Metrics::new(),
            corpus: Corpus::new(),
            max_cov: FuzzCov::new(),
            current_file: None,
            seed_cursor: 0,
        }
    }

    /// The corpus holds no name twice, the count of inputs counts its
    /// inputs, and their numbers are below the count.
    pub open spec fn wf(&self) -> bool {
        &&& self.corpus.wf()
        &&& self.corpus@.len() == self.metrics.fuzz_input_count
        &&& forall|i: int|
            0 <= i < self.corpus@.len() ==> (#[trigger] self.corpus@[i]).idx
                < self.metrics.fuzz_input_count
    }

    /// The fuzzer is in the main phase or minimizes only after `jobs`
    /// workers have reached the barrier.
    pub open spec fn barrier_passed(&self, jobs: usize) -> bool {
        self.mode == Mode::DynamicMain || self.mode == Mode::DynamicMinimize ==> self.barrier
            >= jobs
    }

    /// The phase that the fuzzer is in.
    pub fn get_mode(&self) -> (mode: Mode)
        ensures
            mode == self.mode,
    {
        self.mode
    }

    /// Whether the fuzzer is to stop.
    pub fn is_terminating(&self) -> (r: bool)
        ensures
            r == self.terminating,
    {
        self.terminating
    }

    /// Tells the workers to stop.
    pub fn set_terminating(&mut self)
        ensures
            *final(self) == (App { terminating: true, ..*old(self) }),
    {
        self.terminating = true;
    }

    /// A worker that has run out of seed files reaches the barrier: it is
    /// counted, and it waits for the others unless the phase was switched
    /// already. Returns whether it waits.
    pub fn reach_barrier(&mut self, jobs: usize) -> (waits: bool)
        requires
            old(self).barrier < usize::MAX,
        ensures
            waits == (old(self).mode == Mode::DynamicDryRun),
            *final(self) == (App {
                barrier: (old(self).barrier + 1) as usize,
                switching_feedback: old(self).switching_feedback || waits,
                ..*old(self)
            }),
            old(self).barrier_passed(jobs) ==> final(self).barrier_passed(jobs),
    {
        self.barrier = self.barrier + 1;
        if self.mode != Mode::DynamicDryRun {
            return false;
        }
        self.switching_feedback = true;
        true
    }

    /// What a worker that waits at the barrier does next: it goes on when
    /// all `jobs` workers have reached the barrier, it leaves when the
    /// fuzzer is to stop, and it waits else.
    pub fn poll_barrier(&self, jobs: usize) -> (r: BarrierPoll)
        ensures
            r == (if self.barrier == jobs {
                BarrierPoll::Proceed
            } else if self.terminating {
                BarrierPoll::Abort
            } else {
                BarrierPoll::Wait
            }),
    {
        if self.barrier == jobs {
            BarrierPoll::Proceed
        } else if self.terminating {
            BarrierPoll::Abort
        } else {
            BarrierPoll::Wait
        }
    }

    /// A worker stops waiting at the barrier, because all workers are there
    /// or because the fuzzer is to stop: no worker is switching the phase
    /// any more.
    pub fn leave_barrier(&mut self)
        ensures
            *final(self) == (App { switching_feedback: false, ..*old(self) }),
    {
        self.switching_feedback = false;
    }

    /// The number of the next run: the count of runs, which is raised by
    /// one and wraps around as a machine word does.
    pub fn next_case(&mut self) -> (id: usize)
        ensures
            id == old(self).metrics.fuzz_case_count,
            *final(self) == (App {
                metrics: Metrics {
                    fuzz_case_count: old(self).metrics.fuzz_case_count.wrapping_add(1),
                    ..old(self).metrics
                },
                ..*old(self)
            }),
    {
        let id: usize = self.metrics.fuzz_case_count;
        self.metrics.fuzz_case_count = id.wrapping_add(1);
        id
    }

    /// Counts a worker that starts.
    pub fn worker_started(&mut self)
        ensures
            *final(self) == (App {
                metrics: Metrics {
                    job_active_count: old(self).metrics.job_active_count.wrapping_add(1),
                    ..old(self).metrics
                },
                ..*old(self)
            }),
    {
        self.metrics.job_active_count = self.metrics.job_active_count.wrapping_add(1);
    }

    /// Counts a worker that has finished.
    pub fn worker_finished(&mut self)
        ensures
            *final(self) == (App {
                metrics: Metrics {
                    job_finished_count: old(self).metrics.job_finished_count.wrapping_add(1),
                    ..old(self).metrics
                },
                ..*old(self)
            }),
    {
        self.metrics.job_finished_count = self.metrics.job_finished_count.wrapping_add(1);
    }

    /// Records `input` as one that gave new coverage: the time of the
    /// finding, the upper envelope of the coverage and the largest input
    /// size are brought up to date, and a copy of the input joins the corpus
    /// under its name, unless an input of that name is there. In the main
    /// phase the new unit is
    /// counted. Returns the name under which the input is to be written to
    /// the output directory: none with the socket fuzzer.
    pub fn add_dynamic_input(
        &mut self,
        input: &FuzzInput,
        exec_usec: usize,
        now_secs: usize,
        socket_fuzzer: bool,
    ) -> (r: Option<String>)
        requires
            old(self).wf(),
            old(self).metrics.fuzz_input_count < usize::MAX,
            old(self).metrics.new_units_added < usize::MAX,
        ensures
            final(self).wf(),
            Self::recorded(*old(self), *final(self), input@, exec_usec, now_secs, socket_fuzzer),
            match r {
                Some(name) => !socket_fuzzer && name@ == Self::forked(input@, exec_usec).filename,
                None => socket_fuzzer,
            },
    {
        self.metrics.last_cov_update = now_secs;
        let fuzz_file = input.fork(exec_usec);
        self.max_cov = self.max_cov.compute_local_max(&fuzz_file.cov);
        if self.metrics.fuzz_input_max_size < fuzz_file.data.len() {
            self.metrics.fuzz_input_max_size = fuzz_file.data.len();
        }
        let name: Option<String> = if socket_fuzzer {
            None
        } else {
            Some(fuzz_file.filename.clone())
        };
        let ghost before = self.corpus@;
        let mut count: usize = self.metrics.fuzz_input_count;
        self.corpus.add_file(fuzz_file, &mut count);
        self.metrics.fuzz_input_count = count;
        proof {
            assert forall|i: int| 0 <= i < self.corpus@.len() implies (#[trigger] self.corpus@[i]).idx
                < self.metrics.fuzz_input_count by {
                if i < before.len() {
                    assert(self.corpus@[i] == before[i]);
                }
            }
        }
        if socket_fuzzer {
            return name;
        }
        if self.mode != Mode::DynamicMain {
            return name;
        }
        self.metrics.new_units_added = self.metrics.new_units_added + 1;
        name
    }

    /// `after` is the shared state `before` with `input` recorded as an input
    /// that gave new coverage at `now_secs`: the corpus and the count of
    /// inputs are those after a copy of the input was added, the upper
    /// envelope of the coverage and the largest input size take the input
    /// in, and the new unit is counted in the main phase, without the socket
    /// fuzzer.
    pub open spec fn recorded(
        before: App,
        after: App,
        input: FuzzInputView,
        exec_usec: usize,
        now_secs: usize,
        socket_fuzzer: bool,
    ) -> bool {
        &&& after.mode == before.mode
        &&& after.terminating == before.terminating
        &&& after.switching_feedback == before.switching_feedback
        &&& after.barrier == before.barrier
        &&& after.breakpoint_count == before.breakpoint_count
        &&& after.current_file == before.current_file
        &&& after.seed_cursor == before.seed_cursor
        &&& forall|i: int|
            0 <= i < 4 ==> after.max_cov@[i] == crate::corpus::max_counter(
                before.max_cov@[i],
                input.cov[i],
            )
        &&& (after.corpus@, after.metrics.fuzz_input_count as int) == with_file(
            before.corpus@,
            before.metrics.fuzz_input_count as int,
            Self::forked(input, exec_usec),
        )
        &&& after.metrics == (Metrics {
            last_cov_update: now_secs,
            fuzz_input_max_size: if before.metrics.fuzz_input_max_size >= input.data.len() {
                before.metrics.fuzz_input_max_size
            } else {
                input.data.len() as usize
            },
            fuzz_input_count: after.metrics.fuzz_input_count,
            new_units_added: if !socket_fuzzer && before.mode == Mode::DynamicMain {
                (before.metrics.new_units_added + 1) as usize
            } else {
                before.metrics.new_units_added
            },
            ..before.metrics
        })
    }

    /// An input that is recorded twice is in the corpus once, and counted
    /// once: the second time changes neither the corpus nor the count of
    /// inputs, whatever the run times and the phase.
    pub proof fn lemma_recorded_twice(
        before: App,
        once: App,
        twice: App,
        input: FuzzInputView,
        first_usec: usize,
        first_secs: usize,
        second_usec: usize,
        second_secs: usize,
        socket_fuzzer: bool,
    )
        requires
            before.wf(),
            Self::recorded(before, once, input, first_usec, first_secs, socket_fuzzer),
            Self::recorded(once, twice, input, second_usec, second_secs, socket_fuzzer),
        ensures
            twice.corpus@ == once.corpus@,
            twice.metrics.fuzz_input_count == once.metrics.fuzz_input_count,
            has_name(once.corpus@, input.filename),
            once.metrics.fuzz_input_count <= before.metrics.fuzz_input_count + 1,
            !has_name(before.corpus@, input.filename) ==> once.corpus@.len()
                == before.corpus@.len() + 1 && once.metrics.fuzz_input_count
                == before.metrics.fuzz_input_count + 1,
            forall|i: int, j: int|
                0 <= i < twice.corpus@.len() && 0 <= j < twice.corpus@.len()
                    && twice.corpus@[i].filename == input.filename && twice.corpus@[j].filename
                    == input.filename ==> i == j,
    {
        crate::corpus::lemma_add_file_twice(
            before.corpus@,
            before.metrics.fuzz_input_count as int,
            Self::forked(input, first_usec),
        );
    }

    /// The copy of `input` that joins the corpus: with its run time.
    pub open spec fn forked(input: FuzzInputView, exec_usec: usize) -> FuzzInputView {
        FuzzInputView { exec_usec, ..input }
    }
}

impl Metrics {
    /// All counters zero.
    pub open spec fn spec_new() -> Metrics {
        Metrics {
            fuzz_case_count: 0,
            mutations_count: 0,
            fuzz_input_count: 0,
            crashes_count: 0,
            new_units_added: 0,
            tested_file_count: 0,
            job_active_count: 0,
            job_finished_count: 0,
            last_cov_update: 0,
            max_fuzz_run_time_ms: 0,
            fuzz_input_max_size: 0,
        }
    }

    /// All counters zero.
    pub fn new() -> (metrics: Metrics)
        ensures
            metrics == Metrics::spec_new(),
    {
        Metrics {
            fuzz_case_count: 0,
            mutations_count: 0,
            fuzz_input_count: 0,
            crashes_count: 0,
            new_units_added: 0,
            tested_file_count: 0,
            job_active_count: 0,
            job_finished_count: 0,
            last_cov_update: 0,
            max_fuzz_run_time_ms: 0,
            fuzz_input_max_size: 0,
        }
    }
}


/// What a worker keeps from one run to the next.
pub struct FuzzCase {
    /// Number of the run.
    pub id: usize,
    /// The input of the run.
    pub input: FuzzInput,
    /// The worker's machine: a fork of the pristine one.
    pub vm: Vm,
    /// In the dry run: whether the current seed file is read again with a
    /// larger size.
    pub static_file_try_more: bool,
    pub mutations_per_run: usize,
    /// How often the input that was picked last is picked again.
    pub tries: usize,
    /// In the dry run: the place of the seed file that the case reads, in
    /// the listing of the seed files.
    pub seed: Option<usize>,
}

/// The bytes of an input that the guest is given: its first `INPUT_WINDOW`.
pub open spec fn input_window(data: Seq<u8>) -> Seq<u8> {
    if data.len() <= 0x1000 {
        data
    } else {
        data.subrange(0, 0x1000)
    }
}

impl FuzzCase {
    /// A case with a fork of the machine `pristine` and an empty input.
    /// There always is one.
    pub fn new(pristine: &Vm, mutation_per_run: usize) -> (r: Result<FuzzCase, VmError>)
        ensures
            r is Ok,
            r matches Ok(case) ==> {
                &&& case.id == 0
                &&& case.input@ == FuzzInput::spec_new()
                &&& case.vm.memory.pmem@ == pristine.memory.pmem@
                &&& case.vm.memory.pmem.spec_size() == pristine.memory.pmem.spec_size()
                &&& case.vm.memory.pmem.spec_top() == pristine.memory.pmem.spec_top()
                &&& case.vm.memory.page_directory == pristine.memory.page_directory
                &&& case.vm.memory@ == pristine.memory@
                &&& pristine.memory.wf() ==> case.vm.memory.wf()
                &&& case.vm.regs == pristine.regs
                &&& case.vm.sregs == pristine.sregs
                &&& case.vm.coverage@ == Seq::<u64>::empty()
                &&& case.vm.coverage_points@ == Map::<u64, u8>::empty()
                &&& case.vm.touched@ == Seq::<usize>::empty()
                &&& !case.static_file_try_more
                &&& case.mutations_per_run == mutation_per_run
                &&& case.tries == 0
                &&& case.seed is None
            },
    {
        let vm = match pristine.fork() {
            Ok(vm) => vm,
            Err(e) => {
                return Err(e);
            },
        };
        Ok(
            FuzzCase {
                id: 0,
                input: FuzzInput::new(),
                vm,
                static_file_try_more: false,
                mutations_per_run: mutation_per_run,
                tries: 0,
                seed: None,
            },
        )
    }

    /// Gives the input `size` bytes: cut off at the end, or filled up with
    /// zeros.
    pub fn set_input_size(&mut self, size: usize, config: &Config)
        requires
            size <= config.app_config.max_input_size || size == old(self).input.data@.len(),
        ensures
            final(self).input@ == (FuzzInputView {
                data: Self::resized(old(self).input@.data, size as int),
                ..old(self).input@
            }),
            final(self).id == old(self).id,
            final(self).vm == old(self).vm,
            final(self).static_file_try_more == old(self).static_file_try_more,
            final(self).mutations_per_run == old(self).mutations_per_run,
            final(self).tries == old(self).tries,
            final(self).seed == old(self).seed,
    {
        if self.input.data.len() == size {
            assert(self.input@.data =~= Self::resized(old(self).input@.data, size as int));
            return ;
        }
        self.input.data.resize(size, 0);
        assert(self.input@.data =~= Self::resized(old(self).input@.data, size as int));
    }

    /// The bytes `data` cut off or filled up with zeros to `size` bytes.
    pub open spec fn resized(data: Seq<u8>, size: int) -> Seq<u8> {
        Seq::new(
            size as nat,
            |i: int|
                if i < data.len() {
                    data[i]
                } else {
                    0u8
                },
        )
    }

    /// How `begin_run` leaves the machine of a case and what it answers. With
    /// a log that marks a frame outside the arena the machine is as it was,
    /// and the answer is the error of the reset. Else the machine is reset:
    /// its dirty pages, its registers and its coverage. Where the place of
    /// the input is not mapped then, the answer is the first page of it that
    /// is not; else the input's window is written there and all is well.
    pub open spec fn begun(
        before: FuzzCase,
        after: FuzzCase,
        pristine: Vm,
        log: Seq<u64>,
        r: Result<(), VmError>,
    ) -> bool {
        let frames = before.vm.memory.pmem.spec_size() as int / 4096;
        let reset = restored(
            before.vm.memory.pmem@,
            pristine.memory.pmem@,
            log,
            before.vm.touched@,
        );
        let space = address_space(reset, before.vm.memory.pmem.spec_top() as int);
        let window = input_window(before.input@.data);
        if marks_outside(log, frames) {
            after.vm == before.vm && r == Err::<(), VmError>(outside_error(log, frames))
        } else {
            &&& after.vm.regs == pristine.regs
            &&& after.vm.sregs == pristine.sregs
            &&& after.vm.coverage@ == Seq::<u64>::empty()
            &&& after.vm.touched@ == Seq::<usize>::empty()
            &&& if space.range_mapped(INPUT_ADDRESS, window.len() as int) {
                r is Ok && overwritten(space, reset, after.vm.memory.pmem@, INPUT_ADDRESS, window)
            } else {
                &&& after.vm.memory.pmem@ == reset
                &&& exists|i: int|
                    space.first_unmapped(INPUT_ADDRESS, window.len() as int, i) && r == Err::<
                        (),
                        VmError,
                    >(
                        VmError::Memory(
                            VMMemoryError::AddressUnmapped(page_base(byte_va(INPUT_ADDRESS, i))),
                        ),
                    )
            }
        }
    }

    /// Makes the case ready for its next run. The run gets the count of runs
    /// as its number, and the count is raised. The machine is reset to
    /// `pristine` with the pages that `dirty_log` marks, and the guest is
    /// given the first `INPUT_WINDOW` bytes of the input at `INPUT_ADDRESS`.
    /// Fails as the reset fails, with the machine as it was, and where the
    /// input's place is not mapped, with the machine reset. The pristine
    /// machine is only read.
    pub fn begin_run(&mut self, app: &mut App, pristine: &Vm, dirty_log: &[u64]) -> (r: Result<
        (),
        VmError,
    >)
        requires
            old(self).vm.memory.pmem.spec_size() == pristine.memory.pmem.spec_size(),
            dirty_log@.len() * 0x4_0000 <= usize::MAX,
        ensures
            final(self).id == old(app).metrics.fuzz_case_count,
            *final(app) == (App {
                metrics: Metrics {
                    fuzz_case_count: old(app).metrics.fuzz_case_count.wrapping_add(1),
                    ..old(app).metrics
                },
                ..*old(app)
            }),
            final(self).input == old(self).input,
            final(self).static_file_try_more == old(self).static_file_try_more,
            final(self).mutations_per_run == old(self).mutations_per_run,
            final(self).tries == old(self).tries,
            final(self).seed == old(self).seed,
            final(self).vm.coverage_points == old(self).vm.coverage_points,
            final(self).vm.memory.pmem.spec_size() == old(self).vm.memory.pmem.spec_size(),
            final(self).vm.memory.pmem.spec_top() == old(self).vm.memory.pmem.spec_top(),
            Self::begun(*old(self), *final(self), *pristine, dirty_log@, r),
    {
        self.id = app.next_case();
        match self.vm.reset(pristine, dirty_log) {
            Ok(()) => {},
            Err(e) => {
                return Err(e);
            },
        }
        let len: usize = if self.input.data.len() < INPUT_WINDOW {
            self.input.data.len()
        } else {
            INPUT_WINDOW
        };
        let window = vstd::slice::slice_subrange(self.input.data.as_slice(), 0, len);
        assert(window@ =~= input_window(self.input@.data));
        match self.vm.memory.write(INPUT_ADDRESS, window) {
            Ok(()) => Ok(()),
            Err(e) => Err(VmError::Memory(e)),
        }
    }

    /// Takes stock after a run that took `elapsed_ms`: the longest run time
    /// is brought up to date; where the run hit coverage points, they are
    /// counted, the input's size bias is set, and the input is recorded
    /// under the name of its content as one that gave new coverage, unless
    /// the corpus has an input of that name. Returns the name under which
    /// the input is to be written to the output directory, if it is.
    pub fn end_run(
        &mut self,
        app: &mut App,
        elapsed_ms: usize,
        now_secs: usize,
        socket_fuzzer: bool,
    ) -> (r: Option<String>)
        requires
            old(app).wf(),
            old(app).metrics.fuzz_input_count < usize::MAX,
            old(app).metrics.new_units_added < usize::MAX,
            old(app).breakpoint_count + old(self).vm.coverage@.len() <= usize::MAX,
        ensures
            final(app).wf(),
            final(self).id == old(self).id,
            final(self).vm == old(self).vm,
            final(self).static_file_try_more == old(self).static_file_try_more,
            final(self).mutations_per_run == old(self).mutations_per_run,
            final(self).tries == old(self).tries,
            final(self).seed == old(self).seed,
            final(self).input@ == (if old(self).vm.coverage@.len() > 0 {
                FuzzInputView {
                    cov: old(self).input@.cov.update(
                        0,
                        (64 - log2_floor(old(self).input@.data.len() as int)) as u64,
                    ),
                    filename: if has_name(old(app).corpus@, content_name(old(self).input@.data)) {
                        old(self).input@.filename
                    } else {
                        content_name(old(self).input@.data)
                    },
                    ..old(self).input@
                }
            } else {
                old(self).input@
            }),
            if Self::is_new(
                old(self).vm.coverage@.len() as int,
                old(self).input@.data,
                old(app).corpus@,
            ) {
                &&& App::recorded(
                    Self::counted(*old(app), old(self).vm.coverage@.len() as int, elapsed_ms),
                    *final(app),
                    final(self).input@,
                    elapsed_ms,
                    now_secs,
                    socket_fuzzer,
                )
                &&& match r {
                    Some(name) => !socket_fuzzer && name@ == content_name(old(self).input@.data),
                    None => socket_fuzzer,
                }
            } else {
                *final(app) == Self::counted(
                    *old(app),
                    old(self).vm.coverage@.len() as int,
                    elapsed_ms,
                ) && r is None
            },
    {
        if app.metrics.max_fuzz_run_time_ms < elapsed_ms {
            app.metrics.max_fuzz_run_time_ms = elapsed_ms;
        }
        let coverage_count: usize = self.vm.get_coverage().len();
        if coverage_count == 0 {
            return None;
        }
        app.breakpoint_count = app.breakpoint_count + coverage_count;
        let bias: u64 = 64 - (log2(self.input.data.len()) as u64);
        let ghost before = self.input@;
        self.input.cov.counters[0] = bias;
        assert(self.input@.cov =~= before.cov.update(0, bias));
        let file_name = self.input.generate_filename();
        if app.corpus.contains(file_name.as_str()) {
            return None;
        }
        self.input.filename = file_name;
        app.add_dynamic_input(&self.input, elapsed_ms, now_secs, socket_fuzzer)
    }

    /// The shared state after a run of `elapsed_ms` that hit `hits` coverage
    /// points was counted.
    pub open spec fn counted(app: App, hits: int, elapsed_ms: usize) -> App {
        App {
            breakpoint_count: (app.breakpoint_count + hits) as usize,
            metrics: Metrics {
                max_fuzz_run_time_ms: if app.metrics.max_fuzz_run_time_ms >= elapsed_ms {
                    app.metrics.max_fuzz_run_time_ms
                } else {
                    elapsed_ms
                },
                ..app.metrics
            },
            ..app
        }
    }

    /// Whether a run that hit `hits` coverage points on an input with
    /// content `data` found something new: it hit one at least, and the
    /// corpus has no input of that content.
    pub open spec fn is_new(hits: int, data: Seq<u8>, corpus: Seq<FuzzInputView>) -> bool {
        hits > 0 && !has_name(corpus, content_name(data))
    }
}


/// The size that a seed file is read with after it was read with `len`
/// bytes: twice as many, the largest input size at most.
pub open spec fn grown_size(len: int, max_input_size: int) -> int {
    if len * 2 >= max_input_size {
        max_input_size
    } else {
        len * 2
    }
}

/// Whether a new file is read next: always outside the dry run, and in the
/// dry run unless the file that was read last is read again with more bytes.
pub open spec fn reads_new_file(mode: Mode, try_more: bool) -> bool {
    mode != Mode::DynamicDryRun || !try_more
}

/// The size with which the next input is read, for a case whose input has
/// `len` bytes: the largest input size outside the dry run; in the dry run
/// four bytes (or the largest input size, if that is less) for a new file,
/// and twice the size it was read with, up to the largest input size, for a
/// file that is read again.
pub open spec fn requested_size(mode: Mode, try_more: bool, len: int, max_input_size: int) -> int {
    if mode != Mode::DynamicDryRun {
        max_input_size
    } else if !try_more {
        if max_input_size < 4 {
            max_input_size
        } else {
            4
        }
    } else {
        grown_size(len, max_input_size)
    }
}

/// Whether the file that is read next is to be read again after: in the dry
/// run, for a new file, and for a file that is read again until its size
/// has grown to the largest input size.
pub open spec fn tries_more(mode: Mode, try_more: bool, len: int, max_input_size: int) -> bool {
    if mode != Mode::DynamicDryRun {
        try_more
    } else {
        !try_more || grown_size(len, max_input_size) != max_input_size
    }
}

/// Sets the size with which the next input is read, and says whether a new
/// file is to be read. Outside the dry run every input is a new file, read
/// with the largest input size. In the dry run a file is first read with
/// four bytes and then again and again with twice the size, until the
/// largest input size is reached.
pub fn input_should_read_new_file(mode: Mode, case: &mut FuzzCase, config: &Config) -> (r: bool)
    ensures
        final(case).id == old(case).id,
        final(case).vm == old(case).vm,
        final(case).mutations_per_run == old(case).mutations_per_run,
        final(case).tries == old(case).tries,
        final(case).seed == old(case).seed,
        r == reads_new_file(mode, old(case).static_file_try_more),
        final(case).static_file_try_more == tries_more(
            mode,
            old(case).static_file_try_more,
            old(case).input@.data.len() as int,
            config.app_config.max_input_size as int,
        ),
        final(case).input@ == (FuzzInputView {
            data: FuzzCase::resized(
                old(case).input@.data,
                requested_size(
                    mode,
                    old(case).static_file_try_more,
                    old(case).input@.data.len() as int,
                    config.app_config.max_input_size as int,
                ),
            ),
            ..old(case).input@
        }),
{
    let max: usize = config.app_config.max_input_size;
    if mode != Mode::DynamicDryRun {
        case.set_input_size(max, config);
        return true;
    }
    if !case.static_file_try_more {
        case.static_file_try_more = true;
        let first: usize = if max < 4 {
            max
        } else {
            4
        };
        case.set_input_size(first, config);
        return true;
    }
    let len: usize = case.input.data.len();
    let new_size: usize = if len >= max - max / 2 {
        max
    } else {
        len * 2
    };
    if new_size == max {
        case.static_file_try_more = false;
    }
    case.set_input_size(new_size, config);
    false
}

/// A seed file: its name and its bytes.
pub struct SeedFile {
    pub name: String,
    pub data: Vec<u8>,
}

/// The place of the first seed file from place `k` on that is taken: place
/// `k` itself where files are mutated; else the first whose name the corpus
/// does not hold. A place after the last file where none is left.
pub open spec fn next_seed(
    seeds: Seq<SeedFile>,
    corpus: Seq<FuzzInputView>,
    mangle: bool,
    k: int,
) -> int
    decreases seeds.len() - k,
{
    if k >= seeds.len() {
        k
    } else if !mangle && has_name(corpus, seeds[k].name@) {
        next_seed(seeds, corpus, mangle, k + 1)
    } else {
        k
    }
}

/// The seed file that a case reads next, by its place in `seeds`: where a
/// new file is read, the first file that no worker has taken yet; else the
/// file that the case read last.
pub open spec fn static_seed(seeds: Seq<SeedFile>, app: App, case: FuzzCase, mangle: bool) -> Option<
    usize,
> {
    if reads_new_file(app.mode, case.static_file_try_more) {
        let n = next_seed(seeds, app.corpus@, mangle, app.seed_cursor as int);
        if n < seeds.len() {
            Some(n as usize)
        } else {
            None
        }
    } else {
        case.seed
    }
}

/// The shared state after a case has asked for its next seed file: a new
/// file that was taken is counted as tested, and the cursor stands after it;
/// where none was left, the cursor stands after the last file.
pub open spec fn seed_taken(seeds: Seq<SeedFile>, app: App, case: FuzzCase, mangle: bool) -> App {
    let n = next_seed(seeds, app.corpus@, mangle, app.seed_cursor as int);
    if !reads_new_file(app.mode, case.static_file_try_more) {
        app
    } else if n < seeds.len() {
        App {
            seed_cursor: (n + 1) as usize,
            metrics: Metrics {
                tested_file_count: app.metrics.tested_file_count.wrapping_add(1),
                ..app.metrics
            },
            ..app
        }
    } else {
        App { seed_cursor: n as usize, ..app }
    }
}

/// Reads the next seed file into the case, and says whether there was one.
/// The size to read is set as `input_should_read_new_file` sets it. A new
/// file is the first in the order of `seeds` that no worker has taken yet;
/// it is taken and counted as tested. (Where files are not mutated, files
/// whose names the corpus holds are passed over.) A file that is read again
/// is the one that the case read last. The input becomes the bytes of the
/// file, as many as the size to read at most, with no coverage, number or
/// references; a file that has fewer bytes is not read again. Where no file
/// is left, the input is not touched by a file.
pub fn fuzz_prepare_static_file(
    app: &mut App,
    case: &mut FuzzCase,
    seeds: &Vec<SeedFile>,
    mangle: bool,
    config: &Config,
) -> (r: bool)
    ensures
        *final(app) == seed_taken(seeds@, *old(app), *old(case), mangle),
        final(case).id == old(case).id,
        final(case).vm == old(case).vm,
        final(case).mutations_per_run == old(case).mutations_per_run,
        final(case).tries == old(case).tries,
        final(case).seed == static_seed(seeds@, *old(app), *old(case), mangle),
        r == (final(case).seed matches Some(k) && k < seeds@.len()),
        ({
            let size = requested_size(
                old(app).mode,
                old(case).static_file_try_more,
                old(case).input@.data.len() as int,
                config.app_config.max_input_size as int,
            );
            let more = tries_more(
                old(app).mode,
                old(case).static_file_try_more,
                old(case).input@.data.len() as int,
                config.app_config.max_input_size as int,
            );
            if r {
                let file = seeds@[final(case).seed.unwrap() as int].data@;
                &&& final(case).input@ == (FuzzInputView {
                    data: if file.len() <= size {
                        file
                    } else {
                        file.subrange(0, size)
                    },
                    cov: seq![0u64, 0u64, 0u64, 0u64],
                    idx: 0,
                    refs: 0,
                    ..old(case).input@
                })
                &&& final(case).input@.data.len() <= config.app_config.max_input_size
                &&& final(case).static_file_try_more == (more && file.len() >= size)
            } else {
                &&& final(case).input@ == (FuzzInputView {
                    data: FuzzCase::resized(old(case).input@.data, size),
                    ..old(case).input@
                })
                &&& final(case).static_file_try_more == more
            }
        }),
{
    let mode = app.mode;
    if input_should_read_new_file(mode, case, config) {
        let mut k: usize = app.seed_cursor;
        while k < seeds.len() && !mangle && app.corpus.contains(seeds[k].name.as_str())
            invariant
                *app == *old(app),
                next_seed(seeds@, app.corpus@, mangle, app.seed_cursor as int) == next_seed(
                    seeds@,
                    app.corpus@,
                    mangle,
                    k as int,
                ),
            decreases seeds@.len() - k,
        {
            k = k + 1;
        }
        if k < seeds.len() {
            case.seed = Some(k);
            app.seed_cursor = k + 1;
            app.metrics.tested_file_count = app.metrics.tested_file_count.wrapping_add(1);
        } else {
            case.seed = None;
            app.seed_cursor = k;
        }
    }
    let at: usize = match case.seed {
        Some(at) => at,
        None => {
            return false;
        },
    };
    if at >= seeds.len() {
        return false;
    }
    let file = &seeds[at].data;
    let size: usize = case.input.data.len();
    let len: usize = if file.len() < size {
        file.len()
    } else {
        size
    };
    if case.static_file_try_more && file.len() < size {
        case.static_file_try_more = false;
    }
    let bytes = vstd::slice::slice_subrange(file.as_slice(), 0, len);
    case.input.data = vstd::slice::slice_to_vec(bytes);
    case.input.cov = FuzzCov::new();
    case.input.idx = 0;
    case.input.refs = 0;
    proof {
        if file@.len() <= size {
            assert(case.input@.data =~= file@);
        }
    }
    true
}

/// Where the choice of the next input starts: just after the input called
/// `current`, or at the first input where there is no such input or none
/// after it.
pub open spec fn start_position(corpus: Seq<FuzzInputView>, current: Option<String>, position: int)
    -> int {
    match current {
        Some(name) => if has_name(corpus, name@) && position + 1 < corpus.len() {
            position + 1
        } else {
            0
        },
        None => 0,
    }
}

/// The choice of the next input among `corpus`, from place `pos` on, for a
/// case with speed factor `speed`, with the random numbers `draws`: the
/// place of the input, and how often it is to be picked again. An input
/// whose skip factor is not positive is taken, and again as many times as
/// the factor is below zero. Any other input is taken when the next random
/// number is a multiple of its skip factor; else the choice goes on with the
/// next input, and after the last with the first. There is no choice where
/// the random numbers run out.
pub open spec fn pick(corpus: Seq<FuzzInputView>, count: int, speed: int, pos: int, draws: Seq<u64>)
    -> Option<(int, int)>
    decreases draws.len(),
{
    let skip = skip_factor(speed, corpus[pos].idx as int, count, corpus[pos].data.len() as int);
    if skip <= 0 {
        Some((pos, -skip))
    } else if draws.len() == 0 {
        None
    } else if draws[0] as int % skip == 0 {
        Some((pos, 0))
    } else {
        pick(
            corpus,
            count,
            speed,
            if pos + 1 < corpus.len() {
                pos + 1
            } else {
                0
            },
            draws.skip(1),
        )
    }
}

/// The choice of the next input for a case that is to pick its last input
/// `tries` times more: the input at `pos` where `tries` is positive, the
/// choice of `pick` else.
pub open spec fn pick_next(
    corpus: Seq<FuzzInputView>,
    count: int,
    speed: int,
    pos: int,
    tries: int,
    draws: Seq<u64>,
) -> Option<(int, int)> {
    if tries > 0 {
        Some((pos, tries - 1))
    } else {
        pick(corpus, count, speed, pos, draws)
    }
}

/// The speed factor that the mutator is given for an input: none for an
/// input that was taken because the one picked last is picked again, the
/// case's speed factor between -10 and 2 for an input that was chosen.
pub open spec fn mutator_speed(tries: int, speed: int) -> int {
    if tries > 0 {
        0
    } else {
        clamp(speed, -10, 2)
    }
}

/// Picks the next input from the corpus and copies it into the case. The
/// choice starts after the input that `current_file` names and is made by
/// `pick_next` with the random numbers `draws`; where they run out before an
/// input is picked, nothing changes and the answer is none. After a choice,
/// `current_file` names the input after the one picked, and the answer is
/// the speed factor that the mutator is given for the input.
pub fn prepare_dynamic_input(
    app: &mut App,
    case: &mut FuzzCase,
    speed: isize,
    draws: &[u64],
    config: &Config,
) -> (r: Option<isize>)
    requires
        old(app).wf(),
        old(app).corpus@.len() > 0,
        old(app).metrics.fuzz_input_count > 0,
    ensures
        final(app).wf(),
        final(app).mode == old(app).mode,
        final(app).terminating == old(app).terminating,
        final(app).switching_feedback == old(app).switching_feedback,
        final(app).barrier == old(app).barrier,
        final(app).breakpoint_count == old(app).breakpoint_count,
        final(app).seed_cursor == old(app).seed_cursor,
        final(app).metrics == old(app).metrics,
        final(app).corpus == old(app).corpus,
        final(app).max_cov == old(app).max_cov,
        final(case).id == old(case).id,
        final(case).vm == old(case).vm,
        final(case).static_file_try_more == old(case).static_file_try_more,
        final(case).mutations_per_run == old(case).mutations_per_run,
        final(case).seed == old(case).seed,
        match pick_next(
            old(app).corpus@,
            old(app).metrics.fuzz_input_count as int,
            speed as int,
            start_position(
                old(app).corpus@,
                old(app).current_file,
                match old(app).current_file {
                    Some(name) => old(app).corpus.position(name@),
                    None => 0,
                },
            ),
            old(case).tries as int,
            draws@,
        ) {
            None => {
                &&& r is None
                &&& final(app).current_file == old(app).current_file
                &&& final(case).tries == old(case).tries
                &&& final(case).input == old(case).input
            },
            Some((pos, tries)) => {
                &&& r == Some(mutator_speed(old(case).tries as int, speed as int) as isize)
                &&& 0 <= pos < old(app).corpus@.len()
                &&& final(case).tries == tries
                &&& final(case).input@ == (FuzzInputView { refs: 0, ..old(app).corpus@[pos] })
                &&& match final(app).current_file {
                    Some(name) => pos + 1 < old(app).corpus@.len() && name@ == old(
                        app,
                    ).corpus@[pos + 1].filename,
                    None => pos + 1 == old(app).corpus@.len(),
                }
            },
        },
{
    let n: usize = app.corpus.len();
    let count: usize = app.metrics.fuzz_input_count;
    let start: usize = match &app.current_file {
        Some(name) => {
            let next = app.corpus.iter_from(name.as_str());
            if next < n {
                next
            } else {
                0
            }
        },
        None => app.corpus.iter(),
    };
    let ghost corpus = app.corpus@;
    let ghost goal = pick_next(
        corpus,
        count as int,
        speed as int,
        start as int,
        case.tries as int,
        draws@,
    );
    proof {
        assert(start == start_position(
            corpus,
            app.current_file,
            match app.current_file {
                Some(name) => app.corpus.position(name@),
                None => 0,
            },
        ));
        assert(draws@.skip(0) =~= draws@);
    }
    let mut pos: usize = start;
    let mut tries: usize = case.tries;
    let mut used: usize = 0;
    let mut found: bool = false;
    let factor: isize = if tries > 0 {
        0
    } else if speed < -10 {
        -10
    } else if speed > 2 {
        2
    } else {
        speed
    };
    if tries > 0 {
        tries = tries - 1;
        found = true;
    }
    while !found
        invariant
            *app == *old(app),
            *case == *old(case),
            goal == pick_next(
                old(app).corpus@,
                old(app).metrics.fuzz_input_count as int,
                speed as int,
                start_position(
                    old(app).corpus@,
                    old(app).current_file,
                    match old(app).current_file {
                        Some(name) => old(app).corpus.position(name@),
                        None => 0,
                    },
                ),
                old(case).tries as int,
                draws@,
            ),
            pos < n,
            n == corpus.len(),
            corpus == app.corpus@,
            app.wf(),
            count == app.metrics.fuzz_input_count,
            count > 0,
            used <= draws@.len(),
            !found ==> goal == pick(
                corpus,
                count as int,
                speed as int,
                pos as int,
                draws@.skip(used as int),
            ),
            found ==> goal == Some((pos as int, tries as int)),
            !found ==> used < draws@.len() || draws@.len() == used,
        decreases (if found { 0int } else { 1int }), draws@.len() - used,
    {
        let (_, skip) = input_skip_factor(
            speed,
            app.corpus.files[pos].idx,
            count,
            app.corpus.files[pos].data.len(),
        );
        assert(corpus[pos as int].idx == app.corpus.files@[pos as int].idx);
        assert(corpus[pos as int].data.len() == app.corpus.files@[pos as int].data@.len());
        if skip <= 0 {
            tries = (-skip) as usize;
            found = true;
        } else if used >= draws.len() {
            proof {
                assert(draws@.skip(used as int).len() == 0);
            }
            return None;
        } else {
            let draw: u64 = draws[used];
            proof {
                assert(draws@.skip(used as int)[0] == draw);
                assert(draws@.skip(used as int).skip(1) =~= draws@.skip(used + 1));
            }
            used = used + 1;
            if draw % (skip as u64) == 0 {
                tries = 0;
                found = true;
            } else {
                pos = if pos + 1 < n {
                    pos + 1
                } else {
                    0
                };
            }
        }
    }
    app.current_file = if pos + 1 < n {
        Some(app.corpus.files[pos + 1].filename.clone())
    } else {
        None
    };
    let file = &app.corpus.files[pos];
    case.tries = tries;
    case.input.idx = file.idx;
    case.input.exec_usec = file.exec_usec;
    case.input.refs = 0;
    case.input.cov = file.cov;
    case.input.filename = file.filename.clone();
    case.input.data = file.data.clone();
    Some(factor)
}


/// How a worker gets its next input.
#[derive(Clone, Copy, Debug, PartialEq, Eq, Structural)]
pub enum FetchStep {
    /// From the next seed file.
    StaticFile,
    /// From the corpus, mutated or not.
    Dynamic { mangle: bool },
    /// Not at all: the corpus is minimized.
    Minimize,
}

/// How a worker gets its next input in the phase `mode`.
pub open spec fn fetch_step(mode: Mode, config: Config) -> FetchStep {
    match mode {
        Mode::DynamicDryRun => FetchStep::StaticFile,
        Mode::DynamicMinimize => FetchStep::Minimize,
        _ => FetchStep::Dynamic {
            mangle: config.exe_config.mutation_cmdline is None
                && config.exe_config.fb_mutation_cmdline is None,
        },
    }
}

/// No worker takes an input from the corpus before all workers have reached
/// the barrier: in a session that has kept the barrier, a worker is sent to
/// the corpus only in the main phase, and then `jobs` workers have reached
/// the barrier.
pub proof fn lemma_corpus_after_barrier(app: App, config: Config)
    requires
        app.barrier_passed(config.app_config.jobs),
        app.mode != Mode::Static,
        fetch_step(app.mode, config) is Dynamic,
    ensures
        app.mode == Mode::DynamicMain,
        app.barrier >= config.app_config.jobs,
{
}

/// How a worker gets its next input in the phase `mode`: from the seed files
/// in the dry run, with no mutation per run; from the corpus in the main
/// phase, mutated unless a command is configured that mutates in place of
/// the fuzzer.
pub fn fuzz_fetch_input(mode: Mode, case: &mut FuzzCase, config: &Config) -> (step: FetchStep)
    requires
        mode != Mode::Static,
    ensures
        step == fetch_step(mode, *config),
        *final(case) == (FuzzCase {
            mutations_per_run: if mode == Mode::DynamicDryRun {
                0
            } else {
                old(case).mutations_per_run
            },
            ..*old(case)
        }),
{
    match mode {
        Mode::DynamicDryRun => {
            case.mutations_per_run = 0;
            FetchStep::StaticFile
        },
        Mode::DynamicMinimize => FetchStep::Minimize,
        _ => FetchStep::Dynamic {
            mangle: config.exe_config.mutation_cmdline.is_none()
                && config.exe_config.fb_mutation_cmdline.is_none(),
        },
    }
}

/// Switches the phase after the dry run, once all workers have reached the
/// barrier: to minimizing where that is asked for, to the main phase else.
/// Before the main phase starts, a corpus that the dry run left empty gets
/// one empty input, called `[DYNAMIC-0-SIZE]`; the case's input is called
/// `[DYNAMIC]`; and where the size of input files is not limited, the
/// largest input size becomes the size of the largest input found, between
/// `INPUT_MIN_SIZE` and what it was. Nothing happens where the phase is not
/// the dry run or a worker has yet to reach the barrier. Returns the name
/// under which the empty input is to be written to the output directory, if
/// it is.
pub fn set_dynamic_main_state(
    app: &mut App,
    case: &mut FuzzCase,
    config: &mut Config,
    exec_usec: usize,
    now_secs: usize,
) -> (r: Option<String>)
    requires
        old(app).wf(),
        old(app).metrics.fuzz_input_count < usize::MAX,
        old(app).metrics.new_units_added < usize::MAX,
    ensures
        final(app).wf(),
        old(app).barrier_passed(old(config).app_config.jobs) ==> final(app).barrier_passed(
            old(config).app_config.jobs,
        ),
        final(app).mode == Mode::DynamicMain && old(app).mode != Mode::DynamicMain
            ==> final(app).corpus@.len() > 0,
        final(app).barrier == old(app).barrier,
        final(app).terminating == old(app).terminating,
        final(app).breakpoint_count == old(app).breakpoint_count,
        final(app).seed_cursor == old(app).seed_cursor,
        final(app).current_file == old(app).current_file,
        final(app).max_cov@ == old(app).max_cov@,
        final(case).id == old(case).id,
        final(case).vm == old(case).vm,
        final(case).static_file_try_more == old(case).static_file_try_more,
        final(case).tries == old(case).tries,
        final(case).seed == old(case).seed,
        final(config).io_config == old(config).io_config,
        final(config).exe_config == old(config).exe_config,
        !switches(*old(app), *old(config)) ==> *final(app) == *old(app) && *final(case) == *old(
            case,
        ) && *final(config) == *old(config) && r is None,
        switches(*old(app), *old(config)) ==> {
            &&& !final(app).switching_feedback
            &&& final(app).mode == (if old(config).app_config.minimize {
                Mode::DynamicMinimize
            } else {
                Mode::DynamicMain
            })
            &&& final(case).mutations_per_run == old(config).app_config.mutation_per_run
        },
        switches(*old(app), *old(config)) && old(config).app_config.minimize ==> {
            &&& final(app).corpus == old(app).corpus
            &&& final(app).metrics == old(app).metrics
            &&& final(case).input == old(case).input
            &&& final(config).app_config == old(config).app_config
            &&& r is None
        },
        switches(*old(app), *old(config)) && !old(config).app_config.minimize ==> {
            &&& final(case).input@ == (FuzzInputView {
                filename: "[DYNAMIC]"@,
                ..old(case).input@
            })
            &&& final(config).app_config == (AppConfig {
                max_input_size: adjusted_input_size(
                    old(config).io_config.max_file_size,
                    old(config).app_config.max_input_size,
                    final(app).metrics.fuzz_input_max_size,
                ),
                ..old(config).app_config
            })
            &&& if old(app).metrics.fuzz_input_count == 0 {
                &&& final(app).corpus@ == seq![
                    FuzzInputView {
                        exec_usec,
                        filename: empty_input_name(),
                        ..FuzzInput::spec_new()
                    },
                ]
                &&& final(app).metrics == (Metrics {
                    fuzz_input_count: 1,
                    last_cov_update: now_secs,
                    ..old(app).metrics
                })
                &&& match r {
                    Some(name) => !old(config).app_config.socket_fuzzer && name@
                        == empty_input_name(),
                    None => old(config).app_config.socket_fuzzer,
                }
            } else {
                &&& final(app).corpus == old(app).corpus
                &&& final(app).metrics == old(app).metrics
                &&& r is None
            }
        },
{
    if app.mode != Mode::DynamicDryRun || app.barrier != config.app_config.jobs {
        return None;
    }
    app.switching_feedback = false;
    case.mutations_per_run = config.app_config.mutation_per_run;
    if config.app_config.minimize {
        app.mode = Mode::DynamicMinimize;
        return None;
    }
    let mut name: Option<String> = None;
    if app.metrics.fuzz_input_count == 0 {
        let mut fuzz_file = FuzzInput::new();
        fuzz_file.filename = String::from_str("[DYNAMIC-0-SIZE]");
        name = app.add_dynamic_input(
            &fuzz_file,
            exec_usec,
            now_secs,
            config.app_config.socket_fuzzer,
        );
        proof {
            reveal_strlit("[DYNAMIC-0-SIZE]");
            assert(!has_name(old(app).corpus@, fuzz_file@.filename));
            assert(app.max_cov@ =~= old(app).max_cov@);
            assert(app.corpus@ =~= seq![
                FuzzInputView {
                    exec_usec,
                    filename: empty_input_name(),
                    ..FuzzInput::spec_new()
                },
            ]);
        }
    }
    case.input.filename = String::from_str("[DYNAMIC]");
    if config.io_config.max_file_size == 0 && config.app_config.max_input_size > INPUT_MIN_SIZE {
        let mut new_size: usize = if app.metrics.fuzz_input_max_size > INPUT_MIN_SIZE {
            app.metrics.fuzz_input_max_size
        } else {
            INPUT_MIN_SIZE
        };
        if new_size > config.app_config.max_input_size {
            new_size = config.app_config.max_input_size;
        }
        config.app_config.max_input_size = new_size;
    }
    app.mode = Mode::DynamicMain;
    name
}

/// Whether the phase is switched now: the fuzzer is in the dry run and all
/// workers have reached the barrier.
pub open spec fn switches(app: App, config: Config) -> bool {
    app.mode == Mode::DynamicDryRun && app.barrier == config.app_config.jobs
}

/// The largest input size for the main phase: where the size of input files
/// is not limited and the largest input size is above `INPUT_MIN_SIZE`, the
/// size of the largest input found, between `INPUT_MIN_SIZE` and the
/// largest input size; the largest input size as it is else.
pub open spec fn adjusted_input_size(max_file_size: usize, max_input_size: usize, found: usize)
    -> usize {
    if max_file_size == 0 && max_input_size > INPUT_MIN_SIZE {
        if found <= INPUT_MIN_SIZE {
            INPUT_MIN_SIZE
        } else if found > max_input_size {
            max_input_size
        } else {
            found
        }
    } else {
        max_input_size
    }
}

/// What a worker does after it tried to get an input.
#[derive(Clone, Copy, Debug, PartialEq, Eq, Structural)]
pub enum LoopStep {
    /// Run the input.
    Run,
    /// Stop: the fuzzer is done.
    Stop,
}

/// Starts an iteration of a worker: the case mutates as often per run as
/// the configuration says.
pub fn fuzz_loop(case: &mut FuzzCase, config: &Config)
    ensures
        *final(case) == (FuzzCase {
            mutations_per_run: config.app_config.mutation_per_run,
            ..*old(case)
        }),
{
    case.mutations_per_run = config.app_config.mutation_per_run;
}

/// What a worker does after it tried to get an input: where it got none
/// because the corpus is minimized, the fuzzer is told to stop and the
/// worker stops; else the worker runs what the case holds.
pub fn after_fetch(app: &mut App, fetched: bool, minimize: bool) -> (step: LoopStep)
    ensures
        step == (if !fetched && minimize && old(app).mode == Mode::DynamicMinimize {
            LoopStep::Stop
        } else {
            LoopStep::Run
        }),
        *final(app) == (App {
            terminating: old(app).terminating || step == LoopStep::Stop,
            ..*old(app)
        }),
{
    if !fetched && minimize && app.mode == Mode::DynamicMinimize {
        app.set_terminating();
        return LoopStep::Stop;
    }
    LoopStep::Run
}

/// Counts a mutation and says whether the worker goes on: it stops when as
/// many mutations were counted before as the fuzzer is to make.
pub fn worker(app: &mut App, mutation_num: Option<usize>) -> (goes_on: bool)
    ensures
        *final(app) == (App {
            metrics: Metrics {
                mutations_count: old(app).metrics.mutations_count.wrapping_add(1),
                ..old(app).metrics
            },
            ..*old(app)
        }),
        goes_on == (match mutation_num {
            Some(n) => old(app).metrics.mutations_count < n,
            None => true,
        }),
{
    let mutation_count: usize = app.metrics.mutations_count;
    app.metrics.mutations_count = mutation_count.wrapping_add(1);
    match mutation_num {
        Some(n) => mutation_count < n,
        None => true,
    }
}

/// Whether a worker stops after an iteration: when the fuzzer is to stop,
/// and when it is to stop at the first crash and there was one, in which
/// case the fuzzer is told to stop.
pub fn worker_done(app: &mut App, crash_exit: bool) -> (stops: bool)
    ensures
        stops == (old(app).terminating || (crash_exit && old(app).metrics.crashes_count > 0)),
        *final(app) == (App { terminating: stops, ..*old(app) }),
{
    if app.is_terminating() {
        return true;
    }
    if crash_exit && app.metrics.crashes_count > 0 {
        app.set_terminating();
        return true;
    }
    false
}


} // verus!
