use tartiflette::config::{AppConfig, Config, ExeConfig, FeedBackMethod, IOConfig};
use tartiflette::corpus::{FuzzCov, FuzzInput};
use tartiflette::fuzz::{
    after_fetch, compute_fuzz_mode, fuzz_fetch_input, fuzz_loop, fuzz_prepare_static_file,
    input_should_read_new_file, input_skip_factor, input_speed_factor, prepare_dynamic_input,
    set_dynamic_main_state, worker, worker_done, App, BarrierPoll, FetchStep, FuzzCase,
    FuzzWorker, LoopStep, Metrics, Mode, SeedFile, INPUT_ADDRESS, INPUT_MIN_SIZE,
};
use tartiflette::memory::{VMMemory, VMMemoryError};
use tartiflette::paging::{PagePermissions, VirtAddr, PAGE_SIZE};
use tartiflette::vm::{CpuExit, Vm, VmError};

fn config(jobs: usize) -> Config {
    Config {
        io_config: IOConfig {
            input_dir: "in".to_string(),
            output_dir: "out".to_string(),
            crash_dir: "crash".to_string(),
            cov_dir: "cov".to_string(),
            max_file_size: 1 << 20,
            input_file_count: 0,
        },
        exe_config: ExeConfig {
            cmdline: None,
            mutation_cmdline: None,
            post_mutation_cmdline: None,
            fb_mutation_cmdline: None,
        },
        app_config: AppConfig {
            verbose: 0,
            jobs,
            minimize: false,
            feedback_method: FeedBackMethod::SOFT,
            persistent: false,
            netdriver: false,
            crash_exit: false,
            mutation_per_run: 5,
            mutation_num: None,
            socket_fuzzer: false,
            timeout: 10,
            max_input_size: 0x4000,
            random_ascii: false,
        },
    }
}

fn pristine() -> Vm {
    let mut memory = VMMemory::new(256 * PAGE_SIZE).unwrap();
    let rw = PagePermissions::new(PagePermissions::READ | PagePermissions::WRITE);
    memory.mmap(INPUT_ADDRESS, 2 * PAGE_SIZE, rw).unwrap();
    memory.mmap(0x40_0000, PAGE_SIZE, PagePermissions::new(PagePermissions::EXECUTE)).unwrap();
    memory.write(0x40_0000, &[0x90, 0xf4]).unwrap();
    Vm::new(memory)
}

fn case() -> FuzzCase {
    FuzzCase::new(&pristine(), 5).unwrap()
}

fn named(data: &[u8]) -> FuzzInput {
    let mut input = FuzzInput::new();
    input.data = data.to_vec();
    input.filename = input.generate_filename();
    input
}

fn app_with(mode: Mode, inputs: &[&[u8]]) -> App {
    let mut app = App::new(mode);
    for data in inputs {
        app.add_dynamic_input(&named(data), 0, 0, true);
    }
    app
}

#[test]
fn the_starting_phase() {
    let mut c = config(1);
    assert_eq!(compute_fuzz_mode(&c), Mode::DynamicDryRun);
    c.app_config.feedback_method = FeedBackMethod::NONE;
    assert_eq!(compute_fuzz_mode(&c), Mode::Static);
    c.app_config.socket_fuzzer = true;
    assert_eq!(compute_fuzz_mode(&c), Mode::DynamicMain);
    c.app_config.feedback_method = FeedBackMethod::SOFT;
    assert_eq!(compute_fuzz_mode(&c), Mode::DynamicMain);
    let _ = FuzzWorker {};
}

#[test]
fn speed_factor_values() {
    // one second, ten mutations, two jobs: 50 ms on average
    assert_eq!(input_speed_factor(1_000_000, 10, 2, 100_000), 2);
    assert_eq!(input_speed_factor(1_000_000, 10, 2, 50_000), 1);
    assert_eq!(input_speed_factor(1_000_000, 10, 2, 49_999), -1);
    assert_eq!(input_speed_factor(1_000_000, 10, 2, 10_000), -5);
    assert_eq!(input_speed_factor(1_000_000, 10, 2, 0), -50_000);
    // both times are taken between a microsecond and a second
    assert_eq!(input_speed_factor(0, 10, 2, 5), 5);
    assert_eq!(input_speed_factor(usize::MAX, 1, 1, 5), -200_000);
    assert_eq!(input_speed_factor(usize::MAX, 1, 1, usize::MAX), 1);
    assert_eq!(input_speed_factor(10, 1, 1, usize::MAX), 100_000);
}

#[test]
fn skip_factor_values() {
    // speed, age and size add up
    assert_eq!(input_skip_factor(0, 0, 10, 1024), (0, 2));
    assert_eq!(input_skip_factor(1, 0, 10, 2048), (1, 4));
    // the speed factor counts between -10 and 2
    assert_eq!(input_skip_factor(100, 0, 10, 1024), (2, 4));
    assert_eq!(input_skip_factor(-100, 0, 10, 1024), (-10, -8));
    // age: the percentile of the input's number
    let age = |idx, count| input_skip_factor(0, idx, count, 1024).1;
    assert_eq!(age(40, 100), 2);
    assert_eq!(age(41, 100), 1);
    assert_eq!(age(70, 100), 1);
    assert_eq!(age(71, 100), 0);
    assert_eq!(age(80, 100), 0);
    assert_eq!(age(81, 100), -1);
    assert_eq!(age(90, 100), -1);
    assert_eq!(age(91, 100), -2);
    assert_eq!(age(97, 100), -2);
    assert_eq!(age(98, 100), -3);
    assert_eq!(age(100, 100), -3);
    assert_eq!(age(0, 1), 2);
    assert_eq!(age(usize::MAX - 1, usize::MAX), -3);
    // size: nothing for an empty input and for a kilobyte
    let size = |len| input_skip_factor(0, 75, 100, len).1;
    assert_eq!(size(0), 0);
    assert_eq!(size(1), -5);
    assert_eq!(size(31), -5);
    assert_eq!(size(64), -4);
    assert_eq!(size(1023), -1);
    assert_eq!(size(1024), 0);
    assert_eq!(size(2047), 0);
    assert_eq!(size(2048), 1);
    assert_eq!(size(1 << 15), 5);
    assert_eq!(size(usize::MAX), 5);
    // the extremes
    assert_eq!(input_skip_factor(-10, 99, 100, 1).1, -18);
    assert_eq!(input_skip_factor(2, 0, 100, 1 << 20).1, 9);
}

#[test]
fn newer_and_smaller_inputs_are_skipped_less() {
    for speed in [-3isize, 0, 2] {
        let mut last = isize::MAX;
        for idx in 0..=200 {
            let factor = input_skip_factor(speed, idx, 200, 4096).1;
            assert!(factor <= last);
            last = factor;
        }
        let mut last = isize::MIN;
        for len in (1..40).map(|shift| 1usize << shift).chain(1000..1100) {
            let factor = input_skip_factor(speed, 10, 200, len).1;
            if len >= 1000 && len < 1100 {
                continue;
            }
            assert!(factor >= last, "{}", len);
            last = factor;
        }
    }
}

#[test]
fn recording_an_input_that_gave_new_coverage() {
    let mut app = App::new(Mode::DynamicDryRun);
    let mut input = named(&[0x41; 64]);
    input.cov = FuzzCov { counters: [58, 3, 0, 1] };
    let name = app.add_dynamic_input(&input, 1500, 42, false);
    assert_eq!(name, Some(input.generate_filename()));
    assert_eq!(app.corpus.len(), 1);
    assert_eq!(app.metrics.fuzz_input_count, 1);
    assert_eq!(app.metrics.last_cov_update, 42);
    assert_eq!(app.metrics.fuzz_input_max_size, 64);
    assert_eq!(app.metrics.new_units_added, 0);
    assert_eq!(app.max_cov.bytes(), [58, 3, 0, 1]);
    let file = app.corpus.get(0).unwrap();
    assert_eq!((file.idx, file.exec_usec, file.refs), (0, 1500, 0));
    assert_eq!(file.data, vec![0x41; 64]);

    // a second time: one entry, counted once
    input.cov = FuzzCov { counters: [1, 9, 0, 0] };
    let name = app.add_dynamic_input(&input, 10, 43, false);
    assert_eq!(name, Some(input.generate_filename()));
    assert_eq!(app.corpus.len(), 1);
    assert_eq!(app.metrics.fuzz_input_count, 1);
    assert_eq!(app.metrics.last_cov_update, 43);
    assert_eq!(app.max_cov.bytes(), [58, 9, 0, 1]);
    assert_eq!(app.corpus.get(0).unwrap().exec_usec, 1500);

    // in the main phase new units are counted, but not with the socket fuzzer
    app.mode = Mode::DynamicMain;
    let input = named(&[1, 2, 3]);
    assert!(app.add_dynamic_input(&input, 0, 44, false).is_some());
    assert_eq!(app.metrics.new_units_added, 1);
    assert_eq!(app.metrics.fuzz_input_max_size, 64);
    let input = named(&[0; 100]);
    assert_eq!(app.add_dynamic_input(&input, 0, 45, true), None);
    assert_eq!(app.metrics.new_units_added, 1);
    assert_eq!(app.metrics.fuzz_input_max_size, 100);
    assert_eq!((app.corpus.len(), app.metrics.fuzz_input_count), (3, 3));
    assert_eq!(app.corpus.get(2).unwrap().idx, 2);
}

#[test]
fn the_barrier_opens_when_all_workers_are_there() {
    let mut c = config(4);
    let mut app = app_with(Mode::DynamicDryRun, &[b"seed"]);
    let mut cases = [case(), case(), case(), case()];
    assert_eq!(
        app.metrics,
        Metrics { fuzz_input_count: 1, fuzz_input_max_size: 4, ..Metrics::new() }
    );

    for (i, worker_case) in cases.iter_mut().enumerate().take(3) {
        assert!(app.reach_barrier(4));
        assert!(app.switching_feedback);
        assert_eq!(app.barrier, i + 1);
        assert_eq!(app.poll_barrier(4), BarrierPoll::Wait);
        // a worker that goes on too early changes nothing
        assert_eq!(set_dynamic_main_state(&mut app, worker_case, &mut c, 0, 0), None);
        assert_eq!(app.get_mode(), Mode::DynamicDryRun);
    }
    assert!(app.reach_barrier(4));
    assert_eq!(app.poll_barrier(4), BarrierPoll::Proceed);
    assert_eq!(set_dynamic_main_state(&mut app, &mut cases[3], &mut c, 0, 0), None);
    assert_eq!(app.get_mode(), Mode::DynamicMain);
    assert!(!app.switching_feedback);
    assert_eq!(cases[3].input.filename, "[DYNAMIC]");
    assert_eq!(cases[3].mutations_per_run, 5);
    assert_eq!(app.corpus.len(), 1);
    // the others find the phase switched
    for worker_case in cases.iter_mut().take(3) {
        assert_eq!(app.poll_barrier(4), BarrierPoll::Proceed);
        assert_eq!(set_dynamic_main_state(&mut app, worker_case, &mut c, 0, 0), None);
        assert_eq!(app.get_mode(), Mode::DynamicMain);
    }
    // a worker that comes later does not wait
    assert!(!app.reach_barrier(4));
    assert_eq!(app.barrier, 5);
}

#[test]
fn a_waiting_worker_leaves_when_the_fuzzer_stops() {
    let mut app = App::new(Mode::DynamicDryRun);
    assert!(!app.is_terminating());
    assert!(app.reach_barrier(2));
    assert_eq!(app.poll_barrier(2), BarrierPoll::Wait);
    assert!(app.switching_feedback);
    app.set_terminating();
    assert!(app.is_terminating());
    assert_eq!(app.poll_barrier(2), BarrierPoll::Abort);
    // the worker leaves: no worker is switching the phase any more
    app.leave_barrier();
    assert!(!app.switching_feedback);
    assert_eq!(app.get_mode(), Mode::DynamicDryRun);
    assert_eq!(app.barrier, 1);
    assert!(app.is_terminating());
    assert!(app.reach_barrier(2));
    assert_eq!(app.poll_barrier(2), BarrierPoll::Proceed);
}

#[test]
fn runs_and_workers_are_counted() {
    let mut app = App::new(Mode::DynamicMain);
    assert_eq!(app.next_case(), 0);
    assert_eq!(app.next_case(), 1);
    assert_eq!(app.metrics.fuzz_case_count, 2);
    app.metrics.fuzz_case_count = usize::MAX;
    assert_eq!(app.next_case(), usize::MAX);
    assert_eq!(app.metrics.fuzz_case_count, 0);
    app.worker_started();
    app.worker_started();
    app.worker_finished();
    assert_eq!((app.metrics.job_active_count, app.metrics.job_finished_count), (2, 1));
    assert_eq!(
        app.metrics,
        Metrics { job_active_count: 2, job_finished_count: 1, ..Metrics::new() }
    );
}

#[test]
fn an_empty_corpus_gets_an_empty_input() {
    let mut c = config(1);
    c.io_config.max_file_size = 0;
    let mut app = App::new(Mode::DynamicDryRun);
    let mut worker_case = case();
    worker_case.input.data = vec![1, 2, 3];
    assert!(app.reach_barrier(1));
    let name = set_dynamic_main_state(&mut app, &mut worker_case, &mut c, 77, 9);
    assert_eq!(name, Some("[DYNAMIC-0-SIZE]".to_string()));
    assert_eq!(app.get_mode(), Mode::DynamicMain);
    assert_eq!(app.corpus.len(), 1);
    let file = app.corpus.get(0).unwrap();
    assert_eq!(file.filename, "[DYNAMIC-0-SIZE]");
    assert!(file.data.is_empty());
    assert_eq!((file.idx, file.exec_usec), (0, 77));
    assert_eq!(app.metrics.fuzz_input_count, 1);
    assert_eq!(app.metrics.last_cov_update, 9);
    assert_eq!(app.metrics.new_units_added, 0);
    // the case keeps its bytes and gets its name
    assert_eq!(worker_case.input.data, vec![1, 2, 3]);
    assert_eq!(worker_case.input.filename, "[DYNAMIC]");
    // file sizes are not limited: the largest input size shrinks to the
    // smallest that is allowed
    assert_eq!(c.app_config.max_input_size, INPUT_MIN_SIZE);

    // with the socket fuzzer nothing is written
    let mut c = config(1);
    c.app_config.socket_fuzzer = true;
    let mut app = App::new(Mode::DynamicDryRun);
    app.reach_barrier(1);
    assert_eq!(set_dynamic_main_state(&mut app, &mut worker_case, &mut c, 0, 0), None);
    assert_eq!(app.corpus.len(), 1);
    assert_eq!(c.app_config.max_input_size, 0x4000);
}

#[test]
fn the_largest_input_size_follows_the_largest_input() {
    let cases: [(usize, usize, usize); 5] = [
        (100, 0x10000, 0x2000),
        (0x3000, 0x10000, 0x3000),
        (0x20000, 0x10000, 0x10000),
        (5, 0x2000, 0x2000),
        (5, 100, 100),
    ];
    for (found, max, expected) in cases {
        let mut c = config(1);
        c.io_config.max_file_size = 0;
        c.app_config.max_input_size = max;
        let mut app = app_with(Mode::DynamicDryRun, &[&vec![0u8; found]]);
        app.reach_barrier(1);
        set_dynamic_main_state(&mut app, &mut case(), &mut c, 0, 0);
        assert_eq!(c.app_config.max_input_size, expected);
    }
}

#[test]
fn minimizing_follows_the_dry_run_when_asked_for() {
    let mut c = config(2);
    c.app_config.minimize = true;
    let mut app = App::new(Mode::DynamicDryRun);
    let mut worker_case = case();
    app.reach_barrier(2);
    app.reach_barrier(2);
    assert_eq!(set_dynamic_main_state(&mut app, &mut worker_case, &mut c, 0, 0), None);
    assert_eq!(app.get_mode(), Mode::DynamicMinimize);
    assert_eq!(app.corpus.len(), 0);
    assert_eq!(worker_case.input.filename, "");

    assert_eq!(fuzz_fetch_input(app.get_mode(), &mut worker_case, &c), FetchStep::Minimize);
    assert_eq!(after_fetch(&mut app, false, true), LoopStep::Stop);
    assert!(app.is_terminating());
    let mut app = App::new(Mode::DynamicMinimize);
    assert_eq!(after_fetch(&mut app, false, false), LoopStep::Run);
    assert_eq!(after_fetch(&mut app, true, true), LoopStep::Run);
    assert!(!app.is_terminating());
    let mut app = App::new(Mode::DynamicMain);
    assert_eq!(after_fetch(&mut app, false, true), LoopStep::Run);
}

#[test]
fn how_a_worker_gets_its_input() {
    let mut c = config(1);
    let mut worker_case = case();
    fuzz_loop(&mut worker_case, &c);
    assert_eq!(worker_case.mutations_per_run, 5);
    assert_eq!(fuzz_fetch_input(Mode::DynamicDryRun, &mut worker_case, &c), FetchStep::StaticFile);
    assert_eq!(worker_case.mutations_per_run, 0);
    fuzz_loop(&mut worker_case, &c);
    assert_eq!(
        fuzz_fetch_input(Mode::DynamicMain, &mut worker_case, &c),
        FetchStep::Dynamic { mangle: true }
    );
    assert_eq!(worker_case.mutations_per_run, 5);
    c.exe_config.fb_mutation_cmdline = Some("mutate".to_string());
    assert_eq!(
        fuzz_fetch_input(Mode::DynamicMain, &mut worker_case, &c),
        FetchStep::Dynamic { mangle: false }
    );
    c.exe_config.fb_mutation_cmdline = None;
    c.exe_config.mutation_cmdline = Some("mutate".to_string());
    assert_eq!(
        fuzz_fetch_input(Mode::DynamicMain, &mut worker_case, &c),
        FetchStep::Dynamic { mangle: false }
    );
}

#[test]
fn workers_count_mutations_and_stop_on_request() {
    let mut app = App::new(Mode::DynamicMain);
    assert!(worker(&mut app, Some(2)));
    assert!(worker(&mut app, Some(2)));
    assert!(!worker(&mut app, Some(2)));
    assert_eq!(app.metrics.mutations_count, 3);
    assert!(worker(&mut app, None));
    assert!(!worker(&mut app, Some(0)));
    app.metrics.mutations_count = usize::MAX;
    assert!(worker(&mut app, None));
    assert_eq!(app.metrics.mutations_count, 0);

    assert!(!worker_done(&mut app, true));
    assert!(!worker_done(&mut app, false));
    app.metrics.crashes_count = 1;
    assert!(!worker_done(&mut app, false));
    assert!(!app.is_terminating());
    assert!(worker_done(&mut app, true));
    assert!(app.is_terminating());
    assert!(worker_done(&mut app, false));
}

#[test]
fn seed_files_are_read_with_growing_sizes() {
    let mut c = config(1);
    c.app_config.max_input_size = 20;
    let mut worker_case = case();
    // first with four bytes
    assert!(input_should_read_new_file(Mode::DynamicDryRun, &mut worker_case, &c));
    assert_eq!(worker_case.input.data, vec![0; 4]);
    assert!(worker_case.static_file_try_more);
    // then the same file with twice as many, up to the largest size
    assert!(!input_should_read_new_file(Mode::DynamicDryRun, &mut worker_case, &c));
    assert_eq!(worker_case.input.data.len(), 8);
    assert!(worker_case.static_file_try_more);
    assert!(!input_should_read_new_file(Mode::DynamicDryRun, &mut worker_case, &c));
    assert_eq!(worker_case.input.data.len(), 16);
    assert!(!input_should_read_new_file(Mode::DynamicDryRun, &mut worker_case, &c));
    assert_eq!(worker_case.input.data.len(), 20);
    assert!(!worker_case.static_file_try_more);
    // then the next file
    assert!(input_should_read_new_file(Mode::DynamicDryRun, &mut worker_case, &c));
    assert_eq!(worker_case.input.data.len(), 4);

    // outside the dry run every file is read whole
    let mut worker_case = case();
    worker_case.input.data = vec![1, 2, 3];
    assert!(input_should_read_new_file(Mode::DynamicMain, &mut worker_case, &c));
    assert_eq!(worker_case.input.data.len(), 20);
    assert_eq!(&worker_case.input.data[..4], &[1, 2, 3, 0]);
    assert!(!worker_case.static_file_try_more);

    // a largest size below four bytes
    c.app_config.max_input_size = 3;
    let mut worker_case = case();
    assert!(input_should_read_new_file(Mode::DynamicDryRun, &mut worker_case, &c));
    assert_eq!(worker_case.input.data.len(), 3);
    assert!(!input_should_read_new_file(Mode::DynamicDryRun, &mut worker_case, &c));
    assert_eq!(worker_case.input.data.len(), 3);
    assert!(!worker_case.static_file_try_more);
}

#[test]
fn input_sizes() {
    let c = config(1);
    let mut worker_case = case();
    worker_case.input.data = vec![1, 2, 3, 4];
    worker_case.set_input_size(2, &c);
    assert_eq!(worker_case.input.data, vec![1, 2]);
    worker_case.set_input_size(5, &c);
    assert_eq!(worker_case.input.data, vec![1, 2, 0, 0, 0]);
    worker_case.set_input_size(5, &c);
    assert_eq!(worker_case.input.data, vec![1, 2, 0, 0, 0]);
    worker_case.set_input_size(0x4000, &c);
    assert_eq!(worker_case.input.data.len(), 0x4000);
}

fn seed(name: &str, data: &[u8]) -> SeedFile {
    SeedFile { name: name.to_string(), data: data.to_vec() }
}

#[test]
fn seed_files_are_taken_one_after_the_other() {
    let mut c = config(2);
    c.app_config.max_input_size = 8;
    let seeds = vec![seed("a", &[1; 3]), seed("b", &[2; 20]), seed("c", &[])];
    let mut app = App::new(Mode::DynamicDryRun);
    let mut first = case();
    let mut second = case();
    first.input.idx = 5;
    first.input.refs = 2;
    first.input.cov = FuzzCov { counters: [1, 1, 1, 1] };

    // the first file, read with four bytes: it has three, and is not read
    // again
    assert!(fuzz_prepare_static_file(&mut app, &mut first, &seeds, true, &c));
    assert_eq!(first.input.data, vec![1; 3]);
    assert_eq!((first.input.idx, first.input.refs), (0, 0));
    assert_eq!(first.input.cov.bytes(), [0; 4]);
    assert_eq!(first.seed, Some(0));
    assert!(!first.static_file_try_more);
    assert_eq!((app.seed_cursor, app.metrics.tested_file_count), (1, 1));

    // another worker takes the next file
    assert!(fuzz_prepare_static_file(&mut app, &mut second, &seeds, true, &c));
    assert_eq!(second.input.data, vec![2; 4]);
    assert_eq!(second.seed, Some(1));
    assert!(second.static_file_try_more);
    assert_eq!((app.seed_cursor, app.metrics.tested_file_count), (2, 2));
    // and reads it again with eight bytes, the largest input size
    assert!(fuzz_prepare_static_file(&mut app, &mut second, &seeds, true, &c));
    assert_eq!(second.input.data, vec![2; 8]);
    assert_eq!(second.seed, Some(1));
    assert!(!second.static_file_try_more);
    assert_eq!((app.seed_cursor, app.metrics.tested_file_count), (2, 2));

    // the first worker goes on with the third file, which is empty
    assert!(fuzz_prepare_static_file(&mut app, &mut first, &seeds, true, &c));
    assert_eq!(first.input.data, Vec::<u8>::new());
    assert_eq!(first.seed, Some(2));
    assert_eq!((app.seed_cursor, app.metrics.tested_file_count), (3, 3));

    // no file is left: the input is given its size and nothing else
    second.input.idx = 9;
    assert!(!fuzz_prepare_static_file(&mut app, &mut second, &seeds, true, &c));
    assert_eq!(second.input.data, vec![2, 2, 2, 2]);
    assert_eq!(second.input.idx, 9);
    assert_eq!(second.seed, None);
    assert_eq!((app.seed_cursor, app.metrics.tested_file_count), (3, 3));
    assert!(!fuzz_prepare_static_file(&mut app, &mut first, &seeds, true, &c));
    assert!(!fuzz_prepare_static_file(&mut app, &mut first, &vec![], true, &c));
    assert_eq!((app.seed_cursor, app.metrics.tested_file_count), (3, 3));
}

#[test]
fn a_whole_seed_file_is_read_outside_the_dry_run() {
    let mut c = config(1);
    c.app_config.max_input_size = 16;
    let seeds = vec![seed("a", &[7; 10]), seed("b", &[8; 40])];
    let mut app = App::new(Mode::DynamicMain);
    let mut worker_case = case();
    assert!(fuzz_prepare_static_file(&mut app, &mut worker_case, &seeds, true, &c));
    assert_eq!(worker_case.input.data, vec![7; 10]);
    assert!(!worker_case.static_file_try_more);
    assert!(fuzz_prepare_static_file(&mut app, &mut worker_case, &seeds, true, &c));
    assert_eq!(worker_case.input.data, vec![8; 16]);
    assert_eq!((app.seed_cursor, app.metrics.tested_file_count), (2, 2));
    assert!(!fuzz_prepare_static_file(&mut app, &mut worker_case, &seeds, true, &c));
}

#[test]
fn seed_files_that_the_corpus_holds_are_passed_over_when_not_mutated() {
    let c = config(1);
    let mut app = app_with(Mode::DynamicDryRun, &[b"x"]);
    let known = app.corpus.get(0).unwrap().filename.clone();
    let seeds = vec![seed(&known, b"x"), seed(&known, b"x"), seed("new", b"yy"), seed(&known, b"x")];
    let mut worker_case = case();
    assert!(fuzz_prepare_static_file(&mut app, &mut worker_case, &seeds, false, &c));
    assert_eq!(worker_case.input.data, b"yy");
    assert_eq!(worker_case.seed, Some(2));
    assert_eq!((app.seed_cursor, app.metrics.tested_file_count), (3, 1));
    assert!(!fuzz_prepare_static_file(&mut app, &mut worker_case, &seeds, false, &c));
    assert_eq!((app.seed_cursor, app.metrics.tested_file_count), (4, 1));
    // with mutation every file is taken
    let mut app = app_with(Mode::DynamicDryRun, &[b"x"]);
    assert!(fuzz_prepare_static_file(&mut app, &mut case(), &seeds, true, &c));
    assert_eq!((app.seed_cursor, app.metrics.tested_file_count), (1, 1));
}

#[test]
fn the_next_input_is_picked_by_its_skip_factor() {
    let c = config(1);
    // four inputs of a kilobyte: skip factors 2, 2, 1, 0 at speed 0
    let datas: Vec<Vec<u8>> = (0..4u8).map(|i| vec![i; 1024]).collect();
    let refs: Vec<&[u8]> = datas.iter().map(|d| d.as_slice()).collect();
    let mut app = app_with(Mode::DynamicMain, &refs);
    let names: Vec<String> = app.corpus.files.iter().map(|f| f.filename.clone()).collect();
    let mut worker_case = case();

    // a draw that is no multiple of the factor skips the input
    assert_eq!(prepare_dynamic_input(&mut app, &mut worker_case, 0, &[1, 4], &c), Some(0));
    assert_eq!(worker_case.input.data, datas[1]);
    assert_eq!(worker_case.input.filename, names[1]);
    assert_eq!((worker_case.input.idx, worker_case.input.refs), (1, 0));
    assert_eq!(worker_case.tries, 0);
    assert_eq!(app.current_file, Some(names[2].clone()));

    // the choice goes on after the named input: with the last, whose factor
    // is zero, so that no draw is needed
    assert_eq!(prepare_dynamic_input(&mut app, &mut worker_case, 0, &[], &c), Some(0));
    assert_eq!(worker_case.input.data, datas[3]);
    assert_eq!(app.current_file, None);

    // from the start; the draws run out before an input is picked
    assert_eq!(prepare_dynamic_input(&mut app, &mut worker_case, 0, &[1, 1], &c), None);
    assert_eq!(worker_case.input.data, datas[3]);
    assert_eq!(app.current_file, None);
    assert_eq!(prepare_dynamic_input(&mut app, &mut worker_case, 0, &[1, 1, 7], &c), Some(0));
    assert_eq!(worker_case.input.data, datas[2]);
    assert_eq!(app.current_file, Some(names[3].clone()));

    // after the last input the choice goes on with the first
    app.current_file = Some(names[2].clone());
    assert_eq!(prepare_dynamic_input(&mut app, &mut worker_case, 2, &[1, 1, 8], &c), Some(2));
    assert_eq!(worker_case.input.data, datas[1]);

    // a fast case: the factor is below zero, and the input is picked again
    app.current_file = None;
    assert_eq!(prepare_dynamic_input(&mut app, &mut worker_case, -50, &[], &c), Some(-10));
    assert_eq!(worker_case.input.data, datas[0]);
    assert_eq!(worker_case.tries, 8);
    worker_case.tries = 3;
    assert_eq!(app.current_file, Some(names[1].clone()));
    // while tries are left the input at the cursor is taken as it comes,
    // and the mutator is given no speed factor
    assert_eq!(prepare_dynamic_input(&mut app, &mut worker_case, 2, &[], &c), Some(0));
    assert_eq!(worker_case.input.data, datas[2]);
    assert_eq!(worker_case.tries, 2);

    // a name that is not in the corpus: from the start
    app.current_file = Some("gone".to_string());
    worker_case.tries = 0;
    assert_eq!(prepare_dynamic_input(&mut app, &mut worker_case, 0, &[2], &c), Some(0));
    assert_eq!(worker_case.input.data, datas[0]);
}

#[test]
fn a_run_is_bracketed() {
    let pristine = pristine();
    let mut app = App::new(Mode::DynamicMain);
    let mut worker_case = FuzzCase::new(&pristine, 1).unwrap();
    worker_case.vm.add_coverage_point(0x40_0000).unwrap();
    worker_case.input.data = (0..5000u32).map(|i| i as u8).collect();

    app.metrics.fuzz_case_count = 7;
    assert_eq!(worker_case.begin_run(&mut app, &pristine, &[]), Ok(()));
    assert_eq!(worker_case.id, 7);
    assert_eq!(app.metrics.fuzz_case_count, 8);
    // the guest is given the first page of the input
    let mut window = vec![0u8; 0x1001];
    worker_case.vm.memory.read(INPUT_ADDRESS, &mut window).unwrap();
    assert_eq!(&window[..0x1000], &worker_case.input.data[..0x1000]);
    assert_eq!(window[0x1000], 0);

    // no coverage: nothing to record
    assert_eq!(worker_case.end_run(&mut app, 30, 1, false), None);
    assert_eq!(app.metrics.max_fuzz_run_time_ms, 30);
    assert_eq!(app.corpus.len(), 0);
    assert_eq!(worker_case.input.cov.bytes(), [0; 4]);

    // coverage: the input joins the corpus under the name of its content,
    // whatever it was called
    worker_case.input.filename = "[DYNAMIC]".to_string();
    worker_case.vm.handle_exit(CpuExit::Debug, 0x40_0000).unwrap();
    let name = worker_case.end_run(&mut app, 20, 2, false);
    assert_eq!(name, Some(worker_case.input.generate_filename()));
    assert_eq!(worker_case.input.filename, worker_case.input.generate_filename());
    assert_eq!(app.corpus.get(0).unwrap().filename, worker_case.input.generate_filename());
    assert_eq!(app.metrics.max_fuzz_run_time_ms, 30);
    assert_eq!(app.breakpoint_count, 1);
    assert_eq!(app.corpus.len(), 1);
    // 5000 bytes: the logarithm is 12
    assert_eq!(worker_case.input.cov.bytes(), [52, 0, 0, 0]);
    assert_eq!(app.corpus.get(0).unwrap().cov.bytes(), [52, 0, 0, 0]);
    assert_eq!(app.corpus.get(0).unwrap().exec_usec, 20);
    assert_eq!(app.metrics.new_units_added, 1);

    // the same content again: counted, not recorded
    assert_eq!(worker_case.end_run(&mut app, 40, 3, false), None);
    assert_eq!(app.breakpoint_count, 2);
    assert_eq!(app.corpus.len(), 1);
    assert_eq!(app.metrics.max_fuzz_run_time_ms, 40);
    assert_eq!(app.metrics.last_cov_update, 2);

    // the next run starts from the pristine machine
    let frame = worker_case.vm.memory.get_page_pa(VirtAddr::new(INPUT_ADDRESS)).unwrap() / 4096;
    worker_case.input.data = vec![0xee; 3];
    let mut log = vec![0u64; 4];
    log[frame / 64] = 1 << (frame % 64);
    assert_eq!(worker_case.begin_run(&mut app, &pristine, &log), Ok(()));
    assert_eq!((worker_case.id, app.metrics.fuzz_case_count), (8, 9));
    assert!(worker_case.vm.get_coverage().is_empty());
    worker_case.vm.memory.read(INPUT_ADDRESS, &mut window).unwrap();
    assert_eq!(&window[..4], &[0xee, 0xee, 0xee, 0]);
    assert_eq!(worker_case.vm.coverage_points.len(), 1);
}

#[test]
fn a_run_cannot_begin_without_a_place_for_the_input() {
    let mut memory = VMMemory::new(16 * PAGE_SIZE).unwrap();
    memory.mmap(0x1000, PAGE_SIZE, PagePermissions::new(PagePermissions::READ)).unwrap();
    let pristine = Vm::new(memory);
    let mut worker_case = FuzzCase::new(&pristine, 1).unwrap();
    let mut app = App::new(Mode::DynamicMain);
    worker_case.input.data = vec![1];
    assert_eq!(
        worker_case.begin_run(&mut app, &pristine, &[]),
        Err(VmError::Memory(VMMemoryError::AddressUnmapped(INPUT_ADDRESS)))
    );
    // an empty input needs no place
    worker_case.input.data = vec![];
    assert_eq!(worker_case.begin_run(&mut app, &pristine, &[]), Ok(()));
    assert_eq!(
        worker_case.begin_run(&mut app, &pristine, &[1 << 16]),
        Err(VmError::Memory(VMMemoryError::PhysReadOutOfBounds(16 * 4096, 4096)))
    );
    // a run that could not begin has its number all the same
    assert_eq!(worker_case.id, 2);
    assert_eq!(app.metrics.fuzz_case_count, 3);
}
