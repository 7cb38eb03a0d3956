use chompie::bisector::Bisector;
use chompie::bisector::ChompRange as BisectorRange;
use chompie::chomper::AttemptStart;
use chompie::chomper::Chomper;
use chompie::chomper::EngineError;
use chompie::command_runner::CommandRunner;
use chompie::command_runner::RunResult;
use chompie::file_manager::FileManager;
use chompie::progress::ProgressTracker;
use chompie::strategy::ChompRange;

fn run_ok(stdout: &str) -> RunResult {
    RunResult { stdout: stdout.to_string(), stderr: String::new(), exit_code: 0 }
}

#[test]
fn test_result_identical() {
    let result1 = RunResult {
        stdout: "test".to_string(),
        stderr: "".to_string(),
        exit_code: 0,
    };
    let result2 = RunResult {
        stdout: "test".to_string(),
        stderr: "".to_string(),
        exit_code: 0,
    };
    assert!(result1.is_identical(&result2));
}

#[test]
fn test_result_not_identical() {
    let result1 = RunResult {
        stdout: "test1".to_string(),
        stderr: "".to_string(),
        exit_code: 0,
    };
    let result2 = RunResult {
        stdout: "test2".to_string(),
        stderr: "".to_string(),
        exit_code: 0,
    };
    assert!(!result1.is_identical(&result2));
}

#[test]
fn test_result_exit_code_sensitivity() {
    let a = RunResult { stdout: String::new(), stderr: String::new(), exit_code: 0 };
    let b = RunResult { stdout: String::new(), stderr: String::new(), exit_code: 3 };
    assert!(!a.is_identical(&b));
}

#[test]
fn test_result_stderr_sensitivity() {
    let a = RunResult { stdout: "ok".to_string(), stderr: String::new(), exit_code: 0 };
    let b = RunResult { stdout: "ok".to_string(), stderr: "warning".to_string(), exit_code: 0 };
    assert!(!a.is_identical(&b));
}

#[test]
fn test_command_runner_holds_command() {
    let runner = CommandRunner::new("echo test".to_string());
    assert_eq!(runner.command(), "echo test");
    assert!(!runner.is_verbose());
    let verbose = CommandRunner::with_verbose("echo test".to_string(), true);
    assert!(verbose.is_verbose());
}

#[test]
fn test_chomper_creation() {
    let manager = FileManager::new();
    let runner = CommandRunner::new("echo test".to_string());
    let chomper = Chomper::new(manager, runner);
    assert!(chomper.baseline_result().is_none());
}

#[test]
fn chomper_test_establish_baseline() {
    let manager = FileManager::new();
    let runner = CommandRunner::new("echo hello".to_string());
    let mut chomper = Chomper::new(manager, runner);
    chomper.establish_baseline(run_ok("hello\n"));
    let result = chomper.baseline_result().unwrap();
    assert_eq!(result.stdout.trim(), "hello");
    assert!(chomper.baseline_result().is_some());
}

#[test]
fn test_bisector_creation() {
    let manager = FileManager::new();
    let runner = CommandRunner::new("echo test".to_string());
    let bisector = Bisector::new(manager, runner);
    assert!(bisector.baseline_result().is_none());
}

#[test]
fn bisector_test_establish_baseline() {
    let manager = FileManager::new();
    let runner = CommandRunner::new("echo hello".to_string());
    let mut bisector = Bisector::new(manager, runner);
    bisector.establish_baseline(run_ok("hello\n"));
    let result = bisector.baseline_result().unwrap();
    assert_eq!(result.stdout.trim(), "hello");
    assert!(bisector.baseline_result().is_some());
}

#[test]
fn test_generate_ranges() {
    let mut manager = FileManager::new();
    let content = "line1\nline2\nline3\nline4".to_string();
    manager.add_file_from_content("test.txt".to_string(), content);

    let runner = CommandRunner::new("echo test".to_string());
    let bisector = Bisector::new(manager, runner);
    let ranges = bisector.generate_ranges();

    assert!(!ranges.is_empty());
}

#[test]
fn test_try_blank_without_baseline_is_refused() {
    let mut manager = FileManager::new();
    manager.add_file_from_content("a.txt".to_string(), "x\ny".to_string());
    let mut chomper = Chomper::new(manager, CommandRunner::new("echo k".to_string()));
    let range = ChompRange { file: "a.txt".to_string(), start_line: 0, end_line: 1 };
    assert_eq!(chomper.try_blank_range(&range), Err(EngineError::MissingBaseline));
}

#[test]
fn test_try_blank_unknown_file_is_refused() {
    let mut manager = FileManager::new();
    manager.add_file_from_content("a.txt".to_string(), "x\ny".to_string());
    let mut chomper = Chomper::new(manager, CommandRunner::new("echo k".to_string()));
    chomper.establish_baseline(run_ok("k\n"));
    let range = ChompRange { file: "missing.txt".to_string(), start_line: 0, end_line: 1 };
    assert_eq!(chomper.try_blank_range(&range), Err(EngineError::UnknownFile));
}

#[test]
fn test_finish_without_attempt_is_refused() {
    let manager = FileManager::new();
    let mut chomper = Chomper::new(manager, CommandRunner::new("echo k".to_string()));
    chomper.establish_baseline(run_ok("k\n"));
    assert_eq!(chomper.finish_blank_range(run_ok("k\n")), Err(EngineError::NoAttemptPending));
}

#[test]
fn test_second_attempt_while_pending_is_refused() {
    let mut manager = FileManager::new();
    manager.add_file_from_content("a.txt".to_string(), "x\ny\nz".to_string());
    let mut chomper = Chomper::new(manager, CommandRunner::new("echo k".to_string()));
    chomper.establish_baseline(run_ok("k\n"));
    let range = ChompRange { file: "a.txt".to_string(), start_line: 0, end_line: 1 };
    assert_eq!(chomper.try_blank_range(&range), Ok(AttemptStart::NeedsOracle));
    assert_eq!(chomper.try_blank_range(&range), Err(EngineError::AttemptInProgress));
}

#[test]
fn test_successful_chomp_keeps_blanking() {
    // Baseline fidelity: the attempt is kept exactly when the post-attempt
    // outcome equals the baseline bit-for-bit.
    let mut manager = FileManager::new();
    manager.add_file_from_content("a.txt".to_string(), "X\nY\nZ".to_string());
    let mut chomper = Chomper::new(manager, CommandRunner::new("echo k".to_string()));
    chomper.establish_baseline(run_ok("k\n"));

    let range = ChompRange { file: "a.txt".to_string(), start_line: 0, end_line: 2 };
    assert_eq!(chomper.try_blank_range(&range), Ok(AttemptStart::NeedsOracle));
    assert_eq!(chomper.finish_blank_range(run_ok("k\n")), Ok(true));

    assert_eq!(chomper.file_manager().non_blank_lines(), 1);
    assert_eq!(chomper.chomps_tested(), 1);
}

#[test]
fn test_failed_chomp_reverts_exactly() {
    // Revert correctness: after a failed attempt every managed file equals
    // its state at the instant of the call.
    let mut manager = FileManager::new();
    manager.add_file_from_content("a.txt".to_string(), "a=1\nb=a+1\nprint(b)".to_string());
    let mut chomper = Chomper::new(manager, CommandRunner::new("python a.txt".to_string()));
    chomper.establish_baseline(run_ok("2\n"));

    let range = ChompRange { file: "a.txt".to_string(), start_line: 0, end_line: 2 };
    assert_eq!(chomper.try_blank_range(&range), Ok(AttemptStart::NeedsOracle));
    let failing = RunResult {
        stdout: String::new(),
        stderr: "NameError".to_string(),
        exit_code: 1,
    };
    assert_eq!(chomper.finish_blank_range(failing), Ok(false));

    assert_eq!(chomper.file_manager().non_blank_lines(), 3);
    let files = chomper.file_manager().files();
    assert_eq!(files[0].current_content(), "a=1\nb=a+1\nprint(b)");
}

#[test]
fn test_memo_short_circuits_retest() {
    // Memo soundness: a configuration that was already tested is rejected
    // before any oracle run.
    let mut manager = FileManager::new();
    manager.add_file_from_content("a.txt".to_string(), "1\n2\n3\n4".to_string());
    let mut chomper = Chomper::new(manager, CommandRunner::new("echo k".to_string()));
    chomper.establish_baseline(run_ok("k\n"));

    // Bisection removes lines 2 and 3.
    let range = ChompRange { file: "a.txt".to_string(), start_line: 2, end_line: 4 };
    assert_eq!(chomper.try_blank_range(&range), Ok(AttemptStart::NeedsOracle));
    assert_eq!(chomper.finish_blank_range(run_ok("k\n")), Ok(true));
    assert_eq!(chomper.chomps_tested(), 1);

    // A sliding window re-proposes [2, 3) and [3, 4): both lead to the
    // configuration already tested, so no oracle run is owed.
    let again = ChompRange { file: "a.txt".to_string(), start_line: 2, end_line: 3 };
    assert_eq!(chomper.try_blank_range(&again), Ok(AttemptStart::AlreadyTested));
    let again2 = ChompRange { file: "a.txt".to_string(), start_line: 3, end_line: 4 };
    assert_eq!(chomper.try_blank_range(&again2), Ok(AttemptStart::AlreadyTested));
    assert_eq!(chomper.chomps_tested(), 1);
}

#[test]
fn test_range_end_is_clamped() {
    // A range whose end exceeds the file is silently clamped: no line
    // beyond the file is ever blanked and nothing fails.
    let mut manager = FileManager::new();
    manager.add_file_from_content("a.txt".to_string(), "p\nq".to_string());
    let mut chomper = Chomper::new(manager, CommandRunner::new("echo k".to_string()));
    chomper.establish_baseline(run_ok("k\n"));

    let range = ChompRange { file: "a.txt".to_string(), start_line: 1, end_line: 100 };
    assert_eq!(chomper.try_blank_range(&range), Ok(AttemptStart::NeedsOracle));
    assert_eq!(chomper.finish_blank_range(run_ok("k\n")), Ok(true));
    assert_eq!(chomper.file_manager().non_blank_lines(), 1);
    assert_eq!(chomper.file_manager().files()[0].current_content(), "p\n");
}

#[test]
fn test_monotone_progress_over_attempts() {
    // Monotone progress: the total of non-blank lines never rises across a
    // sequence of attempts, kept or failed.
    let mut manager = FileManager::new();
    manager.add_file_from_content("a.txt".to_string(), "1\n2\n3\n4\n5".to_string());
    let mut chomper = Chomper::new(manager, CommandRunner::new("echo k".to_string()));
    chomper.establish_baseline(run_ok("k\n"));
    let mut last = chomper.file_manager().non_blank_lines();

    let attempts = [(0usize, 2usize, true), (2, 3, false), (3, 5, true), (2, 3, true)];
    for (start, end, keep) in attempts {
        let range = ChompRange { file: "a.txt".to_string(), start_line: start, end_line: end };
        match chomper.try_blank_range(&range).unwrap() {
            AttemptStart::NeedsOracle => {
                let outcome = if keep {
                    run_ok("k\n")
                } else {
                    run_ok("other\n")
                };
                chomper.finish_blank_range(outcome).unwrap();
            },
            AttemptStart::AlreadyTested => {},
        }
        let now = chomper.file_manager().non_blank_lines();
        assert!(now <= last);
        last = now;
    }
}

#[test]
fn test_try_blank_range_matching() {
    let mut manager = FileManager::new();
    manager.add_file_from_content("test.txt".to_string(), "line1\nline2\nline3".to_string());
    let runner = CommandRunner::new("echo constant".to_string());
    let mut bisector = Bisector::new(manager, runner);
    bisector.establish_baseline(run_ok("constant\n"));

    let range = BisectorRange { file: "test.txt".to_string(), start_line: 0, end_line: 1 };
    assert_eq!(bisector.try_blank_range(&range), Ok(AttemptStart::NeedsOracle));
    assert_eq!(bisector.finish_blank_range(run_ok("constant\n")), Ok(true));
    assert_eq!(bisector.file_manager().non_blank_lines(), 2);
}

#[test]
fn test_bisector_generate_ranges_ignores_blanked() {
    // The bisector's built-in generator halves raw line counts, blanked or
    // not: four raw lines give the two halves and then single lines.
    let mut manager = FileManager::new();
    manager.add_file_from_content("t".to_string(), "a\nb\nc\nd".to_string());
    let bisector = Bisector::new(manager, CommandRunner::new("echo k".to_string()));
    let ranges = bisector.generate_ranges();
    let pairs: Vec<(usize, usize)> =
        ranges.iter().map(|r| (r.start_line, r.end_line)).collect();
    assert_eq!(pairs, vec![(0, 2), (2, 4), (0, 1), (1, 2), (2, 3), (3, 4)]);
}

#[test]
fn test_progress_tracker_creation() {
    let tracker = ProgressTracker::new(10);
    assert_eq!(tracker.chomps_performed(), 0);
    assert_eq!(tracker.successful_chomps(), 0);
}

#[test]
fn test_record_chomp() {
    let mut tracker = ProgressTracker::new(10);
    tracker.record_chomp(true);
    tracker.record_chomp(false);
    assert_eq!(tracker.chomps_performed(), 2);
    assert_eq!(tracker.successful_chomps(), 1);
}
