//! End-to-end runs of the reduction loop against simulated oracles: the
//! test plays the caller's role, persisting nothing and computing each
//! oracle outcome from the engine's current renderings.

use chompie::chomper::{AttemptStart, Chomper};
use chompie::command_runner::{CommandRunner, RunResult};
use chompie::file_manager::FileManager;
use chompie::strategy::Strategy;
use chompie::strategies::{BisectionStrategy, SlidingWindowStrategy};

fn run_ok(stdout: &str) -> RunResult {
    RunResult { stdout: stdout.to_string(), stderr: String::new(), exit_code: 0 }
}

/// Drive the engine with the given strategies until a full round keeps
/// nothing, computing each oracle outcome from the current rendering of
/// the single managed file. Returns the number of rounds taken.
fn drive<F: Fn(&str) -> RunResult>(
    chomper: &mut Chomper,
    strategies: &[Box<dyn Strategy>],
    oracle: F,
) -> usize {
    let mut rounds = 0;
    loop {
        rounds += 1;
        let mut round_successful = 0;
        for strategy in strategies {
            let ranges = strategy.generate_ranges(chomper.file_manager().files());
            for range in &ranges {
                match chomper.try_blank_range(range).unwrap() {
                    AttemptStart::AlreadyTested => {},
                    AttemptStart::NeedsOracle => {
                        let rendered = chomper.file_manager().files()[0].current_content();
                        let outcome = oracle(&rendered);
                        if chomper.finish_blank_range(outcome).unwrap() {
                            round_successful += 1;
                        }
                    },
                }
            }
        }
        if round_successful == 0 {
            return rounds;
        }
        assert!(rounds <= 1000, "driver failed to terminate");
    }
}

#[test]
fn test_scenario_trivial_success() {
    // A command whose output ignores the file: every line is blanked, and
    // the final rendering is the separators alone.
    let mut manager = FileManager::new();
    manager.add_file_from_content("a.txt".to_string(), "X\nY\nZ".to_string());
    let mut chomper = Chomper::new(manager, CommandRunner::new("echo k".to_string()));
    chomper.establish_baseline(run_ok("k\n"));

    let strategies: Vec<Box<dyn Strategy>> = vec![Box::new(BisectionStrategy)];
    drive(&mut chomper, &strategies, |_| run_ok("k\n"));

    assert_eq!(chomper.file_manager().non_blank_lines(), 0);
    assert_eq!(chomper.file_manager().files()[0].current_content(), "\n\n");
}

#[test]
fn test_scenario_dependency_barrier() {
    // Every line is needed: removing any of them changes the output, so
    // nothing can be blanked.
    let original = "a=1\nb=a+1\nprint(b)";
    let mut manager = FileManager::new();
    manager.add_file_from_content("b.txt".to_string(), original.to_string());
    let mut chomper = Chomper::new(manager, CommandRunner::new("python b.txt".to_string()));
    chomper.establish_baseline(run_ok("2\n"));

    let strategies: Vec<Box<dyn Strategy>> = vec![
        Box::new(BisectionStrategy),
        Box::new(SlidingWindowStrategy::new(1)),
    ];
    drive(&mut chomper, &strategies, |rendered| {
        if rendered == original {
            run_ok("2\n")
        } else {
            RunResult {
                stdout: String::new(),
                stderr: "NameError".to_string(),
                exit_code: 1,
            }
        }
    });

    assert_eq!(chomper.file_manager().non_blank_lines(), 3);
    assert_eq!(chomper.file_manager().files()[0].current_content(), original);
}

#[test]
fn test_scenario_window_recovers_over_bisection() {
    // Bisection alone cannot free the lines around the one that matters,
    // but a single-line sweep removes every other line.
    let mut manager = FileManager::new();
    manager.add_file_from_content(
        "c.txt".to_string(),
        "noop1\nmatters\nnoop2\nnoop3\nnoop4".to_string(),
    );
    let mut chomper = Chomper::new(manager, CommandRunner::new("grep -c matters c.txt".to_string()));
    chomper.establish_baseline(run_ok("1\n"));

    let strategies: Vec<Box<dyn Strategy>> = vec![
        Box::new(BisectionStrategy),
        Box::new(SlidingWindowStrategy::new(1)),
    ];
    drive(&mut chomper, &strategies, |rendered| {
        let count = rendered.lines().filter(|l| l.contains("matters")).count();
        run_ok(&format!("{}\n", count))
    });

    assert_eq!(chomper.file_manager().non_blank_lines(), 1);
    let final_content = chomper.file_manager().files()[0].current_content();
    assert_eq!(final_content, "\nmatters\n\n\n");
}
