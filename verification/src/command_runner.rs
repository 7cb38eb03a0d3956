//! The oracle's observable outcome and the configuration of the command.
//!
//! The command itself is executed by the caller through the host shell; the
//! library only stores the command line and compares captured outcomes
//! bit-for-bit.

use vstd::prelude::*;

verus! {

/// Everything observable about one run of the user's command: the full
/// captured stdout, the full captured stderr, and the numeric exit code
/// (`-1` stands for termination by a signal without a code).
pub struct RunResult {
    pub stdout: String,
    pub stderr: String,
    pub exit_code: i32,
}

/// Mathematical image of a `RunResult`.
#[verifier::ext_equal]
pub struct RunResultView {
    pub stdout: Seq<char>,
    pub stderr: Seq<char>,
    pub exit_code: int,
}

impl View for RunResult {
    type V = RunResultView;

    open spec fn view(&self) -> RunResultView {
        RunResultView {
            stdout: self.stdout@,
            stderr: self.stderr@,
            exit_code: self.exit_code as int,
        }
    }
}

impl Clone for RunResult {
    fn clone(&self) -> (r: Self)
        ensures
            r@ == self@,
    {
        RunResult {
            stdout: self.stdout.clone(),
            stderr: self.stderr.clone(),
            exit_code: self.exit_code,
        }
    }
}

impl RunResult {
    /// Strict equality of two outcomes: byte-for-byte on the two streams,
    /// numeric on the exit code.
    pub fn is_identical(&self, other: &RunResult) -> (r: bool)
        ensures
            r <==> self@ == other@,
    {
        self.stdout == other.stdout && self.stderr == other.stderr
            && self.exit_code == other.exit_code
    }
}

/// Configuration of the oracle: the single command line that the caller
/// passes to the host shell, and whether runs should be narrated.
pub struct CommandRunner {
    command: String,
    verbose: bool,
}

/// Mathematical image of a `CommandRunner`.
#[verifier::ext_equal]
pub struct CommandRunnerView {
    pub command: Seq<char>,
    pub verbose: bool,
}

impl View for CommandRunner {
    type V = CommandRunnerView;

    closed spec fn view(&self) -> CommandRunnerView {
        CommandRunnerView { command: self.command@, verbose: self.verbose }
    }
}

impl CommandRunner {
    pub fn new(command: String) -> (r: Self)
        ensures
            r@.command == command@,
            !r@.verbose,
    {
        CommandRunner { command, verbose: false }
    }

    pub fn with_verbose(command: String, verbose: bool) -> (r: Self)
        ensures
            r@.command == command@,
            r@.verbose == verbose,
    {
        CommandRunner { command, verbose }
    }

    /// The command line handed to the host shell.
    pub fn command(&self) -> (r: &String)
        ensures
            r@ == self@.command,
    {
        &self.command
    }

    /// Whether the caller asked for narrated runs.
    pub fn is_verbose(&self) -> (r: bool)
        ensures
            r == self@.verbose,
    {
        self.verbose
    }
}

} // verus!
