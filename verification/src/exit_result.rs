//! The outcome of a command as an exit code: which code a result stands
//! for, and what is to be done to leave the process with it.

use std::ops::ControlFlow;
use vstd::prelude::*;
use vstd::std_specs::convert::FromSpecImpl;
use vstd::string::StringExecFns;

verus! {

/// The program to run in place of this process, and how.
#[derive(Debug, PartialEq, Eq)]
pub struct ExecArgs {
    prog: String,
    argv: Vec<String>,
    chdir: Option<String>,
    env: Vec<(String, String)>,
}

impl ExecArgs {
    pub closed spec fn spec_prog(&self) -> String {
        self.prog
    }

    pub closed spec fn spec_argv(&self) -> Vec<String> {
        self.argv
    }

    pub closed spec fn spec_chdir(&self) -> Option<String> {
        self.chdir
    }

    pub closed spec fn spec_env(&self) -> Vec<(String, String)> {
        self.env
    }

    /// The program to run.
    pub fn prog(&self) -> (prog: &String)
        ensures
            *prog == self.spec_prog(),
    {
        &self.prog
    }

    /// Its arguments, the name it is called by first.
    pub fn argv(&self) -> (argv: &Vec<String>)
        ensures
            *argv == self.spec_argv(),
    {
        &self.argv
    }

    /// The directory to change to before it runs, if any.
    pub fn chdir(&self) -> (chdir: &Option<String>)
        ensures
            *chdir == self.spec_chdir(),
    {
        &self.chdir
    }

    /// The variables to set in its environment.
    pub fn env(&self) -> (env: &Vec<(String, String)>)
        ensures
            *env == self.spec_env(),
    {
        &self.env
    }
}

/// Exit codes with a meaning of their own.
#[derive(Debug, Clone, Copy, PartialEq, Eq, Structural)]
pub enum FailureExitCode {
    SignalInterrupt,
    StdoutBrokenPipe,
    StderrBrokenPipe,
    OutputFileBrokenPipe,
}

impl FailureExitCode {
    /// The exit code that this failure leaves the process with: 128 plus
    /// the number of the signal, SIGINT or SIGPIPE.
    pub fn exit_code(&self) -> (code: u8)
        ensures
            code == failure_code(*self),
    {
        match self {
            FailureExitCode::SignalInterrupt => 130,
            FailureExitCode::StdoutBrokenPipe => 141,
            FailureExitCode::StderrBrokenPipe => 141,
            FailureExitCode::OutputFileBrokenPipe => 141,
        }
    }

    /// What the failure says of itself.
    pub fn message(&self) -> (text: &'static str)
        ensures
            text@ == failure_message(*self),
    {
        match self {
            FailureExitCode::SignalInterrupt => "Ctrl-c was pressed",
            FailureExitCode::StdoutBrokenPipe => "Broken pipe writing on stdout",
            FailureExitCode::StderrBrokenPipe => "Broken pipe writing on stdout",
            FailureExitCode::OutputFileBrokenPipe => "Broken pipe writing build artifact to --out",
        }
    }

    /// What is written to the debug log when the process leaves with this
    /// failure; nothing for a broken stderr.
    pub fn debug_note(&self) -> (note: Option<&'static str>)
        ensures
            match note {
                Some(text) => failure_note(*self) == Some(text@),
                None => failure_note(*self) is None,
            },
    {
        match self {
            FailureExitCode::SignalInterrupt => Some("Interrupted"),
            FailureExitCode::StdoutBrokenPipe => Some("stdout pipe was broken"),
            FailureExitCode::StderrBrokenPipe => None,
            FailureExitCode::OutputFileBrokenPipe => Some("--out pipe was broken"),
        }
    }
}

pub open spec fn failure_code(failure: FailureExitCode) -> u8 {
    match failure {
        FailureExitCode::SignalInterrupt => 130,
        _ => 141,
    }
}

pub open spec fn failure_message(failure: FailureExitCode) -> Seq<char> {
    match failure {
        FailureExitCode::SignalInterrupt => "Ctrl-c was pressed"@,
        FailureExitCode::StdoutBrokenPipe => "Broken pipe writing on stdout"@,
        FailureExitCode::StderrBrokenPipe => "Broken pipe writing on stdout"@,
        FailureExitCode::OutputFileBrokenPipe => "Broken pipe writing build artifact to --out"@,
    }
}

pub open spec fn failure_note(failure: FailureExitCode) -> Option<Seq<char>> {
    match failure {
        FailureExitCode::SignalInterrupt => Some("Interrupted"@),
        FailureExitCode::StdoutBrokenPipe => Some("stdout pipe was broken"@),
        FailureExitCode::StderrBrokenPipe => None,
        FailureExitCode::OutputFileBrokenPipe => Some("--out pipe was broken"@),
    }
}

/// An error that ended a command: a failure with an exit code of its own,
/// or any other error, written out.
#[derive(Debug, PartialEq, Eq)]
pub enum ExitError {
    Failure(FailureExitCode),
    Other(String),
}

/// Why a command failed, as far as it could be told.
#[derive(Debug, Clone, Copy, PartialEq, Eq, Structural)]
pub enum ErrorCause {
    Unknown,
    Infra,
    User,
    DaemonIsBusy,
}

/// The exit code for a failure of a known cause. An unknown cause counts as
/// an infrastructure error.
pub fn gen_error_exit_code(cause: ErrorCause) -> (code: u8)
    ensures
        code == match cause {
            ErrorCause::Unknown => 2u8,
            ErrorCause::Infra => 2u8,
            ErrorCause::User => 3u8,
            ErrorCause::DaemonIsBusy => 4u8,
        },
{
    match cause {
        ErrorCause::Unknown => 2,
        ErrorCause::Infra => 2,
        ErrorCause::User => 3,
        ErrorCause::DaemonIsBusy => 4,
    }
}

/// What a command answered, as far as the exit code goes by it.
#[derive(Debug, PartialEq, Eq)]
pub enum CommandOutcome {
    /// The answer to a build, with the errors it lists.
    BuildResponse { error_messages: Vec<String> },
    /// Any other answer.
    Other,
}

/// The outcome of a run of the process, where a specific exit code is to be
/// returned.
///
/// - success: 0
/// - uncategorized error: 1
/// - infrastructure error: 2
/// - user error: 3
/// - interrupted by a signal: 128 plus the number of the signal
#[derive(Debug, PartialEq, Eq)]
pub enum ExitResult {
    /// Finished; leave with this exit code.
    Status(u8),
    /// Failed, with no specific exit code yet. Leaves with 1 unless the
    /// failure is categorized later.
    UncategorizedError,
    /// Do not leave: run this program in place of the process.
    Exec(ExecArgs),
    /// Failed with an error, which is printed on the way out.
    Error(ExitError),
}

/// What is to be done to end the process with a result.
#[derive(Debug, PartialEq, Eq)]
pub enum Report {
    /// Write `stderr`, if any, as a line to stderr and `note`, if any, to
    /// the debug log; then leave with `code`.
    Exit { code: u8, stderr: Option<String>, note: Option<String> },
    /// Replace the process by this program.
    Exec(ExecArgs),
}

/// The exit code that a result stands for; none for a result that asks for
/// another program to be run.
pub open spec fn exit_code_of(result: ExitResult) -> Option<u8> {
    match result {
        ExitResult::Status(code) => Some(code),
        ExitResult::UncategorizedError => Some(1u8),
        ExitResult::Exec(_) => None,
        ExitResult::Error(error) => match error {
            ExitError::Failure(failure) => Some(failure_code(failure)),
            ExitError::Other(_) => Some(1u8),
        },
    }
}

/// The exit code after the attempt to flush stdout and stderr: a stream
/// that cannot be flushed is a broken pipe.
pub open spec fn code_after_flush(code: u8, stdout_flushed: bool, stderr_flushed: bool) -> u8 {
    if stdout_flushed && stderr_flushed {
        code
    } else {
        141
    }
}

impl ExitResult {
    pub fn success() -> (result: Self)
        ensures
            result == ExitResult::Status(0),
    {
        Self::Status(0)
    }

    pub fn failure() -> (result: Self)
        ensures
            result == ExitResult::UncategorizedError,
    {
        Self::UncategorizedError
    }

    pub fn status(status: u8) -> (result: Self)
        ensures
            result == ExitResult::Status(status),
    {
        Self::Status(status)
    }

    /// The result for a status of any width: a status that is no exit code
    /// becomes the generic failure.
    pub fn status_extended(status: i32) -> (result: Self)
        ensures
            result == (if 0 <= status <= 255 {
                ExitResult::Status(status as u8)
            } else {
                ExitResult::UncategorizedError
            }),
    {
        if 0 <= status && status <= 255 {
            Self::status(status as u8)
        } else {
            Self::failure()
        }
    }

    pub fn exec(prog: String, argv: Vec<String>, chdir: Option<String>, env: Vec<(String, String)>) -> (result:
        Self)
        ensures
            result matches ExitResult::Exec(args) && args.spec_prog() == prog && args.spec_argv()
                == argv && args.spec_chdir() == chdir && args.spec_env() == env,
    {
        Self::Exec(ExecArgs { prog, argv, chdir, env })
    }

    /// The result of a command that failed with this message.
    pub fn bail(msg: &str) -> (result: Self)
        ensures
            result matches ExitResult::Error(ExitError::Other(message)) && message@
                == "Command failed: "@ + msg@,
    {
        Self::Error(ExitError::Other(String::from_str("Command failed: ").concat(msg)))
    }

    /// The result that the answer of a command stands for: a build that
    /// lists errors is a failure with exit code 1, anything else a success.
    pub fn infer(result: &CommandOutcome) -> (inferred: Self)
        ensures
            inferred == ExitResult::Status(
                match *result {
                    CommandOutcome::BuildResponse { error_messages } => if error_messages@.len()
                        == 0 {
                        0u8
                    } else {
                        1u8
                    },
                    CommandOutcome::Other => 0u8,
                },
            ),
    {
        let exit_code: u8 = match result {
            CommandOutcome::BuildResponse { error_messages } => {
                if error_messages.len() == 0 {
                    0
                } else {
                    1
                }
            },
            CommandOutcome::Other => 0,
        };
        Self::status(exit_code)
    }

    pub fn is_success(&self) -> (success: bool)
        ensures
            success == (*self == ExitResult::Status(0)),
    {
        match self {
            ExitResult::Status(exit_code) => *exit_code == 0,
            _ => false,
        }
    }

    /// The result that carries on with `output` as its exit code.
    pub fn from_output(output: u8) -> (result: Self)
        ensures
            result == ExitResult::Status(output),
    {
        Self::Status(output)
    }

    /// The result that stops with `residual`.
    pub fn from_residual(residual: ExitError) -> (result: Self)
        ensures
            result == ExitResult::Error(residual),
    {
        Self::Error(residual)
    }

    /// Splits the result into the exit code to carry on with or the error
    /// to stop with. A result that asks for another program to be run has
    /// neither.
    pub fn branch(self) -> (flow: ControlFlow<ExitError, u8>)
        requires
            !(self is Exec),
        ensures
            flow == match self {
                ExitResult::Status(code) => ControlFlow::<ExitError, u8>::Continue(code),
                ExitResult::UncategorizedError => ControlFlow::Continue(1u8),
                ExitResult::Error(error) => ControlFlow::Break(error),
                ExitResult::Exec(_) => flow,
            },
    {
        match self {
            ExitResult::Status(v) => ControlFlow::Continue(v),
            ExitResult::UncategorizedError => ControlFlow::Continue(1),
            ExitResult::Error(v) => ControlFlow::Break(v),
            ExitResult::Exec(_) => ControlFlow::Continue(1),
        }
    }

    /// What is to be done to end the process with this result: the exit
    /// code it stands for, with the line that goes to stderr and the note
    /// that goes to the debug log; or the program to run instead. Only an
    /// error that carries no failure of its own is printed.
    pub fn report(self) -> (report: Report)
        ensures
            match report {
                Report::Exit { code, stderr, note } => {
                    &&& exit_code_of(self) == Some(code)
                    &&& match stderr {
                        Some(line) => self matches ExitResult::Error(ExitError::Other(message))
                            && line@ == "Command failed: "@ + message@,
                        None => !(self matches ExitResult::Error(ExitError::Other(_))),
                    }
                    &&& match note {
                        Some(text) => self matches ExitResult::Error(ExitError::Failure(failure))
                            && failure_note(failure) == Some(text@),
                        None => !(self matches ExitResult::Error(ExitError::Failure(failure))
                            && failure_note(failure) is Some),
                    }
                },
                Report::Exec(args) => self == ExitResult::Exec(args),
            },
    {
        match self {
            ExitResult::Status(v) => Report::Exit { code: v, stderr: None, note: None },
            ExitResult::UncategorizedError => Report::Exit { code: 1, stderr: None, note: None },
            ExitResult::Exec(args) => Report::Exec(args),
            ExitResult::Error(e) => match e {
                ExitError::Other(message) => Report::Exit {
                    code: 1,
                    stderr: Some(String::from_str("Command failed: ").concat(message.as_str())),
                    note: None,
                },
                ExitError::Failure(failure) => {
                    let note = match failure.debug_note() {
                        Some(text) => Some(String::from_str(text)),
                        None => None,
                    };
                    Report::Exit { code: failure.exit_code(), stderr: None, note }
                },
            },
        }
    }
}

/// The exit code to leave with once stdout and stderr were flushed, or
/// could not be.
pub fn exit_code_after_flush(code: u8, stdout_flushed: bool, stderr_flushed: bool) -> (last: u8)
    ensures
        last == code_after_flush(code, stdout_flushed, stderr_flushed),
{
    if stdout_flushed && stderr_flushed {
        code
    } else {
        141
    }
}

impl From<Result<(), ExitError>> for ExitResult {
    fn from(e: Result<(), ExitError>) -> (result: Self) {
        match e {
            Ok(()) => Self::success(),
            Err(e) => Self::Error(e),
        }
    }
}

impl FromSpecImpl<Result<(), ExitError>> for ExitResult {
    open spec fn obeys_from_spec() -> bool {
        true
    }

    open spec fn from_spec(e: Result<(), ExitError>) -> Self {
        match e {
            Ok(_) => ExitResult::Status(0),
            Err(e) => ExitResult::Error(e),
        }
    }
}

impl From<Result<u8, ExitError>> for ExitResult {
    fn from(e: Result<u8, ExitError>) -> (result: Self) {
        match e {
            Ok(code) => Self::status(code),
            Err(e) => Self::Error(e),
        }
    }
}

impl FromSpecImpl<Result<u8, ExitError>> for ExitResult {
    open spec fn obeys_from_spec() -> bool {
        true
    }

    open spec fn from_spec(e: Result<u8, ExitError>) -> Self {
        match e {
            Ok(code) => ExitResult::Status(code),
            Err(e) => ExitResult::Error(e),
        }
    }
}

impl From<FailureExitCode> for ExitResult {
    fn from(e: FailureExitCode) -> (result: Self) {
        Self::Error(ExitError::Failure(e))
    }
}

impl FromSpecImpl<FailureExitCode> for ExitResult {
    open spec fn obeys_from_spec() -> bool {
        true
    }

    open spec fn from_spec(e: FailureExitCode) -> Self {
        ExitResult::Error(ExitError::Failure(e))
    }
}

} // verus!
