use dice::exit_result::exit_code_after_flush;
use dice::exit_result::gen_error_exit_code;
use dice::exit_result::CommandOutcome;
use dice::exit_result::ErrorCause;
use dice::exit_result::ExitError;
use dice::exit_result::ExitResult;
use dice::exit_result::FailureExitCode;
use dice::exit_result::Report;
use std::ops::ControlFlow;

fn exit(code: u8) -> Report {
    Report::Exit { code, stderr: None, note: None }
}

#[test]
fn success_is_status_zero() {
    assert_eq!(ExitResult::success(), ExitResult::Status(0));
    assert!(ExitResult::success().is_success());
    assert!(ExitResult::status(0).is_success());
    assert_eq!(ExitResult::success().report(), exit(0));
}

#[test]
fn anything_else_is_no_success() {
    assert!(!ExitResult::status(1).is_success());
    assert!(!ExitResult::failure().is_success());
    assert!(!ExitResult::bail("x").is_success());
    assert!(!ExitResult::exec("p".to_string(), vec![], None, vec![]).is_success());
}

#[test]
fn a_failure_without_a_category_leaves_with_one() {
    assert_eq!(ExitResult::failure(), ExitResult::UncategorizedError);
    assert_eq!(ExitResult::failure().report(), exit(1));
}

#[test]
fn a_status_that_is_an_exit_code_is_kept() {
    assert_eq!(ExitResult::status_extended(0), ExitResult::Status(0));
    assert_eq!(ExitResult::status_extended(17), ExitResult::Status(17));
    assert_eq!(ExitResult::status_extended(255), ExitResult::Status(255));
}

#[test]
fn a_status_that_is_no_exit_code_is_the_generic_failure() {
    assert_eq!(ExitResult::status_extended(256), ExitResult::UncategorizedError);
    assert_eq!(ExitResult::status_extended(-1), ExitResult::UncategorizedError);
    assert_eq!(ExitResult::status_extended(i32::MAX), ExitResult::UncategorizedError);
    assert_eq!(ExitResult::status_extended(i32::MIN), ExitResult::UncategorizedError);
}

#[test]
fn exec_carries_its_arguments() {
    let result = ExitResult::exec(
        "prog".to_string(),
        vec!["prog".to_string(), "a".to_string()],
        Some("dir".to_string()),
        vec![("K".to_string(), "V".to_string())],
    );
    match result.report() {
        Report::Exec(args) => {
            assert_eq!(args.prog(), "prog");
            assert_eq!(args.argv(), &vec!["prog".to_string(), "a".to_string()]);
            assert_eq!(args.chdir(), &Some("dir".to_string()));
            assert_eq!(args.env(), &vec![("K".to_string(), "V".to_string())]);
        }
        other => panic!("unexpected report {:?}", other),
    }
}

#[test]
fn bail_says_that_the_command_failed() {
    assert_eq!(
        ExitResult::bail("no luck"),
        ExitResult::Error(ExitError::Other("Command failed: no luck".to_string()))
    );
}

#[test]
fn an_error_is_printed_and_leaves_with_one() {
    assert_eq!(
        ExitResult::Error(ExitError::Other("boom".to_string())).report(),
        Report::Exit { code: 1, stderr: Some("Command failed: boom".to_string()), note: None }
    );
}

#[test]
fn a_failure_with_a_code_of_its_own_leaves_with_it() {
    assert_eq!(
        ExitResult::from(FailureExitCode::SignalInterrupt).report(),
        Report::Exit { code: 130, stderr: None, note: Some("Interrupted".to_string()) }
    );
    assert_eq!(
        ExitResult::from(FailureExitCode::StdoutBrokenPipe).report(),
        Report::Exit { code: 141, stderr: None, note: Some("stdout pipe was broken".to_string()) }
    );
    assert_eq!(ExitResult::from(FailureExitCode::StderrBrokenPipe).report(), exit(141));
    assert_eq!(
        ExitResult::from(FailureExitCode::OutputFileBrokenPipe).report(),
        Report::Exit { code: 141, stderr: None, note: Some("--out pipe was broken".to_string()) }
    );
}

#[test]
fn failures_say_what_they_are() {
    assert_eq!(FailureExitCode::SignalInterrupt.message(), "Ctrl-c was pressed");
    assert_eq!(FailureExitCode::StdoutBrokenPipe.message(), "Broken pipe writing on stdout");
    assert_eq!(FailureExitCode::StderrBrokenPipe.message(), "Broken pipe writing on stdout");
    assert_eq!(
        FailureExitCode::OutputFileBrokenPipe.message(),
        "Broken pipe writing build artifact to --out"
    );
    assert_eq!(FailureExitCode::SignalInterrupt.exit_code(), 130);
    assert_eq!(FailureExitCode::StderrBrokenPipe.exit_code(), 141);
    assert_eq!(FailureExitCode::StderrBrokenPipe.debug_note(), None);
}

#[test]
fn a_stream_that_cannot_be_flushed_is_a_broken_pipe() {
    assert_eq!(exit_code_after_flush(0, true, true), 0);
    assert_eq!(exit_code_after_flush(3, true, true), 3);
    assert_eq!(exit_code_after_flush(0, false, true), 141);
    assert_eq!(exit_code_after_flush(0, true, false), 141);
    assert_eq!(exit_code_after_flush(7, false, false), 141);
}

#[test]
fn a_build_that_lists_errors_is_a_failure() {
    let failed = CommandOutcome::BuildResponse { error_messages: vec!["e".to_string()] };
    let built = CommandOutcome::BuildResponse { error_messages: vec![] };
    assert_eq!(ExitResult::infer(&failed), ExitResult::Status(1));
    assert_eq!(ExitResult::infer(&built), ExitResult::Status(0));
    assert_eq!(ExitResult::infer(&CommandOutcome::Other), ExitResult::Status(0));
}

#[test]
fn results_of_commands_become_exit_results() {
    let ok: Result<(), ExitError> = Ok(());
    assert_eq!(ExitResult::from(ok), ExitResult::Status(0));
    let code: Result<u8, ExitError> = Ok(9);
    assert_eq!(ExitResult::from(code), ExitResult::Status(9));
    let failed: Result<u8, ExitError> = Err(ExitError::Other("x".to_string()));
    assert_eq!(ExitResult::from(failed), ExitResult::Error(ExitError::Other("x".to_string())));
    let failed: Result<(), ExitError> = Err(ExitError::Failure(FailureExitCode::SignalInterrupt));
    assert_eq!(
        ExitResult::from(failed),
        ExitResult::Error(ExitError::Failure(FailureExitCode::SignalInterrupt))
    );
}

#[test]
fn a_result_splits_into_code_or_error() {
    assert_eq!(ExitResult::from_output(4), ExitResult::Status(4));
    assert_eq!(ExitResult::Status(4).branch(), ControlFlow::Continue(4));
    assert_eq!(ExitResult::UncategorizedError.branch(), ControlFlow::Continue(1));
    let error = ExitError::Other("x".to_string());
    assert_eq!(
        ExitResult::from_residual(ExitError::Other("x".to_string())).branch(),
        ControlFlow::Break(error)
    );
}

#[test]
fn causes_have_their_exit_codes() {
    assert_eq!(gen_error_exit_code(ErrorCause::Unknown), 2);
    assert_eq!(gen_error_exit_code(ErrorCause::Infra), 2);
    assert_eq!(gen_error_exit_code(ErrorCause::User), 3);
    assert_eq!(gen_error_exit_code(ErrorCause::DaemonIsBusy), 4);
}
