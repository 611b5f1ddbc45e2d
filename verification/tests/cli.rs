use rlox::cli::{exit_code, request, Ending, Request};
use rlox::vm::{InterpretError, RunFileError};

#[test]
fn arguments_decide_what_is_done() {
    assert_eq!(request(0), Request::Usage);
    assert_eq!(request(1), Request::Session);
    assert_eq!(request(2), Request::File);
    assert_eq!(request(3), Request::File);
    assert_eq!(request(usize::MAX), Request::File);
}

#[test]
fn each_ending_has_its_exit_code() {
    assert_eq!(exit_code(Ending::Done), 0);
    assert_eq!(exit_code(Ending::Usage), 64);
    assert_eq!(exit_code(Ending::Failed(RunFileError::Io)), 74);
    assert_eq!(exit_code(Ending::Failed(RunFileError::Interpret(InterpretError::Compile))), 65);
    assert_eq!(exit_code(Ending::Failed(RunFileError::Interpret(InterpretError::Runtime))), 70);
}

#[test]
fn exit_codes_are_those_of_sysexits() {
    assert_eq!(exit_code(Ending::Done), exitcode::OK);
    assert_eq!(exit_code(Ending::Usage), exitcode::USAGE);
    assert_eq!(exit_code(Ending::Failed(RunFileError::Io)), exitcode::IOERR);
    assert_eq!(
        exit_code(Ending::Failed(RunFileError::Interpret(InterpretError::Compile))),
        exitcode::DATAERR
    );
    assert_eq!(
        exit_code(Ending::Failed(RunFileError::Interpret(InterpretError::Runtime))),
        exitcode::SOFTWARE
    );
}
