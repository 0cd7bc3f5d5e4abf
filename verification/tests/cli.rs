use spec_elf::cli::{is_help_flag, parse_command, Command};
use spec_elf::install::{after_create_attempt, CreateOutcome, Retry, TEMPORARY_NAME_ATTEMPTS};

fn args(list: &[&str]) -> Vec<Vec<u8>> {
    list.iter().map(|s| s.as_bytes().to_vec()).collect()
}

#[test]
fn help_flags_are_recognized() {
    for flag in ["--help", "-help", "-h", "--h"] {
        assert!(is_help_flag(flag.as_bytes()));
    }
    assert!(!is_help_flag(b"help"));
    assert!(!is_help_flag(b"-H"));
}

#[test]
fn arguments_select_the_command() {
    assert_eq!(parse_command(&args(&["-h"])), Command::Help);
    assert_eq!(parse_command(&args(&["."])), Command::Package);
    assert_eq!(parse_command(&args(&[])), Command::MissingDirectory);
    assert_eq!(parse_command(&args(&[""])), Command::InvalidArguments);
    assert_eq!(parse_command(&args(&["a", "b"])), Command::InvalidArguments);
    assert_eq!(parse_command(&args(&["--help", "x"])), Command::InvalidArguments);
}

#[test]
fn temporary_names_are_retried_a_hundred_times() {
    assert_eq!(TEMPORARY_NAME_ATTEMPTS, 100);
    assert_eq!(after_create_attempt(0, CreateOutcome::Created), Retry::Proceed);
    assert_eq!(after_create_attempt(0, CreateOutcome::AlreadyExists), Retry::TryAgain(1));
    assert_eq!(after_create_attempt(98, CreateOutcome::AlreadyExists), Retry::TryAgain(99));
    assert_eq!(after_create_attempt(99, CreateOutcome::AlreadyExists), Retry::Exhausted);
    assert_eq!(after_create_attempt(5, CreateOutcome::Failed), Retry::Fail);
}
