use r_env::conf::{Configuration, Mode, ScanState, Scanner};
use r_env::error::{Error, ErrorKind};

fn args(tokens: &[&str]) -> Vec<String> {
    tokens.iter().map(|t| t.to_string()).collect()
}

fn parse(tokens: &[&str]) -> Result<Configuration, Error> {
    Configuration::new(&args(tokens))
}

#[test]
fn no_arguments_means_run_with_defaults() {
    let conf = parse(&[]).unwrap();
    assert_eq!(conf.mode(), Mode::Run);
    assert!(conf.command.is_empty());
    assert!(!conf.exec_dump);
    assert!(!conf.show_help);
    assert!(!conf.use_stdin);
    assert_eq!(conf.file, None);
}

#[test]
fn stdin_and_dump_flags() {
    let conf = parse(&["--use-stdin", "--dump"]).unwrap();
    assert_eq!(conf.mode(), Mode::Dump);
    assert!(conf.use_stdin);
    assert!(conf.command.is_empty());
    assert_eq!(conf.file, None);
    assert!(!conf.show_help);
}

#[test]
fn flags_in_either_order_give_the_same_configuration() {
    assert_eq!(parse(&["--use-stdin", "--dump"]), parse(&["--dump", "--use-stdin"]));
    assert_eq!(parse(&["--dump", "--dump"]), parse(&["--dump"]));
}

#[test]
fn flag_after_command_start_belongs_to_the_command() {
    let conf = parse(&["--file", "x.env", "echo", "--use-stdin"]).unwrap();
    assert_eq!(conf.mode(), Mode::Run);
    assert_eq!(conf.file, Some("x.env".to_string()));
    assert_eq!(conf.command, args(&["echo", "--use-stdin"]));
    assert!(!conf.use_stdin);
}

#[test]
fn file_without_path_is_rejected() {
    let error = parse(&["--file"]).unwrap_err();
    assert_eq!(error, Error::MissingFilePath);
    assert_eq!(error.kind(), ErrorKind::Usage);
    assert_eq!(error.message(), "--file option requires a file path.");
}

#[test]
fn file_with_empty_path_is_rejected() {
    assert_eq!(parse(&["--file", ""]), Err(Error::MissingFilePath));
    assert_eq!(parse(&["--file", "", "--dump"]), Err(Error::MissingFilePath));
}

#[test]
fn later_file_path_replaces_earlier_one() {
    let conf = parse(&["--file", "a", "--file", "b"]).unwrap();
    assert_eq!(conf.file, Some("b".to_string()));
    assert_eq!(parse(&["--file", "a", "--file"]), Err(Error::MissingFilePath));
    let mended = parse(&["--file", "", "--file", "b"]).unwrap();
    assert_eq!(mended.file, Some("b".to_string()));
}

#[test]
fn unknown_option_is_rejected() {
    let error = parse(&["--unknown"]).unwrap_err();
    assert_eq!(error, Error::UnknownOption("--unknown".to_string()));
    assert_eq!(error.kind(), ErrorKind::Usage);
    assert_eq!(error.message(), "Unknown option --unknown.");
}

#[test]
fn unknown_option_comes_before_missing_path() {
    assert_eq!(parse(&["-x", "--file"]), Err(Error::UnknownOption("-x".to_string())));
    assert_eq!(parse(&["--file", "", "-x"]), Err(Error::UnknownOption("-x".to_string())));
    assert_eq!(parse(&["-"]), Err(Error::UnknownOption("-".to_string())));
    assert_eq!(parse(&["-help"]), Err(Error::UnknownOption("-help".to_string())));
    assert_eq!(parse(&["--Dump"]), Err(Error::UnknownOption("--Dump".to_string())));
}

#[test]
fn token_after_file_is_the_path_whatever_it_looks_like() {
    let conf = parse(&["--file", "--dump"]).unwrap();
    assert_eq!(conf.file, Some("--dump".to_string()));
    assert_eq!(conf.mode(), Mode::Run);
    assert!(conf.command.is_empty());
    let odd = parse(&["--file", "--unknown", "ls"]).unwrap();
    assert_eq!(odd.file, Some("--unknown".to_string()));
    assert_eq!(odd.command, args(&["ls"]));
    let dashes = parse(&["--file", "--", "--dump"]).unwrap();
    assert_eq!(dashes.file, Some("--".to_string()));
    assert_eq!(dashes.mode(), Mode::Dump);
}

#[test]
fn double_dash_starts_the_command_and_stays_in_it() {
    let conf = parse(&["--use-stdin", "--", "--dump", "-h"]).unwrap();
    assert_eq!(conf.command, args(&["--", "--dump", "-h"]));
    assert!(conf.use_stdin);
    assert_eq!(conf.mode(), Mode::Run);
}

#[test]
fn command_tokens_are_kept_as_they_are() {
    let conf = parse(&["ls", "-l", "--file", "x", "", "--", "a b"]).unwrap();
    assert_eq!(conf.command, args(&["ls", "-l", "--file", "x", "", "--", "a b"]));
    assert_eq!(conf.file, None);
    let empty_first = parse(&["", "--dump"]).unwrap();
    assert_eq!(empty_first.command, args(&["", "--dump"]));
    assert_eq!(empty_first.mode(), Mode::Run);
}

#[test]
fn help_wins_over_dump_and_dump_over_run() {
    assert_eq!(parse(&["--dump", "--help"]).unwrap().mode(), Mode::Help);
    assert_eq!(parse(&["--help", "--dump"]).unwrap().mode(), Mode::Help);
    assert_eq!(parse(&["-h", "--dump"]).unwrap().mode(), Mode::Help);
    assert_eq!(parse(&["-h"]).unwrap().mode(), Mode::Help);
    assert_eq!(parse(&["--dump"]).unwrap().mode(), Mode::Dump);
    assert_eq!(parse(&["ls"]).unwrap().mode(), Mode::Run);
    let both = parse(&["--dump", "--help"]).unwrap();
    assert!(both.exec_dump && both.show_help);
}

#[test]
fn command_is_held_only_in_run_mode() {
    let dump = parse(&["--dump", "ls", "-l"]).unwrap();
    assert_eq!(dump.mode(), Mode::Dump);
    assert!(dump.command.is_empty());
    let help = parse(&["-h", "ls"]).unwrap();
    assert_eq!(help.mode(), Mode::Help);
    assert!(help.command.is_empty());
    let run = parse(&["--use-stdin", "ls", "-l"]).unwrap();
    assert_eq!(run.command, args(&["ls", "-l"]));
}

#[test]
fn scanner_moves_through_its_three_states() {
    let scanner = Scanner::new();
    assert_eq!(scanner.state, ScanState::Scanning);
    let scanner = scanner.step("--file").unwrap();
    assert_eq!(scanner.state, ScanState::AwaitingFileValue);
    let scanner = scanner.step("-h").unwrap();
    assert_eq!(scanner.state, ScanState::Scanning);
    assert_eq!(scanner.conf.file, Some("-h".to_string()));
    assert!(!scanner.conf.show_help);
    let scanner = scanner.step("--dump").unwrap();
    assert_eq!(scanner.state, ScanState::Scanning);
    let scanner = scanner.step("env").unwrap();
    assert_eq!(scanner.state, ScanState::InCommand);
    let scanner = scanner.step("--bogus").unwrap();
    assert_eq!(scanner.state, ScanState::InCommand);
    assert_eq!(scanner.conf.command, args(&["env", "--bogus"]));
    let conf = scanner.finish().unwrap();
    assert_eq!(conf.mode(), Mode::Dump);
    assert!(conf.command.is_empty());
}

#[test]
fn scanner_refuses_an_unknown_option_only_while_scanning() {
    assert_eq!(
        Scanner::new().step("--nope").unwrap_err(),
        Error::UnknownOption("--nope".to_string())
    );
    assert!(Scanner::new().step("--file").unwrap().step("--nope").is_ok());
    assert!(Scanner::new().step("x").unwrap().step("--nope").is_ok());
    assert_eq!(
        Scanner::new().step("--file").unwrap().finish().unwrap_err(),
        Error::MissingFilePath
    );
}
