use r_env::app::{exit_code_of, launch_command, new, Launch};
use r_env::env::parse_dotenv_string;
use r_env::error::{Error, ErrorKind};
use r_env::source::ReadOutcome;

fn strings(tokens: &[&str]) -> Vec<String> {
    tokens.iter().map(|t| t.to_string()).collect()
}

fn text(content: &str) -> ReadOutcome {
    ReadOutcome::Text(content.to_string())
}

#[test]
fn launch_splits_the_command_and_carries_the_variables() {
    let vars = parse_dotenv_string("B=2\nA=1");
    let launch = launch_command(&vars, &strings(&["echo", "--use-stdin", "a b", ""])).unwrap();
    assert_eq!(launch.program, "echo");
    assert_eq!(launch.args, strings(&["--use-stdin", "a b", ""]));
    assert_eq!(
        launch.env,
        vec![("A".to_string(), "1".to_string()), ("B".to_string(), "2".to_string())]
    );
}

#[test]
fn launch_of_a_single_token_has_no_arguments() {
    let launch = launch_command(&parse_dotenv_string(""), &strings(&["env"])).unwrap();
    assert_eq!(launch, Launch { program: "env".to_string(), args: vec![], env: vec![] });
}

#[test]
fn empty_command_is_a_usage_error() {
    let error = launch_command(&parse_dotenv_string("A=1"), &vec![]).unwrap_err();
    assert_eq!(error, Error::EmptyCommand);
    assert_eq!(error.kind(), ErrorKind::Usage);
    assert_eq!(error.message(), "command is empty");
}

#[test]
fn execute_command_reads_then_launches() {
    let app = new();
    let launch = app
        .execute_command(false, Some("x.env".to_string()), text("A=1\nB = 2 \nA=3\n"), &strings(&["ls", "-l"]))
        .unwrap();
    assert_eq!(launch.program, "ls");
    assert_eq!(launch.args, strings(&["-l"]));
    assert_eq!(
        launch.env,
        vec![("A".to_string(), "3".to_string()), ("B".to_string(), "2".to_string())]
    );
}

#[test]
fn execute_command_with_missing_default_file_launches_without_variables() {
    let app = new();
    let missing = ReadOutcome::NotFound("gone".to_string());
    let launch = app.execute_command(false, None, missing, &strings(&["ls"])).unwrap();
    assert_eq!(launch, Launch { program: "ls".to_string(), args: vec![], env: vec![] });
}

#[test]
fn execute_command_reports_the_source_before_the_command() {
    let app = new();
    let missing = ReadOutcome::NotFound("gone".to_string());
    let error = app.execute_command(false, Some("x.env".to_string()), missing, &vec![]).unwrap_err();
    assert_eq!(error, Error::Io("gone".to_string()));
    let error = app.execute_command(true, None, text("A=1"), &vec![]).unwrap_err();
    assert_eq!(error, Error::EmptyCommand);
}

#[test]
fn dump_variables_gives_the_lines_to_print() {
    let app = new();
    let lines = app.dump_variables(true, None, text("B = 2 \n# c\nA=1\nBAD\nA=3\n")).unwrap();
    assert_eq!(lines, strings(&["A=3", "B=2"]));
    let none = app.dump_variables(false, None, ReadOutcome::NotFound("gone".to_string())).unwrap();
    assert!(none.is_empty());
}

#[test]
fn dump_variables_reports_a_failed_read() {
    let app = new();
    let error = app
        .dump_variables(false, Some("missing.env".to_string()), ReadOutcome::NotFound("gone".to_string()))
        .unwrap_err();
    assert_eq!(error, Error::Io("gone".to_string()));
    let error = app.dump_variables(true, None, ReadOutcome::Failed("broken pipe".to_string())).unwrap_err();
    assert_eq!(error.kind(), ErrorKind::Io);
    assert_eq!(error.message(), "broken pipe");
}

#[test]
fn every_error_ends_with_exit_code_one() {
    let errors = [
        Error::UnknownOption("-x".to_string()),
        Error::MissingFilePath,
        Error::EmptyCommand,
        Error::Io("io".to_string()),
        Error::Spawn("spawn".to_string()),
    ];
    for error in errors {
        assert_eq!(error.exit_code(), 1);
    }
}

#[test]
fn usage_is_shown_for_usage_errors_only() {
    assert!(Error::UnknownOption("-x".to_string()).shows_usage());
    assert!(Error::MissingFilePath.shows_usage());
    assert!(Error::EmptyCommand.shows_usage());
    assert!(!Error::Io("io".to_string()).shows_usage());
    assert!(!Error::Spawn("spawn".to_string()).shows_usage());
}

#[test]
fn spawn_error_has_its_own_kind() {
    let error = Error::Spawn("No such file or directory (os error 2)".to_string());
    assert_eq!(error.kind(), ErrorKind::Spawn);
    assert_eq!(error.message(), "No such file or directory (os error 2)");
    assert_ne!(error.kind(), ErrorKind::Io);
}

#[test]
fn exit_code_is_that_of_the_command() {
    assert_eq!(exit_code_of(Some(0)), 0);
    assert_eq!(exit_code_of(Some(1)), 1);
    assert_eq!(exit_code_of(Some(3)), 3);
    assert_eq!(exit_code_of(Some(255)), 255);
    assert_eq!(exit_code_of(Some(-1)), -1);
    assert_eq!(exit_code_of(Some(i32::MAX)), i32::MAX);
}

#[test]
fn command_that_ended_without_a_code_counts_as_failed() {
    assert_eq!(exit_code_of(None), 1);
}

#[test]
fn launch_carries_no_variable_without_a_name() {
    let vars = parse_dotenv_string("=v\nA=1\n = w\n=");
    let launch = launch_command(&vars, &strings(&["env"])).unwrap();
    assert_eq!(launch.env, vec![("A".to_string(), "1".to_string())]);
    let app = new();
    let launch = app.execute_command(true, None, text("=v\n"), &strings(&["env"])).unwrap();
    assert!(launch.env.is_empty());
    assert!(app.dump_variables(true, None, text("=v\n=")).unwrap().is_empty());
}
