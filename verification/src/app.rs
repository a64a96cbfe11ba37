//! What the launcher does with the variables: it runs a command with them,
//! or prints them.
//!
//! Each operation takes what reading the variable source gave and returns
//! what is to be done: the launch of a command, or the lines to print.

use vstd::prelude::*;
use crate::entries::{keys_not_empty, listing, Entry, Variables};
use crate::env::DotenvFile;
use crate::error::{Error, ErrorView};
use crate::format::{dump, variables_of_text};
use crate::source::{ReadOutcome, ReadOutcomeView, SourceView};

verus! {

/// The launch of a command: the program, its arguments, and the variables
/// laid over the environment that it inherits.
#[derive(Clone, Debug, PartialEq, Eq)]
pub struct Launch {
    /// The executable: the first token of the command.
    pub program: String,
    /// The other tokens of the command, as they are.
    pub args: Vec<String>,
    /// The variables, in the order of their keys.
    pub env: Vec<(String, String)>,
}

/// The mathematical content of a [`Launch`].
pub struct LaunchView {
    pub program: Seq<char>,
    pub args: Seq<Seq<char>>,
    pub env: Seq<Entry>,
}

impl View for Launch {
    type V = LaunchView;

    open spec fn view(&self) -> LaunchView {
        LaunchView {
            program: self.program@,
            args: self.args.deep_view(),
            env: self.env.deep_view(),
        }
    }
}

/// The launch of `command` with the variables `vars`. A command without
/// tokens cannot be launched.
pub open spec fn launch_of(vars: Variables, command: Seq<Seq<char>>) -> Result<
    LaunchView,
    ErrorView,
> {
    if command.len() == 0 {
        Err(ErrorView::EmptyCommand)
    } else {
        Ok(LaunchView { program: command.first(), args: command.drop_first(), env: listing(vars) })
    }
}

/// What running `command` comes to, given the settings of the variable
/// source and what reading it gave. The source is looked at first: its
/// error comes before that of an empty command.
pub open spec fn execution(
    use_stdin: bool,
    env_file: Option<Seq<char>>,
    read: ReadOutcomeView,
    command: Seq<Seq<char>>,
) -> Result<LaunchView, ErrorView> {
    match SourceView::select(use_stdin, env_file).text(read) {
        Ok(text) => launch_of(variables_of_text(text), command),
        Err(error) => Err(error),
    }
}

/// What dumping the variables comes to, given the settings of the variable
/// source and what reading it gave: the lines to print.
pub open spec fn dumping(
    use_stdin: bool,
    env_file: Option<Seq<char>>,
    read: ReadOutcomeView,
) -> Result<Seq<Seq<char>>, ErrorView> {
    match SourceView::select(use_stdin, env_file).text(read) {
        Ok(text) => Ok(dump(variables_of_text(text))),
        Err(error) => Err(error),
    }
}

/// Prepares the launch of a command with the variables of `env`.
pub fn launch_command(env: &DotenvFile, commands: &Vec<String>) -> (result: Result<Launch, Error>)
    ensures
        match launch_of(env@, commands.deep_view()) {
            Ok(launch) => result matches Ok(got) && got@ == launch,
            Err(error) => result matches Err(got) && got@ == error,
        },
        result matches Ok(got) ==> keys_not_empty(got@.env),
{
    if commands.len() == 0 {
        return Err(Error::EmptyCommand);
    }
    let program = commands[0].clone();
    let mut args: Vec<String> = Vec::new();
    let mut i: usize = 1;
    while i < commands.len()
        invariant
            1 <= i <= commands.len(),
            args.len() == i - 1,
            forall|j: int| 0 <= j < i - 1 ==> (#[trigger] args[j])@ == commands[j + 1]@,
        decreases commands.len() - i,
    {
        args.push(commands[i].clone());
        i += 1;
    }
    let entries = env.get_inner_map();
    let mut vars: Vec<(String, String)> = Vec::new();
    let mut k: usize = 0;
    while k < entries.len()
        invariant
            0 <= k <= entries.len(),
            vars.len() == k,
            forall|j: int| 0 <= j < k ==> (#[trigger] vars[j]).deep_view() == entries[j].deep_view(),
        decreases entries.len() - k,
    {
        vars.push((entries[k].0.clone(), entries[k].1.clone()));
        k += 1;
    }
    let launch = Launch { program, args, env: vars };
    assert(launch.args.deep_view() =~= commands.deep_view().drop_first());
    assert(launch.env.deep_view() =~= entries.deep_view());
    Ok(launch)
}

/// The exit code of the launcher once the command has ended: the code of
/// the command, which is 0 where it succeeded. A command that ended without
/// a code, as one stopped by a signal does, counts as failed: 1.
pub fn exit_code_of(code: Option<i32>) -> (exit: i32)
    ensures
        exit == match code {
            Some(code) => code,
            None => 1,
        },
{
    match code {
        Some(code) => code,
        None => 1,
    }
}

/// The two operations of the launcher.
pub trait Application {
    /// Prepares the run of `commands` with the variables of the source
    /// that `use_stdin` and `env_file` select, `read` being what reading
    /// that source gave.
    fn execute_command(
        &self,
        use_stdin: bool,
        env_file: Option<String>,
        read: ReadOutcome,
        commands: &Vec<String>,
    ) -> (result: Result<Launch, Error>)
        ensures
            match execution(use_stdin, env_file.deep_view(), read@, commands.deep_view()) {
                Ok(launch) => result matches Ok(got) && got@ == launch,
                Err(error) => result matches Err(got) && got@ == error,
            },
            result matches Ok(got) ==> keys_not_empty(got@.env),
    ;

    /// The lines that show the variables of the source that `use_stdin`
    /// and `env_file` select, `read` being what reading that source gave.
    fn dump_variables(&self, use_stdin: bool, env_file: Option<String>, read: ReadOutcome) -> (result:
        Result<Vec<String>, Error>)
        ensures
            match dumping(use_stdin, env_file.deep_view(), read@) {
                Ok(lines) => result matches Ok(got) && got.deep_view() == lines,
                Err(error) => result matches Err(got) && got@ == error,
            },
    ;
}

/// The launcher itself.
struct ApplicationImpl;

impl Application for ApplicationImpl {
    fn execute_command(
        &self,
        use_stdin: bool,
        env_file: Option<String>,
        read: ReadOutcome,
        commands: &Vec<String>,
    ) -> (result: Result<Launch, Error>) {
        match DotenvFile::configure(use_stdin, env_file, read) {
            Ok(dotenv) => launch_command(&dotenv, commands),
            Err(error) => Err(error),
        }
    }

    fn dump_variables(&self, use_stdin: bool, env_file: Option<String>, read: ReadOutcome) -> (result:
        Result<Vec<String>, Error>) {
        match DotenvFile::configure(use_stdin, env_file, read) {
            Ok(dotenv) => Ok(dotenv.dump_lines()),
            Err(error) => Err(error),
        }
    }
}

/// The launcher.
pub fn new() -> Box<dyn Application> {
    Box::new(ApplicationImpl {  })
}

} // verus!
