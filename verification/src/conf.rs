//! Reading the argument list.
//!
//! The tokens are read once, from left to right, by a machine with three
//! states. Options are recognised only until the first token of the command:
//! from there on every token belongs to the command, whatever it looks like.

use vstd::prelude::*;
use crate::error::{Error, ErrorView};
use crate::text::{first_char, str_eq};

verus! {

/// What the launcher is asked to do.
#[derive(Clone, Copy, Debug, PartialEq, Eq, Structural)]
pub enum Mode {
    /// Run the command with the variables in its environment.
    Run,
    /// Print the variables.
    Dump,
    /// Show the usage text.
    Help,
}

/// The state of the scan over the tokens.
#[derive(Clone, Copy, Debug, PartialEq, Eq, Structural)]
pub enum ScanState {
    /// Options are still recognised.
    Scanning,
    /// `--file` was the last token: the next one is its path.
    AwaitingFileValue,
    /// The command has begun: every further token belongs to it.
    InCommand,
}

/// The result of reading the argument list.
#[derive(Clone, Debug, PartialEq, Eq)]
pub struct Configuration {
    /// Command to execute, and its arguments.
    pub command: Vec<String>,
    /// Dump variables.
    pub exec_dump: bool,
    /// Path of the variable source, if one was given.
    pub file: Option<String>,
    /// Show help.
    pub show_help: bool,
    /// Read the variable source from standard input.
    pub use_stdin: bool,
}

/// The mathematical content of a [`Configuration`].
pub struct ConfigurationView {
    pub command: Seq<Seq<char>>,
    pub exec_dump: bool,
    pub file: Option<Seq<char>>,
    pub show_help: bool,
    pub use_stdin: bool,
}

impl View for Configuration {
    type V = ConfigurationView;

    open spec fn view(&self) -> ConfigurationView {
        ConfigurationView {
            command: self.command.deep_view(),
            exec_dump: self.exec_dump,
            file: self.file.deep_view(),
            show_help: self.show_help,
            use_stdin: self.use_stdin,
        }
    }
}

impl ConfigurationView {
    /// The configuration before any token is read.
    pub open spec fn initial() -> ConfigurationView {
        ConfigurationView {
            command: Seq::empty(),
            exec_dump: false,
            file: None,
            show_help: false,
            use_stdin: false,
        }
    }

    /// Help wins over dump, and dump over run.
    pub open spec fn mode(self) -> Mode {
        if self.show_help {
            Mode::Help
        } else if self.exec_dump {
            Mode::Dump
        } else {
            Mode::Run
        }
    }

    /// A path, where one is held, is not empty, and a command is held only
    /// to be run.
    pub open spec fn wf(self) -> bool {
        &&& self.file matches Some(path) ==> path.len() > 0
        &&& self.mode() != Mode::Run ==> self.command.len() == 0
    }
}

/// The scan in progress: its state and what was gathered so far.
#[derive(Clone, Debug, PartialEq, Eq)]
pub struct Scanner {
    /// Where the scan stands.
    pub state: ScanState,
    /// What the tokens read so far have set.
    pub conf: Configuration,
}

/// The mathematical content of a [`Scanner`].
pub struct ScannerView {
    pub state: ScanState,
    pub conf: ConfigurationView,
}

impl View for Scanner {
    type V = ScannerView;

    open spec fn view(&self) -> ScannerView {
        ScannerView { state: self.state, conf: self.conf@ }
    }
}

/// Whether a token looks like an option: it begins with `-`.
pub open spec fn looks_like_option(token: Seq<char>) -> bool {
    token.len() > 0 && token[0] == '-'
}

impl ScannerView {
    /// The scan before any token is read.
    pub open spec fn initial() -> ScannerView {
        ScannerView { state: ScanState::Scanning, conf: ConfigurationView::initial() }
    }

    /// The scan in the same state, with `conf` for what was gathered.
    pub open spec fn with(self, conf: ConfigurationView) -> ScannerView {
        ScannerView { conf, ..self }
    }

    /// The scan with `token` added to the command.
    pub open spec fn capture(self, token: Seq<char>) -> ScannerView {
        ScannerView {
            state: ScanState::InCommand,
            conf: ConfigurationView { command: self.conf.command.push(token), ..self.conf },
        }
    }

    /// One transition: the scan after `token`, or the error that ends it.
    pub open spec fn step(self, token: Seq<char>) -> Result<ScannerView, ErrorView> {
        match self.state {
            ScanState::InCommand => Ok(self.capture(token)),
            ScanState::AwaitingFileValue => Ok(
                ScannerView {
                    state: ScanState::Scanning,
                    conf: ConfigurationView { file: Some(token), ..self.conf },
                },
            ),
            ScanState::Scanning => {
                if token == "--"@ {
                    Ok(self.capture(token))
                } else if token == "--dump"@ {
                    Ok(self.with(ConfigurationView { exec_dump: true, ..self.conf }))
                } else if token == "--file"@ {
                    Ok(ScannerView { state: ScanState::AwaitingFileValue, ..self })
                } else if token == "--help"@ || token == "-h"@ {
                    Ok(self.with(ConfigurationView { show_help: true, ..self.conf }))
                } else if token == "--use-stdin"@ {
                    Ok(self.with(ConfigurationView { use_stdin: true, ..self.conf }))
                } else if looks_like_option(token) {
                    Err(ErrorView::UnknownOption(token))
                } else {
                    Ok(self.capture(token))
                }
            },
        }
    }

    /// The scan after all of `tokens`, or the first error.
    pub open spec fn run(self, tokens: Seq<Seq<char>>) -> Result<ScannerView, ErrorView>
        decreases tokens.len(),
    {
        if tokens.len() == 0 {
            Ok(self)
        } else {
            match self.step(tokens.first()) {
                Ok(next) => next.run(tokens.drop_first()),
                Err(error) => Err(error),
            }
        }
    }

    /// The end of the scan: `--file` must have got a path, and not an empty
    /// one. The command is kept only where it is to be run.
    pub open spec fn finish(self) -> Result<ConfigurationView, ErrorView> {
        if self.state == ScanState::AwaitingFileValue || self.conf.file == Some(
            Seq::<char>::empty(),
        ) {
            Err(ErrorView::MissingFilePath)
        } else if self.conf.mode() == Mode::Run {
            Ok(self.conf)
        } else {
            Ok(ConfigurationView { command: Seq::empty(), ..self.conf })
        }
    }
}

/// What the argument list `tokens` means: a configuration or an error.
pub open spec fn parse_arguments(tokens: Seq<Seq<char>>) -> Result<ConfigurationView, ErrorView> {
    match ScannerView::initial().run(tokens) {
        Ok(scanner) => scanner.finish(),
        Err(error) => Err(error),
    }
}

impl Scanner {
    /// The scan before any token is read.
    pub fn new() -> (scanner: Scanner)
        ensures
            scanner@ == ScannerView::initial(),
    {
        let scanner = Scanner {
            state: ScanState::Scanning,
            conf: Configuration {
                command: Vec::new(),
                exec_dump: false,
                file: None,
                show_help: false,
                use_stdin: false,
            },
        };
        assert(scanner.conf.command.deep_view() =~= Seq::empty());
        scanner
    }

    /// Adds `token` to the command.
    fn capture(self, token: &str) -> (next: Scanner)
        ensures
            next@ == self@.capture(token@),
    {
        let mut next = self;
        next.state = ScanState::InCommand;
        next.conf.command.push(token.to_owned());
        assert(next.conf.command.deep_view() =~= self.conf.command.deep_view().push(token@));
        next
    }

    /// One transition: reads `token`.
    pub fn step(self, token: &str) -> (next: Result<Scanner, Error>)
        ensures
            match self@.step(token@) {
                Ok(scanner) => next matches Ok(got) && got@ == scanner,
                Err(error) => next matches Err(got) && got@ == error,
            },
    {
        let mut next = self;
        match next.state {
            ScanState::InCommand => Ok(next.capture(token)),
            ScanState::AwaitingFileValue => {
                next.state = ScanState::Scanning;
                next.conf.file = Some(token.to_owned());
                Ok(next)
            },
            ScanState::Scanning => {
                if str_eq(token, "--") {
                    Ok(next.capture(token))
                } else if str_eq(token, "--dump") {
                    next.conf.exec_dump = true;
                    Ok(next)
                } else if str_eq(token, "--file") {
                    next.state = ScanState::AwaitingFileValue;
                    Ok(next)
                } else if str_eq(token, "--help") || str_eq(token, "-h") {
                    next.conf.show_help = true;
                    Ok(next)
                } else if str_eq(token, "--use-stdin") {
                    next.conf.use_stdin = true;
                    Ok(next)
                } else if first_char(token) == Some('-') {
                    Err(Error::UnknownOption(token.to_owned()))
                } else {
                    Ok(next.capture(token))
                }
            },
        }
    }

    /// The end of the scan.
    pub fn finish(self) -> (result: Result<Configuration, Error>)
        ensures
            match self@.finish() {
                Ok(conf) => result matches Ok(got) && got@ == conf,
                Err(error) => result matches Err(got) && got@ == error,
            },
    {
        let missing = match self.state {
            ScanState::AwaitingFileValue => true,
            _ => match &self.conf.file {
                Some(path) => path.as_str().is_empty(),
                None => false,
            },
        };
        if missing {
            proof {
                if self.state != ScanState::AwaitingFileValue {
                    assert(self@.conf.file->0 =~= Seq::<char>::empty());
                }
            }
            return Err(Error::MissingFilePath);
        }
        let mut conf = self.conf;
        match conf.mode() {
            Mode::Run => {},
            _ => {
                conf.command = Vec::new();
                assert(conf.command.deep_view() =~= Seq::empty());
            },
        }
        Ok(conf)
    }
}

impl Configuration {
    /// Reads the argument list `args`, the program's name left out.
    pub fn new(args: &Vec<String>) -> (result: Result<Configuration, Error>)
        ensures
            match parse_arguments(args.deep_view()) {
                Ok(conf) => result matches Ok(got) && got@ == conf,
                Err(error) => result matches Err(got) && got@ == error,
            },
            result matches Ok(conf) ==> conf@.wf(),
    {
        let ghost tokens = args.deep_view();
        proof {
            if parse_arguments(tokens) is Ok {
                lemma_parsed_is_wf(tokens);
            }
        }
        let mut scanner = Scanner::new();
        let mut i: usize = 0;
        assert(tokens.skip(0) == tokens);
        while i < args.len()
            invariant
                0 <= i <= args.len(),
                tokens == args.deep_view(),
                ScannerView::initial().run(tokens) == scanner@.run(tokens.skip(i as int)),
            decreases args.len() - i,
        {
            assert(tokens.skip(i as int).first() == args[i as int]@);
            assert(tokens.skip(i as int).drop_first() == tokens.skip(i + 1));
            match scanner.step(args[i].as_str()) {
                Ok(next) => {
                    scanner = next;
                },
                Err(error) => {
                    return Err(error);
                },
            }
            i += 1;
        }
        scanner.finish()
    }

    /// What the launcher is asked to do: help wins over dump, and dump
    /// over run.
    pub fn mode(&self) -> (mode: Mode)
        ensures
            mode == self@.mode(),
    {
        if self.show_help {
            Mode::Help
        } else if self.exec_dump {
            Mode::Dump
        } else {
            Mode::Run
        }
    }
}

/// Reading one sequence of tokens after another is reading the first,
/// then the second from where the first ended.
pub proof fn lemma_run_concat(scanner: ScannerView, first: Seq<Seq<char>>, second: Seq<Seq<char>>)
    ensures
        scanner.run(first + second) == match scanner.run(first) {
            Ok(reached) => reached.run(second),
            Err(error) => Err(error),
        },
    decreases first.len(),
{
    if first.len() == 0 {
        assert(first + second == second);
    } else {
        assert((first + second).first() == first.first());
        assert((first + second).drop_first() == first.drop_first() + second);
        match scanner.step(first.first()) {
            Ok(next) => lemma_run_concat(next, first.drop_first(), second),
            Err(_) => {},
        }
    }
}

/// Once the command has begun, every further token is added to it as it
/// is, whatever it looks like, and nothing else changes.
pub proof fn lemma_command_is_verbatim(scanner: ScannerView, tokens: Seq<Seq<char>>)
    requires
        scanner.state == ScanState::InCommand,
    ensures
        scanner.run(tokens) == Ok::<ScannerView, ErrorView>(
            scanner.with(
                ConfigurationView { command: scanner.conf.command + tokens, ..scanner.conf },
            ),
        ),
    decreases tokens.len(),
{
    if tokens.len() == 0 {
        assert(scanner.conf.command + tokens == scanner.conf.command);
    } else {
        let next = scanner.capture(tokens.first());
        lemma_command_is_verbatim(next, tokens.drop_first());
        assert(next.conf.command + tokens.drop_first() == scanner.conf.command + tokens);
    }
}

/// Options are recognised only before the command: if reading `head` has
/// begun the command, the tokens of `tail` are added to it as they are.
pub proof fn lemma_tokens_after_command_start(head: Seq<Seq<char>>, tail: Seq<Seq<char>>)
    requires
        ScannerView::initial().run(head) matches Ok(reached) && reached.state
            == ScanState::InCommand,
    ensures
        ({
            let reached = ScannerView::initial().run(head)->Ok_0;
            ScannerView::initial().run(head + tail) == Ok::<ScannerView, ErrorView>(
                reached.with(
                    ConfigurationView { command: reached.conf.command + tail, ..reached.conf },
                ),
            )
        }),
{
    lemma_run_concat(ScannerView::initial(), head, tail);
    lemma_command_is_verbatim(ScannerView::initial().run(head)->Ok_0, tail);
}

/// A configuration that the argument list gives is well formed.
pub proof fn lemma_parsed_is_wf(tokens: Seq<Seq<char>>)
    requires
        parse_arguments(tokens) is Ok,
    ensures
        parse_arguments(tokens)->Ok_0.wf(),
{
    let scanner = ScannerView::initial().run(tokens)->Ok_0;
    if let Some(path) = scanner.conf.file {
        if path.len() == 0 {
            assert(path =~= Seq::<char>::empty());
        }
    }
}

} // verus!
