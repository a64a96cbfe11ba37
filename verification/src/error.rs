//! The errors of the launcher.

use vstd::prelude::*;

verus! {

/// The three kinds of failure. Each one ends the invocation.
#[derive(Clone, Copy, Debug, PartialEq, Eq, Structural)]
pub enum ErrorKind {
    /// Bad or missing command-line arguments.
    Usage,
    /// The variable source could not be read.
    Io,
    /// The command could not be started.
    Spawn,
}

/// A failure of the launcher.
#[derive(Clone, Debug, PartialEq, Eq)]
pub enum Error {
    /// A token that looks like an option and is none.
    UnknownOption(String),
    /// `--file` without a path after it, or with an empty one.
    MissingFilePath,
    /// No command to run.
    EmptyCommand,
    /// The variable source could not be read; the system's description.
    Io(String),
    /// The command could not be started; the system's description.
    Spawn(String),
}

/// The mathematical content of an [`Error`].
pub enum ErrorView {
    UnknownOption(Seq<char>),
    MissingFilePath,
    EmptyCommand,
    Io(Seq<char>),
    Spawn(Seq<char>),
}

impl View for Error {
    type V = ErrorView;

    open spec fn view(&self) -> ErrorView {
        match self {
            Error::UnknownOption(token) => ErrorView::UnknownOption(token@),
            Error::MissingFilePath => ErrorView::MissingFilePath,
            Error::EmptyCommand => ErrorView::EmptyCommand,
            Error::Io(detail) => ErrorView::Io(detail@),
            Error::Spawn(detail) => ErrorView::Spawn(detail@),
        }
    }
}

impl ErrorView {
    /// The kind of the error.
    pub open spec fn kind(self) -> ErrorKind {
        match self {
            ErrorView::UnknownOption(_) => ErrorKind::Usage,
            ErrorView::MissingFilePath => ErrorKind::Usage,
            ErrorView::EmptyCommand => ErrorKind::Usage,
            ErrorView::Io(_) => ErrorKind::Io,
            ErrorView::Spawn(_) => ErrorKind::Spawn,
        }
    }

    /// The text shown to the user.
    pub open spec fn message(self) -> Seq<char> {
        match self {
            ErrorView::UnknownOption(token) => "Unknown option "@ + token + "."@,
            ErrorView::MissingFilePath => "--file option requires a file path."@,
            ErrorView::EmptyCommand => "command is empty"@,
            ErrorView::Io(detail) => detail,
            ErrorView::Spawn(detail) => detail,
        }
    }
}

impl Error {
    /// The kind of the error.
    pub fn kind(&self) -> (kind: ErrorKind)
        ensures
            kind == self@.kind(),
    {
        match self {
            Error::UnknownOption(_) => ErrorKind::Usage,
            Error::MissingFilePath => ErrorKind::Usage,
            Error::EmptyCommand => ErrorKind::Usage,
            Error::Io(_) => ErrorKind::Io,
            Error::Spawn(_) => ErrorKind::Spawn,
        }
    }

    /// The text shown to the user.
    pub fn message(&self) -> (text: String)
        ensures
            text@ == self@.message(),
    {
        match self {
            Error::UnknownOption(token) => {
                let mut text = "Unknown option ".to_owned();
                text.append(token.as_str());
                text.append(".");
                text
            },
            Error::MissingFilePath => "--file option requires a file path.".to_owned(),
            Error::EmptyCommand => "command is empty".to_owned(),
            Error::Io(detail) => detail.clone(),
            Error::Spawn(detail) => detail.clone(),
        }
    }

    /// The exit code of the launcher after this error: always 1.
    pub fn exit_code(&self) -> (code: i32)
        ensures
            code == 1,
    {
        1
    }

    /// Whether the usage text is shown with the error: for usage errors only.
    pub fn shows_usage(&self) -> (shown: bool)
        ensures
            shown == (self@.kind() == ErrorKind::Usage),
    {
        match self.kind() {
            ErrorKind::Usage => true,
            _ => false,
        }
    }
}

} // verus!
