//! Where the text of the variables comes from.

use vstd::prelude::*;
use crate::error::{Error, ErrorView};

verus! {

/// Where the text of the variables comes from.
#[derive(Clone, Debug, PartialEq, Eq)]
pub enum Source {
    /// Standard input, read to its end.
    Stdin,
    /// The file `.env` of the working directory. It may be missing.
    DefaultFile,
    /// The file of the given path. It must exist.
    File(String),
}

/// The mathematical content of a [`Source`].
pub enum SourceView {
    Stdin,
    DefaultFile,
    File(Seq<char>),
}

impl View for Source {
    type V = SourceView;

    open spec fn view(&self) -> SourceView {
        match self {
            Source::Stdin => SourceView::Stdin,
            Source::DefaultFile => SourceView::DefaultFile,
            Source::File(path) => SourceView::File(path@),
        }
    }
}

/// What reading a source gave.
#[derive(Clone, Debug, PartialEq, Eq)]
pub enum ReadOutcome {
    /// The whole text of the source.
    Text(String),
    /// The file does not exist; the system's description.
    NotFound(String),
    /// Reading failed in another way; the system's description.
    Failed(String),
}

/// The mathematical content of a [`ReadOutcome`].
pub enum ReadOutcomeView {
    Text(Seq<char>),
    NotFound(Seq<char>),
    Failed(Seq<char>),
}

impl View for ReadOutcome {
    type V = ReadOutcomeView;

    open spec fn view(&self) -> ReadOutcomeView {
        match self {
            ReadOutcome::Text(text) => ReadOutcomeView::Text(text@),
            ReadOutcome::NotFound(detail) => ReadOutcomeView::NotFound(detail@),
            ReadOutcome::Failed(detail) => ReadOutcomeView::Failed(detail@),
        }
    }
}

impl SourceView {
    /// The source that the two settings select: standard input if it is
    /// asked for, whatever the path; else the file of the path, if there is
    /// one and it is not empty; else the default file.
    pub open spec fn select(use_stdin: bool, file: Option<Seq<char>>) -> SourceView {
        if use_stdin {
            SourceView::Stdin
        } else {
            match file {
                Some(path) => if path.len() > 0 {
                    SourceView::File(path)
                } else {
                    SourceView::DefaultFile
                },
                None => SourceView::DefaultFile,
            }
        }
    }

    /// The path of the file to read: none for standard input, `.env` for the
    /// default file.
    pub open spec fn path(self) -> Option<Seq<char>> {
        match self {
            SourceView::Stdin => None,
            SourceView::DefaultFile => Some(".env"@),
            SourceView::File(path) => Some(path),
        }
    }

    /// The text of the source, given what reading it gave. A default file
    /// that does not exist stands for an empty text; every other failure is
    /// an error.
    pub open spec fn text(self, outcome: ReadOutcomeView) -> Result<Seq<char>, ErrorView> {
        match outcome {
            ReadOutcomeView::Text(text) => Ok(text),
            ReadOutcomeView::NotFound(detail) => if self is DefaultFile {
                Ok(Seq::empty())
            } else {
                Err(ErrorView::Io(detail))
            },
            ReadOutcomeView::Failed(detail) => Err(ErrorView::Io(detail)),
        }
    }
}

impl Source {
    /// The source that the two settings select.
    pub fn select(use_stdin: bool, file: Option<String>) -> (source: Source)
        ensures
            source@ == SourceView::select(use_stdin, file.deep_view()),
    {
        if use_stdin {
            Source::Stdin
        } else {
            match file {
                Some(path) => if path.as_str().is_empty() {
                    Source::DefaultFile
                } else {
                    Source::File(path)
                },
                None => Source::DefaultFile,
            }
        }
    }

    /// The path of the file to read, if a file is to be read.
    pub fn path(&self) -> (path: Option<String>)
        ensures
            path.deep_view() == self@.path(),
    {
        match self {
            Source::Stdin => None,
            Source::DefaultFile => Some(".env".to_owned()),
            Source::File(given) => Some(given.clone()),
        }
    }

    /// The text of the source, given what reading it gave.
    pub fn text(&self, outcome: ReadOutcome) -> (result: Result<String, Error>)
        ensures
            match self@.text(outcome@) {
                Ok(text) => result matches Ok(got) && got@ == text,
                Err(error) => result matches Err(got) && got@ == error,
            },
    {
        match outcome {
            ReadOutcome::Text(text) => Ok(text),
            ReadOutcome::NotFound(detail) => match self {
                Source::DefaultFile => Ok(String::new()),
                _ => Err(Error::Io(detail)),
            },
            ReadOutcome::Failed(detail) => Err(Error::Io(detail)),
        }
    }
}

/// Where standard input is asked for, the path plays no part.
pub proof fn lemma_stdin_ignores_path(first: Option<Seq<char>>, second: Option<Seq<char>>)
    ensures
        SourceView::select(true, first) == SourceView::select(true, second),
{
}

} // verus!
