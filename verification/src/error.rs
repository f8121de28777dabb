//! The error of the corpus operations.

use crate::model::WordId;
use crate::tsv::{TsvError, TsvErrorView};
use vstd::prelude::*;
use vstd::string::StringExecFns;

verus! {

/// Why loading or searching the corpus failed.
#[derive(Debug)]
pub enum CohaError {
    /// A structural fault in a tab-separated file.
    Tsv(TsvError),
    /// A corpus file whose name does not follow the naming pattern; the
    /// value is the file name.
    FileName(String),
    /// A file or directory could not be read or written; the value is
    /// the message of the operating system.
    Io(String),
    /// A result row needs a word that the lexicon does not hold.
    MissingWord(WordId),
}

/// A `CohaError` with its texts as character sequences.
pub enum CohaErrorView {
    Tsv(TsvErrorView),
    FileName(Seq<char>),
    Io(Seq<char>),
    MissingWord(WordId),
}

impl View for CohaError {
    type V = CohaErrorView;

    open spec fn view(&self) -> CohaErrorView {
        match self {
            CohaError::Tsv(e) => CohaErrorView::Tsv(e@),
            CohaError::FileName(name) => CohaErrorView::FileName(name@),
            CohaError::Io(message) => CohaErrorView::Io(message@),
            CohaError::MissingWord(id) => CohaErrorView::MissingWord(*id),
        }
    }
}

/// The one-line message of an error.
pub open spec fn error_text(e: CohaErrorView) -> Seq<char> {
    match e {
        CohaErrorView::Tsv(t) => t.path + ": "@ + t.e,
        CohaErrorView::FileName(name) => "unexpected file name "@ + name,
        CohaErrorView::Io(message) => message,
        CohaErrorView::MissingWord(_) => "expected valid word index"@,
    }
}

impl CohaError {
    /// The one-line message of the error.
    pub fn message(&self) -> (out: String)
        ensures
            out@ == error_text(self@),
    {
        match self {
            CohaError::Tsv(e) => e.message(),
            CohaError::FileName(name) => {
                let mut out = String::from_str("unexpected file name ");
                out.append(name.as_str());
                out
            },
            CohaError::Io(message) => message.clone(),
            CohaError::MissingWord(_) => String::from_str("expected valid word index"),
        }
    }
}

} // verus!
