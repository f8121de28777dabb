//! The corpus files: which of the files found on disk belong to the
//! corpus, and the short identifier that each takes from its name.

use crate::error::{CohaError, CohaErrorView};
use crate::order::{sort_by_path, sorted_by_path};
use crate::text::{chars_eq, str_chars};
use regex::Regex;
use vstd::prelude::*;
use vstd::string::StringExecFns;

verus! {

/// The directory of the corpus files below the root directory of the
/// corpus. The files lie in its subdirectories.
pub const CORPUS_DIR: &'static str = "db";

/// The pattern of a corpus file's name, `coha_db_<digits>s.txt`. Its
/// group is the identifier: the digits and the `s`.
pub const CORPUS_FILE_PATTERN: &'static str = "^coha_db_(\\d+s)\\.txt$";

/// What the first group of the regular expression `pattern` holds in the
/// first match within `text`. `None` where `pattern` is no regular
/// expression, where `text` has no match, or where the match leaves the
/// group out.
pub uninterp spec fn first_group(pattern: Seq<char>, text: Seq<char>) -> Option<Seq<char>>;

/// `Regex::new`, `Regex::captures`, `Captures::get` and `Match::as_str` of
/// the `regex` crate, in turn: compiles `pattern`, searches `text` for the
/// first match and copies what group 1 matched. A pattern that does not
/// compile, a text without a match and a match without the group all
/// give `None`.
#[verifier::external_body]
pub(crate) fn capture_first(pattern: &str, text: &str) -> (group: Option<String>)
    ensures
        match group {
            Some(g) => Some(g@),
            None => None,
        } == first_group(pattern@, text@),
{
    match Regex::new(pattern) {
        Err(_) => None,
        Ok(re) => match re.captures(text) {
            None => None,
            Some(caps) => match caps.get(1) {
                None => None,
                Some(found) => Some(found.as_str().to_owned()),
            },
        },
    }
}

/// One file of the corpus.
#[derive(Debug)]
pub struct CohaFile {
    pub corpus_path: String,
    pub identifier: String,
}

/// A `CohaFile` with its texts as character sequences.
pub struct CohaFileView {
    pub corpus_path: Seq<char>,
    pub identifier: Seq<char>,
}

impl View for CohaFile {
    type V = CohaFileView;

    open spec fn view(&self) -> CohaFileView {
        CohaFileView { corpus_path: self.corpus_path@, identifier: self.identifier@ }
    }
}

/// The identifier that a corpus file takes from its name, if the name
/// follows the pattern.
pub open spec fn identifier_of(file_name: Seq<char>) -> Option<Seq<char>> {
    first_group(CORPUS_FILE_PATTERN@, file_name)
}

/// The corpus file at `corpus_path` whose name gave `capture` as its
/// identifier, or the error for a name that gave none.
pub open spec fn file_outcome(
    corpus_path: Seq<char>,
    file_name: Seq<char>,
    capture: Option<Seq<char>>,
) -> Result<CohaFileView, CohaErrorView> {
    match capture {
        Some(identifier) => Ok(CohaFileView { corpus_path, identifier }),
        None => Err(CohaErrorView::FileName(file_name)),
    }
}

/// Whether `r` is the corpus file or the error that `expected` names.
pub open spec fn is_file_outcome(
    r: Result<CohaFile, CohaError>,
    expected: Result<CohaFileView, CohaErrorView>,
) -> bool {
    match expected {
        Ok(file) => r is Ok && r->Ok_0@ == file,
        Err(e) => r is Err && r->Err_0@ == e,
    }
}

impl CohaFile {
    /// The corpus file at `corpus_path`, given what the naming pattern
    /// captured in its file name.
    pub fn from_capture(corpus_path: String, file_name: &str, capture: Option<String>) -> (r:
        Result<CohaFile, CohaError>)
        ensures
            is_file_outcome(
                r,
                file_outcome(
                    corpus_path@,
                    file_name@,
                    match capture {
                        Some(c) => Some(c@),
                        None => None,
                    },
                ),
            ),
    {
        match capture {
            None => Err(CohaError::FileName(String::from_str(file_name))),
            Some(identifier) => Ok(CohaFile { corpus_path, identifier }),
        }
    }

    /// The corpus file at `corpus_path`, whose last path component is
    /// `file_name`. A name that does not follow the naming pattern is an
    /// error.
    pub fn new(corpus_path: String, file_name: &str) -> (r: Result<CohaFile, CohaError>)
        ensures
            is_file_outcome(r, file_outcome(corpus_path@, file_name@, identifier_of(file_name@))),
    {
        let capture = capture_first(CORPUS_FILE_PATTERN, file_name);
        CohaFile::from_capture(corpus_path, file_name, capture)
    }
}

/// A file found in a subdirectory of the corpus directory: its path and
/// the last component of the path.
#[derive(Debug)]
pub struct CorpusEntry {
    pub path: String,
    pub file_name: String,
}

/// The extension of corpus files.
pub open spec fn corpus_extension() -> Seq<char> {
    ".txt"@
}

/// Whether a file name has the extension of corpus files: it ends with
/// `.txt`, and something stands before that.
pub open spec fn has_corpus_extension(file_name: Seq<char>) -> bool {
    let n = file_name.len() as int;
    let e = corpus_extension().len() as int;
    n > e && file_name.subrange(n - e, n) == corpus_extension()
}

/// Whether a file name has the extension of corpus files.
pub fn is_corpus_name(file_name: &str) -> (b: bool)
    ensures
        b == has_corpus_extension(file_name@),
{
    let name = str_chars(file_name);
    let ext = str_chars(".txt");
    let n = name.len();
    let e = ext.len();
    if n > e {
        let tail = vstd::slice::slice_subrange(name.as_slice(), n - e, n);
        chars_eq(tail, ext.as_slice())
    } else {
        false
    }
}

/// The corpus files among `entries`, in their order: entries without the
/// corpus extension are passed over; the first entry with the extension
/// whose name does not follow the naming pattern is an error.
pub open spec fn corpus_of(entries: Seq<CorpusEntry>) -> Result<Seq<CohaFileView>, CohaErrorView>
    decreases entries.len(),
{
    if entries.len() == 0 {
        Ok(Seq::empty())
    } else {
        match corpus_of(entries.drop_last()) {
            Err(e) => Err(e),
            Ok(files) => {
                let entry = entries.last();
                if !has_corpus_extension(entry.file_name@) {
                    Ok(files)
                } else {
                    match file_outcome(
                        entry.path@,
                        entry.file_name@,
                        identifier_of(entry.file_name@),
                    ) {
                        Err(e) => Err(e),
                        Ok(file) => Ok(files.push(file)),
                    }
                }
            },
        }
    }
}

/// The values of the corpus files of `files`.
pub open spec fn files_view(files: Seq<CohaFile>) -> Seq<CohaFileView> {
    Seq::new(files.len(), |i: int| files[i]@)
}

/// Once a prefix of the entries has failed, all of them fail alike.
pub proof fn lemma_corpus_fault_extends(entries: Seq<CorpusEntry>, k: int)
    requires
        0 <= k <= entries.len(),
        corpus_of(entries.take(k)) is Err,
    ensures
        corpus_of(entries) == corpus_of(entries.take(k)),
    decreases entries.len() - k,
{
    if k == entries.len() {
        assert(entries.take(k) =~= entries);
    } else {
        assert(entries.take(k + 1).drop_last() =~= entries.take(k));
        lemma_corpus_fault_extends(entries, k + 1);
    }
}

/// Builds the corpus file set from the files found in the subdirectories
/// of the corpus directory: the files are put in the order of their
/// paths, and those with the corpus extension become corpus files.
pub fn read_corpus(entries: Vec<CorpusEntry>) -> (r: Result<Vec<CohaFile>, CohaError>)
    ensures
        match corpus_of(sorted_by_path(entries@)) {
            Ok(files) => r is Ok && files_view(r->Ok_0@) == files,
            Err(e) => r is Err && r->Err_0@ == e,
        },
{
    let sorted = sort_by_path(entries);
    let mut files: Vec<CohaFile> = Vec::new();
    let mut k: usize = 0;
    assert(sorted@.take(0) =~= Seq::<CorpusEntry>::empty());
    assert(files_view(files@) =~= Seq::<CohaFileView>::empty());
    while k < sorted.len()
        invariant
            k <= sorted.len(),
            sorted@ == sorted_by_path(entries@),
            corpus_of(sorted@.take(k as int)) == Ok::<Seq<CohaFileView>, CohaErrorView>(
                files_view(files@),
            ),
        decreases sorted.len() - k,
    {
        proof {
            assert(sorted@.take(k + 1).drop_last() =~= sorted@.take(k as int));
        }
        let entry = &sorted[k];
        if is_corpus_name(entry.file_name.as_str()) {
            match CohaFile::new(entry.path.clone(), entry.file_name.as_str()) {
                Err(e) => {
                    proof {
                        lemma_corpus_fault_extends(sorted@, k + 1);
                    }
                    return Err(e);
                },
                Ok(file) => {
                    let ghost before = files_view(files@);
                    files.push(file);
                    assert(files_view(files@) =~= before.push(file@));
                },
            }
        }
        k += 1;
    }
    assert(sorted@.take(k as int) =~= sorted@);
    Ok(files)
}

} // verus!
