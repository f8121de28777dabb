//! The result tables of a search over the whole corpus: one table for
//! each pair of a corpus file and a search, named after both.

use crate::coha::Coha;
use crate::corpus::{CohaFile, CohaFileView};
use crate::error::{CohaError, CohaErrorView};
use crate::filter::CohaSearch;
use crate::hits::{header_row, hits_view, Hit, HitView, Rows};
use crate::lexicon::LexiconView;
use crate::scan::file_search;
use crate::sources::SourcesView;
use crate::tsv::lines_of;
use vstd::prelude::*;
use vstd::string::StringExecFns;

verus! {

/// One result table: the directory it belongs in, which has the label of
/// its search as its name, the name of its file, and its rows, the
/// header row first.
#[derive(Debug)]
pub struct OutputFile {
    pub label: String,
    pub name: String,
    pub rows: Vec<Vec<String>>,
}

/// An `OutputFile` with its texts as character sequences.
pub struct OutputFileView {
    pub label: Seq<char>,
    pub name: Seq<char>,
    pub rows: Rows,
}

impl View for OutputFile {
    type V = OutputFileView;

    open spec fn view(&self) -> OutputFileView {
        OutputFileView { label: self.label@, name: self.name@, rows: self.rows.deep_view() }
    }
}

/// The values of the tables of `outputs`.
pub open spec fn outputs_view(outputs: Seq<OutputFile>) -> Seq<OutputFileView> {
    Seq::new(outputs.len(), |i: int| outputs[i]@)
}

/// The name of the table of the search `label` over the corpus file with
/// the identifier `identifier`.
pub open spec fn output_name(label: Seq<char>, identifier: Seq<char>) -> Seq<char> {
    label + "-"@ + identifier + ".csv"@
}

/// The name of the table of the search `label` over the corpus file with
/// the identifier `identifier`.
pub fn output_file_name(label: &str, identifier: &str) -> (name: String)
    ensures
        name@ == output_name(label@, identifier@),
{
    let mut name = String::from_str(label);
    name.append("-");
    name.append(identifier);
    name.append(".csv");
    name
}

/// The rows of those hits of `hits` that belong to the search with index
/// `search`, in their order.
pub open spec fn rows_of(search: usize, hits: Seq<HitView>) -> Rows {
    hits.filter(|h: HitView| h.search == search).map_values(|h: HitView| h.row)
}

/// The table of the search with index `s` over the corpus file `file`,
/// in which `hits` were found.
pub open spec fn table_of(
    file: CohaFileView,
    searches: Seq<&CohaSearch>,
    hits: Seq<HitView>,
    s: int,
) -> OutputFileView {
    OutputFileView {
        label: searches[s].label@,
        name: output_name(searches[s].label@, file.identifier),
        rows: seq![header_row(searches[s].filter_list@.len())] + rows_of(s as usize, hits),
    }
}

/// The tables of all searches over the corpus file `file`, in which
/// `hits` were found: one for each search, in the order of the searches.
pub open spec fn file_outputs(
    file: CohaFileView,
    searches: Seq<&CohaSearch>,
    hits: Seq<HitView>,
) -> Seq<OutputFileView> {
    Seq::new(searches.len(), |s: int| table_of(file, searches, hits, s))
}

/// The tables of the first `k` corpus files, file by file, where
/// `texts[i]` is the content of `files[i]`; or the error of the first
/// file whose search fails.
pub open spec fn corpus_outputs(
    files: Seq<CohaFile>,
    lex: LexiconView,
    sources: SourcesView,
    searches: Seq<&CohaSearch>,
    texts: Seq<String>,
    k: int,
) -> Result<Seq<OutputFileView>, CohaErrorView>
    decreases k,
{
    if k <= 0 {
        Ok(Seq::empty())
    } else {
        match corpus_outputs(files, lex, sources, searches, texts, k - 1) {
            Err(e) => Err(e),
            Ok(outputs) => match file_search(
                files[k - 1].corpus_path@,
                lex,
                sources,
                searches,
                lines_of(texts[k - 1]@),
            ) {
                Err(e) => Err(e),
                Ok(report) => Ok(outputs + file_outputs(files[k - 1]@, searches, report.hits)),
            },
        }
    }
}

/// Once the first `k` files cannot be searched, more files cannot
/// either, with the same error.
pub proof fn lemma_outputs_fault_extends(
    files: Seq<CohaFile>,
    lex: LexiconView,
    sources: SourcesView,
    searches: Seq<&CohaSearch>,
    texts: Seq<String>,
    k: int,
    limit: int,
)
    requires
        0 <= k <= limit,
        corpus_outputs(files, lex, sources, searches, texts, k) is Err,
    ensures
        corpus_outputs(files, lex, sources, searches, texts, limit) == corpus_outputs(
            files,
            lex,
            sources,
            searches,
            texts,
            k,
        ),
    decreases limit - k,
{
    if k < limit {
        lemma_outputs_fault_extends(files, lex, sources, searches, texts, k, limit - 1);
    }
}

impl CohaFile {
    /// The tables of `searches` over this corpus file, given the hits
    /// found in it. A hit that names none of the searches is in no table.
    pub fn outputs(&self, searches: &[&CohaSearch], hits: Vec<Hit>) -> (outputs: Vec<OutputFile>)
        ensures
            outputs_view(outputs@) == file_outputs(self@, searches@, hits_view(hits@)),
    {
        let ghost found = hits_view(hits@);
        let mut outputs: Vec<OutputFile> = Vec::new();
        let mut s: usize = 0;
        proof {
            reveal(Seq::filter);
        }
        while s < searches.len()
            invariant
                s <= searches@.len(),
                outputs@.len() == s,
                forall|t: int|
                    0 <= t < s ==> (#[trigger] outputs@[t])@ == table_of(
                        self@,
                        searches@,
                        Seq::<HitView>::empty(),
                        t,
                    ),
            decreases searches@.len() - s,
        {
            let search = searches[s];
            let mut rows: Vec<Vec<String>> = Vec::new();
            let header = CohaFile::write_header(search.filter_list.len());
            rows.push(header);
            let table = OutputFile {
                label: search.label.clone(),
                name: output_file_name(search.label.as_str(), self.identifier.as_str()),
                rows,
            };
            proof {
                reveal(Seq::filter);
                assert(rows_of(s, Seq::<HitView>::empty()) =~= Seq::<Seq<Seq<char>>>::empty());
                assert(table@.rows =~= seq![header.deep_view()] + rows_of(
                    s,
                    Seq::<HitView>::empty(),
                ));
            }
            outputs.push(table);
            s += 1;
        }
        let ghost items = hits@;
        assert(found.take(0) =~= Seq::<HitView>::empty());
        for hit in iter: hits
            invariant
                iter.seq() == items,
                found == hits_view(items),
                outputs@.len() == searches@.len(),
                forall|t: int|
                    0 <= t < outputs@.len() ==> (#[trigger] outputs@[t])@ == table_of(
                        self@,
                        searches@,
                        found.take(iter.index() as int),
                        t,
                    ),
        {
            let ghost done = found.take(iter.index() as int);
            let ghost more = found.take(iter.index() + 1);
            let ghost was = outputs@;
            let which = hit.search;
            proof {
                reveal(Seq::filter);
                assert(more.drop_last() =~= done);
                assert(more.last() == hit@);
                assert forall|t: usize| t != which implies #[trigger] rows_of(t, more) == rows_of(
                    t,
                    done,
                ) by {}
                assert(rows_of(which, more) =~= rows_of(which, done).push(hit@.row));
            }
            if which < outputs.len() {
                let ghost before = outputs@[which as int]@.rows;
                outputs[which].rows.push(hit.row);
                assert(outputs@[which as int]@.rows =~= before.push(hit@.row));
                assert(outputs@[which as int]@ == table_of(self@, searches@, more, which as int));
                assert forall|t: int| 0 <= t < outputs@.len() implies (#[trigger] outputs@[t])@
                    == table_of(self@, searches@, more, t) by {
                    if t != which {
                        assert(outputs@[t] == was[t]);
                    }
                }
            }
        }
        assert(found.take(items.len() as int) =~= found);
        assert(outputs_view(outputs@) =~= file_outputs(self@, searches@, found));
        outputs
    }
}

impl Coha {
    /// Searches every corpus file for all of `searches`, where `texts[i]`
    /// is the content of the corpus file `i`, and gives the tables: for
    /// each corpus file in turn, one for each search. The first file
    /// whose search fails gives the error of the whole.
    pub fn search(&self, searches: &[&CohaSearch], texts: &[String]) -> (r: Result<
        Vec<OutputFile>,
        CohaError,
    >)
        requires
            texts@.len() == self.coha_files@.len(),
        ensures
            match corpus_outputs(
                self.coha_files@,
                self.lexicon@,
                self.sources@,
                searches@,
                texts@,
                self.coha_files@.len() as int,
            ) {
                Ok(outputs) => r is Ok && outputs_view(r->Ok_0@) == outputs,
                Err(e) => r is Err && r->Err_0@ == e,
            },
    {
        let mut outputs: Vec<OutputFile> = Vec::new();
        let ghost files = self.coha_files@;
        let ghost lex = self.lexicon@;
        let ghost sources = self.sources@;
        let mut k: usize = 0;
        assert(outputs_view(outputs@) =~= Seq::<OutputFileView>::empty());
        while k < self.coha_files.len()
            invariant
                k <= files.len(),
                files == self.coha_files@,
                lex == self.lexicon@,
                sources == self.sources@,
                texts@.len() == files.len(),
                corpus_outputs(files, lex, sources, searches@, texts@, k as int) == Ok::<
                    Seq<OutputFileView>,
                    CohaErrorView,
                >(outputs_view(outputs@)),
            decreases files.len() - k,
        {
            let file = &self.coha_files[k];
            let report = match file.search(self, searches, texts[k].as_str()) {
                Err(e) => {
                    proof {
                        lemma_outputs_fault_extends(
                            files,
                            lex,
                            sources,
                            searches@,
                            texts@,
                            k + 1,
                            files.len() as int,
                        );
                    }
                    return Err(e);
                },
                Ok(report) => report,
            };
            let ghost before = outputs_view(outputs@);
            let mut tables = file.outputs(searches, report.hits);
            let ghost added = outputs_view(tables@);
            outputs.append(&mut tables);
            assert(outputs_view(outputs@) =~= before + added);
            k += 1;
        }
        Ok(outputs)
    }
}

} // verus!
