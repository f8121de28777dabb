//! Scanning a corpus file: the tokens of a file arrive line by line, the
//! tokens of one text are gathered, and when the text ends it is
//! searched.

use crate::coha::Coha;
use crate::corpus::CohaFile;
use crate::error::{CohaError, CohaErrorView};
use crate::filter::CohaSearch;
use crate::hits::{hits_view, searches_within, text_hits, Hit, HitView, RunReport};
use crate::lexicon::LexiconView;
use crate::model::{token_row, TextId, Token};
use crate::sources::SourcesView;
use crate::text::str_chars;
use crate::tsv::{
    cells, fault_reason, lines_of, split_lines, tsv_err, tsv_fields, TsvErrorView,
};
use vstd::prelude::*;

verus! {

/// Whether `tokens` can be the tokens of one text: all have the same
/// text id, and their token ids increase strictly.
pub open spec fn is_run(tokens: Seq<Token>) -> bool {
    forall|i: int, j: int|
        0 <= i < j < tokens.len() ==> {
            &&& (#[trigger] tokens[i]).text_id == (#[trigger] tokens[j]).text_id
            &&& tokens[i].token_id.0 < tokens[j].token_id.0
        }
}

/// A `RunReport` with its hits as values.
pub struct RunReportView {
    pub text_id: TextId,
    pub known: bool,
    pub hits: Seq<HitView>,
}

impl View for RunReport {
    type V = RunReportView;

    open spec fn view(&self) -> RunReportView {
        RunReportView { text_id: self.text_id, known: self.known, hits: hits_view(self.hits@) }
    }
}

/// The value of a report, if there is one.
pub open spec fn flushed_view(report: Option<RunReport>) -> Option<RunReportView> {
    match report {
        Some(r) => Some(r@),
        None => None,
    }
}

/// The reason given for a token id that does not lie above the one before
/// it in the same text.
pub open spec fn tokens_not_increasing() -> Seq<char> {
    "token IDs not increasing"@
}

/// What searching the gathered text `run` gives: its report, or the
/// error for a word that a row is missing.
pub open spec fn flushed(
    lex: LexiconView,
    sources: SourcesView,
    searches: Seq<&CohaSearch>,
    run: Seq<Token>,
) -> Result<RunReportView, CohaErrorView> {
    match text_hits(lex, sources, searches, run) {
        Err(id) => Err(CohaErrorView::MissingWord(id)),
        Ok(hits) => Ok(
            RunReportView {
                text_id: run[0].text_id,
                known: sources.contains_key(run[0].text_id.0),
                hits,
            },
        ),
    }
}

/// What one line of the corpus file `path` does to the gathered text
/// `run`. A token of another text ends the gathered text, which is
/// searched, and begins the next. A token of the same text must have a
/// token id above the last one, and joins the gathered text.
pub open spec fn step(
    path: Seq<char>,
    lex: LexiconView,
    sources: SourcesView,
    searches: Seq<&CohaSearch>,
    run: Seq<Token>,
    line: Seq<char>,
) -> Result<(Seq<Token>, Option<RunReportView>), CohaErrorView> {
    match token_row(tsv_fields(line)) {
        Err(fault) => Err(CohaErrorView::Tsv(TsvErrorView { path, e: fault_reason(fault) })),
        Ok(token) => if run.len() > 0 && run.last().text_id != token.text_id {
            match flushed(lex, sources, searches, run) {
                Err(e) => Err(e),
                Ok(report) => Ok((seq![token], Some(report))),
            }
        } else if run.len() > 0 && run.last().token_id.0 >= token.token_id.0 {
            Err(CohaErrorView::Tsv(TsvErrorView { path, e: tokens_not_increasing() }))
        } else {
            Ok((run.push(token), None))
        },
    }
}

/// What the end of the file does to the gathered text `run`: a text is
/// searched; where nothing is gathered, nothing is done.
pub open spec fn finished(
    lex: LexiconView,
    sources: SourcesView,
    searches: Seq<&CohaSearch>,
    run: Seq<Token>,
) -> Result<Option<RunReportView>, CohaErrorView> {
    if run.len() == 0 {
        Ok(None)
    } else {
        match flushed(lex, sources, searches, run) {
            Err(e) => Err(e),
            Ok(report) => Ok(Some(report)),
        }
    }
}

/// The state of a scan: the tokens gathered of the text that is being
/// read.
pub struct Scan {
    tokens: Vec<Token>,
}

impl View for Scan {
    type V = Seq<Token>;

    closed spec fn view(&self) -> Seq<Token> {
        self.tokens@
    }
}

impl Scan {
    #[verifier::type_invariant]
    spec fn gathers_one_text(self) -> bool {
        is_run(self.tokens@)
    }

    /// The state before the first line.
    pub fn new() -> (scan: Scan)
        ensures
            scan@ == Seq::<Token>::empty(),
    {
        Scan { tokens: Vec::new() }
    }

    /// The number of tokens gathered.
    pub fn len(&self) -> (n: usize)
        ensures
            n == self@.len(),
            is_run(self@),
    {
        proof {
            use_type_invariant(self);
        }
        self.tokens.len()
    }

    /// Searches the gathered text.
    fn flush(&self, coha: &Coha, searches: &[&CohaSearch]) -> (r: Result<RunReport, CohaError>)
        requires
            self@.len() > 0,
        ensures
            match flushed(coha.lexicon@, coha.sources@, searches@, self@) {
                Ok(report) => r is Ok && r->Ok_0@ == report,
                Err(e) => r is Err && r->Err_0@ == e,
            },
            r is Ok ==> searches_within(r->Ok_0@.hits, searches@.len()),
    {
        proof {
            use_type_invariant(self);
        }
        CohaFile::search_text(coha, searches, self.tokens.as_slice())
    }

    /// Takes one line of the corpus file `path`, given as characters.
    pub fn line_chars(
        self,
        path: &str,
        coha: &Coha,
        searches: &[&CohaSearch],
        line: &[char],
    ) -> (r: Result<(Scan, Option<RunReport>), CohaError>)
        ensures
            match step(path@, coha.lexicon@, coha.sources@, searches@, self@, line@) {
                Ok((run, report)) => r is Ok && r->Ok_0.0@ == run && flushed_view(r->Ok_0.1)
                    == report,
                Err(e) => r is Err && r->Err_0@ == e,
            },
            r is Ok && r->Ok_0.1 is Some ==> searches_within(
                r->Ok_0.1->Some_0@.hits,
                searches@.len(),
            ),
    {
        proof {
            use_type_invariant(&self);
        }
        let token = match Token::parse_chars(path, line) {
            Err(e) => {
                return Err(CohaError::Tsv(e));
            },
            Ok(token) => token,
        };
        let n = self.tokens.len();
        if n > 0 && self.tokens[n - 1].text_id != token.text_id {
            let report = match self.flush(coha, searches) {
                Err(e) => {
                    return Err(e);
                },
                Ok(report) => report,
            };
            let mut tokens: Vec<Token> = Vec::new();
            tokens.push(token);
            assert(tokens@ =~= seq![token]);
            return Ok((Scan { tokens }, Some(report)));
        }
        if n > 0 && self.tokens[n - 1].token_id.0 >= token.token_id.0 {
            return Err(CohaError::Tsv(tsv_err(path, "token IDs not increasing")));
        }
        let mut tokens = self.tokens;
        tokens.push(token);
        Ok((Scan { tokens }, None))
    }

    /// Takes one line of the corpus file `path`. A line that ends a text
    /// gives the report of that text.
    pub fn line(self, path: &str, coha: &Coha, searches: &[&CohaSearch], line: &str) -> (r: Result<
        (Scan, Option<RunReport>),
        CohaError,
    >)
        ensures
            match step(path@, coha.lexicon@, coha.sources@, searches@, self@, line@) {
                Ok((run, report)) => r is Ok && r->Ok_0.0@ == run && flushed_view(r->Ok_0.1)
                    == report,
                Err(e) => r is Err && r->Err_0@ == e,
            },
            r is Ok && r->Ok_0.1 is Some ==> searches_within(
                r->Ok_0.1->Some_0@.hits,
                searches@.len(),
            ),
    {
        let chars = str_chars(line);
        self.line_chars(path, coha, searches, chars.as_slice())
    }

    /// Ends the scan: the text gathered last, if any, is searched.
    pub fn finish(self, coha: &Coha, searches: &[&CohaSearch]) -> (r: Result<
        Option<RunReport>,
        CohaError,
    >)
        ensures
            match finished(coha.lexicon@, coha.sources@, searches@, self@) {
                Ok(report) => r is Ok && flushed_view(r->Ok_0) == report,
                Err(e) => r is Err && r->Err_0@ == e,
            },
            r is Ok && r->Ok_0 is Some ==> searches_within(r->Ok_0->Some_0@.hits, searches@.len()),
    {
        if self.tokens.len() == 0 {
            return Ok(None);
        }
        match self.flush(coha, searches) {
            Err(e) => Err(e),
            Ok(report) => Ok(Some(report)),
        }
    }
}

/// How far a scan has come: the text that is being gathered, the hits of
/// the texts searched so far, the number of those texts, and how many of
/// them had a hit.
pub struct Progress {
    pub run: Seq<Token>,
    pub hits: Seq<HitView>,
    pub texts: nat,
    pub hit_texts: nat,
}

/// `before` after a line or the end of the file, which left `run`
/// gathered and, where a text ended, gave its report.
pub open spec fn absorbed(
    before: Progress,
    run: Seq<Token>,
    report: Option<RunReportView>,
) -> Progress {
    match report {
        None => Progress { run, ..before },
        Some(r) => Progress {
            run,
            hits: before.hits + r.hits,
            texts: before.texts + 1,
            hit_texts: before.hit_texts + if r.hits.len() > 0 {
                1nat
            } else {
                0nat
            },
        },
    }
}

/// How far the scan of the corpus file `path` has come after `lines`, or
/// the error of the first line that fails.
pub open spec fn scanned(
    path: Seq<char>,
    lex: LexiconView,
    sources: SourcesView,
    searches: Seq<&CohaSearch>,
    lines: Seq<Seq<char>>,
) -> Result<Progress, CohaErrorView>
    decreases lines.len(),
{
    if lines.len() == 0 {
        Ok(Progress { run: Seq::empty(), hits: Seq::empty(), texts: 0, hit_texts: 0 })
    } else {
        match scanned(path, lex, sources, searches, lines.drop_last()) {
            Err(e) => Err(e),
            Ok(before) => match step(path, lex, sources, searches, before.run, lines.last()) {
                Err(e) => Err(e),
                Ok((run, report)) => Ok(absorbed(before, run, report)),
            },
        }
    }
}

/// What the search of one corpus file found.
#[derive(Debug)]
pub struct SearchReport {
    /// The hits, in the order in which the file gives them: text by
    /// text, within a text search by search, within a search position by
    /// position.
    pub hits: Vec<Hit>,
    /// The number of tokens in the file.
    pub tokens: usize,
    /// The number of texts in the file.
    pub texts: usize,
    /// The number of texts with at least one hit.
    pub hit_texts: usize,
}

/// A `SearchReport` with its hits as values.
pub struct SearchReportView {
    pub hits: Seq<HitView>,
    pub tokens: nat,
    pub texts: nat,
    pub hit_texts: nat,
}

impl View for SearchReport {
    type V = SearchReportView;

    open spec fn view(&self) -> SearchReportView {
        SearchReportView {
            hits: hits_view(self.hits@),
            tokens: self.tokens as nat,
            texts: self.texts as nat,
            hit_texts: self.hit_texts as nat,
        }
    }
}

/// What the search of the corpus file `path` with the lines `lines`
/// finds, or the first error: every line is taken in turn, and the text
/// gathered last is searched at the end.
pub open spec fn file_search(
    path: Seq<char>,
    lex: LexiconView,
    sources: SourcesView,
    searches: Seq<&CohaSearch>,
    lines: Seq<Seq<char>>,
) -> Result<SearchReportView, CohaErrorView> {
    match scanned(path, lex, sources, searches, lines) {
        Err(e) => Err(e),
        Ok(before) => match finished(lex, sources, searches, before.run) {
            Err(e) => Err(e),
            Ok(report) => {
                let end = absorbed(before, Seq::empty(), report);
                Ok(
                    SearchReportView {
                        hits: end.hits,
                        tokens: lines.len(),
                        texts: end.texts,
                        hit_texts: end.hit_texts,
                    },
                )
            },
        }
    }
}

/// Once a prefix of the lines has failed, all of them fail alike.
pub proof fn lemma_scan_fault_extends(
    path: Seq<char>,
    lex: LexiconView,
    sources: SourcesView,
    searches: Seq<&CohaSearch>,
    lines: Seq<Seq<char>>,
    k: int,
)
    requires
        0 <= k <= lines.len(),
        scanned(path, lex, sources, searches, lines.take(k)) is Err,
    ensures
        scanned(path, lex, sources, searches, lines) == scanned(
            path,
            lex,
            sources,
            searches,
            lines.take(k),
        ),
    decreases lines.len() - k,
{
    if k == lines.len() {
        assert(lines.take(k) =~= lines);
    } else {
        assert(lines.take(k + 1).drop_last() =~= lines.take(k));
        lemma_scan_fault_extends(path, lex, sources, searches, lines, k + 1);
    }
}

/// Moves the hits of `report` behind `hits`.
fn gather(hits: &mut Vec<Hit>, report: RunReport) -> (found: bool)
    ensures
        hits_view(final(hits)@) == hits_view(old(hits)@) + report@.hits,
        found == (report@.hits.len() > 0),
{
    let mut report = report;
    let found = report.hits.len() > 0;
    let ghost more = hits_view(report.hits@);
    hits.append(&mut report.hits);
    assert(hits_view(hits@) =~= hits_view(old(hits)@) + more);
    found
}

impl CohaFile {
    /// Searches this corpus file, whose content is `text`, for all of
    /// `searches`.
    pub fn search(&self, coha: &Coha, searches: &[&CohaSearch], text: &str) -> (r: Result<
        SearchReport,
        CohaError,
    >)
        ensures
            match file_search(
                self.corpus_path@,
                coha.lexicon@,
                coha.sources@,
                searches@,
                lines_of(text@),
            ) {
                Ok(report) => r is Ok && r->Ok_0@ == report,
                Err(e) => r is Err && r->Err_0@ == e,
            },
            r is Ok ==> searches_within(r->Ok_0@.hits, searches@.len()),
    {
        let path = self.corpus_path.as_str();
        let chars = str_chars(text);
        let lines = split_lines(chars.as_slice());
        let ghost all = lines_of(text@);
        let ghost lex = coha.lexicon@;
        let ghost sources = coha.sources@;
        let mut scan = Scan::new();
        let mut hits: Vec<Hit> = Vec::new();
        let mut texts: usize = 0;
        let mut hit_texts: usize = 0;
        let mut k: usize = 0;
        assert(all.take(0) =~= Seq::<Seq<char>>::empty());
        assert(hits_view(hits@) =~= Seq::<HitView>::empty());
        while k < lines.len()
            invariant
                k <= lines.len(),
                cells(lines@) == all,
                all == lines_of(text@),
                path@ == self.corpus_path@,
                lex == coha.lexicon@,
                sources == coha.sources@,
                hit_texts <= texts,
                texts + scan@.len() <= k,
                searches_within(hits_view(hits@), searches@.len()),
                scanned(path@, lex, sources, searches@, all.take(k as int)) == Ok::<
                    Progress,
                    CohaErrorView,
                >(
                    Progress {
                        run: scan@,
                        hits: hits_view(hits@),
                        texts: texts as nat,
                        hit_texts: hit_texts as nat,
                    },
                ),
            decreases lines.len() - k,
        {
            proof {
                assert(all.take(k + 1).drop_last() =~= all.take(k as int));
                assert(all.take(k + 1).last() == lines@[k as int]@);
            }
            let (next, report) = match scan.line_chars(path, coha, searches, lines[k].as_slice()) {
                Err(e) => {
                    proof {
                        lemma_scan_fault_extends(path@, lex, sources, searches@, all, k + 1);
                    }
                    return Err(e);
                },
                Ok(pair) => pair,
            };
            scan = next;
            match report {
                None => {},
                Some(report) => {
                    texts += 1;
                    if gather(&mut hits, report) {
                        hit_texts += 1;
                    }
                },
            }
            k += 1;
        }
        assert(all.take(k as int) =~= all);
        match scan.finish(coha, searches) {
            Err(e) => Err(e),
            Ok(None) => Ok(SearchReport { hits, tokens: k, texts, hit_texts }),
            Ok(Some(report)) => {
                texts += 1;
                if gather(&mut hits, report) {
                    hit_texts += 1;
                }
                Ok(SearchReport { hits, tokens: k, texts, hit_texts })
            },
        }
    }
}

} // verus!
