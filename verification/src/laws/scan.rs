//! Laws of the scan of a corpus file.

use crate::error::CohaErrorView;
use crate::filter::CohaSearch;
use crate::hits::{text_hits, HitView};
use crate::lexicon::LexiconView;
use crate::model::{token_row, Token, WordId};
use crate::scan::{file_search, is_run, lemma_scan_fault_extends, scanned, step, RunReportView};
use crate::sources::SourcesView;
use crate::tsv::tsv_fields;
use vstd::prelude::*;

verus! {

/// A text that the source table does not know is searched without a
/// hit, and that is no fault: the report says that the text is unknown,
/// and the token that begins the next text is taken.
pub proof fn lemma_unknown_text_is_passed_over(
    path: Seq<char>,
    lex: LexiconView,
    sources: SourcesView,
    searches: Seq<&CohaSearch>,
    run: Seq<Token>,
    line: Seq<char>,
)
    requires
        run.len() > 0,
        !sources.contains_key(run[0].text_id.0),
        token_row(tsv_fields(line)) is Ok,
        token_row(tsv_fields(line))->Ok_0.text_id != run.last().text_id,
    ensures
        text_hits(lex, sources, searches, run) == Ok::<Seq<HitView>, WordId>(Seq::empty()),
        step(path, lex, sources, searches, run, line) == Ok::<
            (Seq<Token>, Option<RunReportView>),
            CohaErrorView,
        >(
            (
                seq![token_row(tsv_fields(line))->Ok_0],
                Some(RunReportView { text_id: run[0].text_id, known: false, hits: Seq::empty() }),
            ),
        ),
{
}

/// The token that line `k` of a corpus file holds.
pub open spec fn token_at(lines: Seq<Seq<char>>, k: int) -> Token {
    token_row(tsv_fields(lines[k]))->Ok_0
}

/// While a scan goes well, every line is a token, and the text that is
/// being gathered is made of the tokens of the last lines: they have one
/// text id and strictly increasing token ids.
pub proof fn lemma_scan_gathers_a_run(
    path: Seq<char>,
    lex: LexiconView,
    sources: SourcesView,
    searches: Seq<&CohaSearch>,
    lines: Seq<Seq<char>>,
)
    requires
        scanned(path, lex, sources, searches, lines) is Ok,
    ensures
        ({
            let run = scanned(path, lex, sources, searches, lines)->Ok_0.run;
            &&& is_run(run)
            &&& run.len() <= lines.len()
            &&& lines.len() > 0 ==> run.len() > 0
            &&& forall|k: int|
                0 <= k < lines.len() ==> token_row(tsv_fields(#[trigger] lines[k])) is Ok
            &&& forall|t: int|
                0 <= t < run.len() ==> #[trigger] run[t] == token_at(
                    lines,
                    lines.len() - run.len() + t,
                )
        }),
    decreases lines.len(),
{
    if lines.len() > 0 {
        let front = lines.drop_last();
        lemma_scan_gathers_a_run(path, lex, sources, searches, front);
        let before = scanned(path, lex, sources, searches, front)->Ok_0.run;
        let run = scanned(path, lex, sources, searches, lines)->Ok_0.run;
        let token = token_at(lines, lines.len() - 1);
        assert forall|k: int| 0 <= k < lines.len() implies token_row(
            tsv_fields(#[trigger] lines[k]),
        ) is Ok by {
            if k < front.len() {
                assert(front[k] == lines[k]);
            }
        }
        if before.len() > 0 && before.last().text_id != token.text_id {
            assert(run =~= seq![token]);
        } else {
            assert(run =~= before.push(token));
            assert forall|t: int| 0 <= t < run.len() implies #[trigger] run[t] == token_at(
                lines,
                lines.len() - run.len() + t,
            ) by {
                if t < before.len() {
                    assert(before[t] == token_at(front, front.len() - before.len() + t));
                    assert(front[front.len() - before.len() + t] == lines[lines.len() - run.len()
                        + t]);
                }
            }
            assert forall|a: int, b: int| 0 <= a < b < run.len() implies (#[trigger] run[a]).text_id
                == (#[trigger] run[b]).text_id && run[a].token_id.0 < run[b].token_id.0 by {
                if b < before.len() {
                    assert(before[a].text_id == before[b].text_id);
                } else if a < before.len() - 1 {
                    assert(before[a].text_id == before[before.len() - 1].text_id);
                }
            }
        }
    }
}

/// A scan that goes well over all lines goes well over the first `k`.
pub proof fn lemma_scan_prefix(
    path: Seq<char>,
    lex: LexiconView,
    sources: SourcesView,
    searches: Seq<&CohaSearch>,
    lines: Seq<Seq<char>>,
    k: int,
)
    requires
        0 <= k <= lines.len(),
        scanned(path, lex, sources, searches, lines) is Ok,
    ensures
        scanned(path, lex, sources, searches, lines.take(k)) is Ok,
{
    if scanned(path, lex, sources, searches, lines.take(k)) is Err {
        lemma_scan_fault_extends(path, lex, sources, searches, lines, k);
    }
}

/// While the lines `i` to `j` hold tokens of one text and the scan goes
/// well, all of them are in the text that is gathered after line `j`.
pub proof fn lemma_scan_keeps_a_text_together(
    path: Seq<char>,
    lex: LexiconView,
    sources: SourcesView,
    searches: Seq<&CohaSearch>,
    lines: Seq<Seq<char>>,
    i: int,
    j: int,
)
    requires
        0 <= i <= j < lines.len(),
        scanned(path, lex, sources, searches, lines.take(j + 1)) is Ok,
        forall|k: int|
            i <= k <= j ==> token_row(tsv_fields(#[trigger] lines[k])) is Ok && token_at(
                lines,
                k,
            ).text_id == token_at(lines, i).text_id,
    ensures
        scanned(path, lex, sources, searches, lines.take(j + 1))->Ok_0.run.len() >= j - i + 1,
    decreases j - i,
{
    let upto = lines.take(j + 1);
    lemma_scan_gathers_a_run(path, lex, sources, searches, upto);
    if i < j {
        let front = lines.take(j);
        assert(upto.drop_last() =~= front);
        assert(upto.last() == lines[j]);
        lemma_scan_gathers_a_run(path, lex, sources, searches, front);
        lemma_scan_keeps_a_text_together(path, lex, sources, searches, lines, i, j - 1);
        let before = scanned(path, lex, sources, searches, front)->Ok_0.run;
        assert(before.last() == token_at(front, front.len() - 1));
        assert(front[front.len() - 1] == lines[j - 1]);
        assert(token_row(tsv_fields(lines[j - 1])) is Ok);
        assert(token_at(lines, j - 1).text_id == token_at(lines, i).text_id);
        assert(token_at(lines, j).text_id == token_at(lines, i).text_id);
    }
}

/// A corpus file in which, within one text, a token id is not greater
/// than one before it is not taken.
pub proof fn lemma_scan_rejects_decrease(
    path: Seq<char>,
    lex: LexiconView,
    sources: SourcesView,
    searches: Seq<&CohaSearch>,
    lines: Seq<Seq<char>>,
    i: int,
    j: int,
)
    requires
        0 <= i < j < lines.len(),
        forall|k: int|
            i <= k <= j ==> token_row(tsv_fields(#[trigger] lines[k])) is Ok && token_at(
                lines,
                k,
            ).text_id == token_at(lines, i).text_id,
        token_at(lines, j).token_id.0 <= token_at(lines, i).token_id.0,
    ensures
        scanned(path, lex, sources, searches, lines) is Err,
        file_search(path, lex, sources, searches, lines) is Err,
{
    if scanned(path, lex, sources, searches, lines) is Ok {
        let upto = lines.take(j + 1);
        lemma_scan_prefix(path, lex, sources, searches, lines, j + 1);
        lemma_scan_gathers_a_run(path, lex, sources, searches, upto);
        lemma_scan_keeps_a_text_together(path, lex, sources, searches, lines, i, j);
        let run = scanned(path, lex, sources, searches, upto)->Ok_0.run;
        let a = run.len() - 1 - (j - i);
        let b = run.len() - 1;
        assert(run[a] == token_at(upto, upto.len() - run.len() + a));
        assert(run[b] == token_at(upto, upto.len() - run.len() + b));
        assert(upto[i] == lines[i]);
        assert(upto[j] == lines[j]);
        assert(run[a].token_id.0 < run[b].token_id.0);
    }
}

} // verus!
