//! Laws of the lexicon and of the source table.

use crate::lexicon::{gap_count, indexed_by_id, lexicon_rows, LexiconView};
use crate::model::{source_row, word_row, SourceView, WordView};
use crate::sources::source_rows;
use crate::tsv::tsv_fields;
use vstd::prelude::*;

verus! {

/// The word that line `k` of the data lines of a vocabulary file holds.
pub open spec fn word_at(lines: Seq<Seq<char>>, k: int) -> WordView {
    word_row(tsv_fields(lines[k]))->Ok_0
}

/// The lexicon that data lines build is dense. Every line is a word, and
/// the word ids increase strictly from line to line. The lexicon reaches
/// from index 0 to the last, and so the greatest, word id. At the index
/// of a word id of the file stands the word of that line, and every
/// other index is a gap; the gaps are as many as the indices that no
/// line fills.
pub proof fn lemma_lexicon_is_dense(lines: Seq<Seq<char>>)
    requires
        lexicon_rows(lines) is Ok,
    ensures
        ({
            let lex = lexicon_rows(lines)->Ok_0;
            &&& indexed_by_id(lex)
            &&& forall|k: int|
                0 <= k < lines.len() ==> word_row(tsv_fields(#[trigger] lines[k])) is Ok
            &&& forall|i: int, j: int|
                0 <= i < j < lines.len() ==> #[trigger] word_at(lines, i).word_id.0
                    < #[trigger] word_at(lines, j).word_id.0
            &&& lex.len() == if lines.len() == 0 {
                0
            } else {
                word_at(lines, lines.len() - 1).word_id.0 + 1
            }
            &&& forall|k: int|
                0 <= k < lines.len() ==> word_at(lines, k).word_id.0 < lex.len() && lex[word_at(
                    lines,
                    k,
                ).word_id.0 as int] == Some(#[trigger] word_at(lines, k))
            &&& forall|id: int|
                0 <= id < lex.len() && (#[trigger] lex[id]) is Some ==> exists|k: int|
                    0 <= k < lines.len() && #[trigger] word_at(lines, k).word_id.0 == id
            &&& gap_count(lex) + lines.len() == lex.len()
        }),
{
    lemma_lexicon_ids_increase(lines);
    lemma_lexicon_holds_its_words(lines);
    lemma_lexicon_gaps(lines);
}

/// What one more data line makes of the lexicon of the lines before it.
proof fn lemma_lexicon_step(lines: Seq<Seq<char>>)
    requires
        lines.len() > 0,
        lexicon_rows(lines) is Ok,
    ensures
        lexicon_rows(lines.drop_last()) is Ok,
        word_row(tsv_fields(lines.last())) is Ok,
        ({
            let shorter = lexicon_rows(lines.drop_last())->Ok_0;
            let word = word_at(lines, lines.len() - 1);
            &&& word.word_id.0 >= shorter.len()
            &&& lexicon_rows(lines)->Ok_0 == (shorter + Seq::new(
                (word.word_id.0 - shorter.len()) as nat,
                |i: int| None::<WordView>,
            )).push(Some(word))
        }),
        forall|k: int|
            0 <= k < lines.len() - 1 ==> #[trigger] word_at(lines, k) == word_at(
                lines.drop_last(),
                k,
            ),
{
    assert forall|k: int| 0 <= k < lines.len() - 1 implies #[trigger] word_at(lines, k) == word_at(
        lines.drop_last(),
        k,
    ) by {
        assert(lines.drop_last()[k] == lines[k]);
    }
}

/// Every data line is a word, the word ids increase strictly, and the
/// lexicon ends with the last of them.
pub proof fn lemma_lexicon_ids_increase(lines: Seq<Seq<char>>)
    requires
        lexicon_rows(lines) is Ok,
    ensures
        forall|k: int| 0 <= k < lines.len() ==> word_row(tsv_fields(#[trigger] lines[k])) is Ok,
        forall|i: int, j: int|
            0 <= i < j < lines.len() ==> #[trigger] word_at(lines, i).word_id.0 < #[trigger] word_at(
                lines,
                j,
            ).word_id.0,
        lexicon_rows(lines)->Ok_0.len() == if lines.len() == 0 {
            0
        } else {
            word_at(lines, lines.len() - 1).word_id.0 + 1
        },
    decreases lines.len(),
{
    if lines.len() > 0 {
        let front = lines.drop_last();
        lemma_lexicon_step(lines);
        lemma_lexicon_ids_increase(front);
        assert forall|k: int| 0 <= k < lines.len() implies word_row(
            tsv_fields(#[trigger] lines[k]),
        ) is Ok by {
            if k < front.len() {
                assert(front[k] == lines[k]);
            }
        }
        assert forall|i: int, j: int| 0 <= i < j < lines.len() implies #[trigger] word_at(
            lines,
            i,
        ).word_id.0 < #[trigger] word_at(lines, j).word_id.0 by {
            assert(word_at(lines, i) == word_at(front, i));
            if j < front.len() {
                assert(word_at(lines, j) == word_at(front, j));
            } else if i < front.len() - 1 {
                assert(word_at(front, i).word_id.0 < word_at(front, front.len() - 1).word_id.0);
            }
        }
    }
}

/// Every word stands at the index of its id, and nothing else stands in
/// the lexicon.
pub proof fn lemma_lexicon_holds_its_words(lines: Seq<Seq<char>>)
    requires
        lexicon_rows(lines) is Ok,
    ensures
        indexed_by_id(lexicon_rows(lines)->Ok_0),
        forall|k: int|
            0 <= k < lines.len() ==> word_at(lines, k).word_id.0 < lexicon_rows(lines)->Ok_0.len()
                && lexicon_rows(lines)->Ok_0[word_at(lines, k).word_id.0 as int] == Some(
                #[trigger] word_at(lines, k),
            ),
        forall|id: int|
            0 <= id < lexicon_rows(lines)->Ok_0.len() && (#[trigger] lexicon_rows(
                lines,
            )->Ok_0[id]) is Some ==> exists|k: int|
                0 <= k < lines.len() && #[trigger] word_at(lines, k).word_id.0 == id,
    decreases lines.len(),
{
    if lines.len() > 0 {
        let front = lines.drop_last();
        lemma_lexicon_step(lines);
        lemma_lexicon_holds_its_words(front);
        let shorter = lexicon_rows(front)->Ok_0;
        let lex = lexicon_rows(lines)->Ok_0;
        assert forall|id: int| 0 <= id < shorter.len() implies lex[id] == shorter[id] by {}
        assert forall|k: int| 0 <= k < lines.len() implies word_at(lines, k).word_id.0 < lex.len()
            && lex[word_at(lines, k).word_id.0 as int] == Some(#[trigger] word_at(lines, k)) by {
            if k < front.len() {
                assert(word_at(lines, k) == word_at(front, k));
            }
        }
        assert forall|id: int| 0 <= id < lex.len() && (#[trigger] lex[id]) is Some implies exists|
            k: int,
        |
            0 <= k < lines.len() && #[trigger] word_at(lines, k).word_id.0 == id by {
            if id < shorter.len() {
                assert(shorter[id] is Some);
                let k = choose|k: int|
                    0 <= k < front.len() && #[trigger] word_at(front, k).word_id.0 == id;
                assert(word_at(lines, k) == word_at(front, k));
            } else {
                assert(word_at(lines, lines.len() - 1).word_id.0 == id);
            }
        }
    }
}

/// The gaps are the indices that no line fills.
pub proof fn lemma_lexicon_gaps(lines: Seq<Seq<char>>)
    requires
        lexicon_rows(lines) is Ok,
    ensures
        gap_count(lexicon_rows(lines)->Ok_0) + lines.len() == lexicon_rows(lines)->Ok_0.len(),
    decreases lines.len(),
{
    reveal(Seq::filter);
    if lines.len() > 0 {
        let front = lines.drop_last();
        lemma_lexicon_step(lines);
        lemma_lexicon_gaps(front);
        let shorter = lexicon_rows(front)->Ok_0;
        let word = word_at(lines, lines.len() - 1);
        let gaps = (word.word_id.0 - shorter.len()) as nat;
        let padded = shorter + Seq::new(gaps, |i: int| None::<WordView>);
        lemma_gaps_of_padding(shorter, gaps);
        assert(lexicon_rows(lines)->Ok_0.drop_last() =~= padded);
    }
}

/// Gaps behind a lexicon add to its gaps.
pub proof fn lemma_gaps_of_padding(lex: LexiconView, gaps: nat)
    ensures
        gap_count(lex + Seq::new(gaps, |i: int| None::<WordView>)) == gap_count(lex) + gaps,
    decreases gaps,
{
    reveal(Seq::filter);
    let padded = lex + Seq::new(gaps, |i: int| None::<WordView>);
    if gaps == 0 {
        assert(padded =~= lex);
    } else {
        let fewer = (gaps - 1) as nat;
        lemma_gaps_of_padding(lex, fewer);
        assert(padded.drop_last() =~= lex + Seq::new(fewer, |i: int| None::<WordView>));
    }
}

/// A vocabulary file in which a word id is not greater than one before
/// it is not taken.
pub proof fn lemma_lexicon_rejects_decrease(lines: Seq<Seq<char>>, i: int, j: int)
    requires
        0 <= i < j < lines.len(),
        word_row(tsv_fields(lines[i])) is Ok,
        word_row(tsv_fields(lines[j])) is Ok,
        word_at(lines, j).word_id.0 <= word_at(lines, i).word_id.0,
    ensures
        lexicon_rows(lines) is Err,
{
    if lexicon_rows(lines) is Ok {
        lemma_lexicon_is_dense(lines);
        assert(word_at(lines, i).word_id.0 < word_at(lines, j).word_id.0);
    }
}

/// The source that line `k` of the data lines of a source table holds.
pub open spec fn source_at(lines: Seq<Seq<char>>, k: int) -> SourceView {
    source_row(tsv_fields(lines[k]))->Ok_0
}

/// Where data lines build a table, every line is a source, and the table
/// has a record for exactly the text ids of the lines.
pub proof fn lemma_sources_hold_their_ids(lines: Seq<Seq<char>>)
    requires
        source_rows(lines) is Ok,
    ensures
        forall|k: int| 0 <= k < lines.len() ==> source_row(tsv_fields(#[trigger] lines[k])) is Ok,
        forall|k: int|
            0 <= k < lines.len() ==> source_rows(lines)->Ok_0.contains_key(
                #[trigger] source_at(lines, k).text_id.0,
            ),
        forall|id: usize| #[trigger]
            source_rows(lines)->Ok_0.contains_key(id) ==> exists|k: int|
                0 <= k < lines.len() && #[trigger] source_at(lines, k).text_id.0 == id,
    decreases lines.len(),
{
    if lines.len() > 0 {
        let front = lines.drop_last();
        lemma_sources_hold_their_ids(front);
        let before = source_rows(front)->Ok_0;
        let table = source_rows(lines)->Ok_0;
        let newest = source_at(lines, lines.len() - 1);
        assert(table == before.insert(newest.text_id.0, newest));
        assert forall|k: int| 0 <= k < lines.len() implies source_row(
            tsv_fields(#[trigger] lines[k]),
        ) is Ok by {
            if k < front.len() {
                assert(front[k] == lines[k]);
            }
        }
        assert forall|k: int| 0 <= k < lines.len() implies table.contains_key(
            #[trigger] source_at(lines, k).text_id.0,
        ) by {
            if k < front.len() {
                assert(front[k] == lines[k]);
                assert(before.contains_key(source_at(front, k).text_id.0));
            }
        }
        assert forall|id: usize| #[trigger] table.contains_key(id) implies exists|k: int|
            0 <= k < lines.len() && #[trigger] source_at(lines, k).text_id.0 == id by {
            if id == newest.text_id.0 {
                assert(source_at(lines, lines.len() - 1).text_id.0 == id);
            } else {
                assert(before.contains_key(id));
                let k = choose|k: int|
                    0 <= k < front.len() && #[trigger] source_at(front, k).text_id.0 == id;
                assert(front[k] == lines[k]);
                assert(source_at(lines, k).text_id.0 == id);
            }
        }
    }
}

/// Of the lines with one text id the last gives the record of the table.
pub proof fn lemma_sources_last_wins(lines: Seq<Seq<char>>, k: int)
    requires
        source_rows(lines) is Ok,
        0 <= k < lines.len(),
        forall|j: int|
            k < j < lines.len() ==> #[trigger] source_at(lines, j).text_id != source_at(
                lines,
                k,
            ).text_id,
    ensures
        source_rows(lines)->Ok_0[source_at(lines, k).text_id.0] == source_at(lines, k),
    decreases lines.len(),
{
    if k < lines.len() - 1 {
        let front = lines.drop_last();
        assert(front[k] == lines[k]);
        assert(source_at(lines, lines.len() - 1).text_id != source_at(lines, k).text_id);
        assert forall|j: int| k < j < front.len() implies #[trigger] source_at(front, j).text_id
            != source_at(front, k).text_id by {
            assert(front[j] == lines[j]);
            assert(source_at(lines, j).text_id != source_at(lines, k).text_id);
        }
        lemma_sources_last_wins(front, k);
    }
}

} // verus!
