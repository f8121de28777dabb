//! Laws of filters and hits.

use crate::coha::built_from;
use crate::filter::{window_matches, CohaFilter};
use crate::hits::{
    context_end, context_start, details, header_details, header_row, hit_row, hits_below,
    run_hits, CONTEXT,
};
use crate::lexicon::LexiconView;
use crate::model::{SourceView, Token, Word, WordId};
use crate::scan::is_run;
use vstd::prelude::*;

verus! {

/// A filter for any word lets every word pass.
pub proof fn lemma_any_accepts_all(word_id: WordId)
    ensures
        CohaFilter::Any.accepts(word_id),
{
}

/// A filter built from a predicate lets a word id pass exactly if the
/// lexicon holds a word under that id and the predicate holds of the
/// word. `pred` is what the executable predicate `p` computes.
pub proof fn lemma_filter_is_exact<P: Fn(&Word) -> bool>(
    entries: Seq<Option<Word>>,
    p: P,
    pred: spec_fn(Word) -> bool,
    filter: CohaFilter,
)
    requires
        built_from(entries, p, filter),
        forall|w: Word, yes: bool| #[trigger] call_ensures(p, (&w,), yes) ==> yes == pred(w),
    ensures
        forall|id: WordId| #[trigger]
            filter.accepts(id) <==> id.0 < entries.len() && entries[id.0 as int] is Some && pred(
                entries[id.0 as int]->Some_0,
            ),
{
    assert forall|id: WordId| #[trigger]
        filter.accepts(id) <==> id.0 < entries.len() && entries[id.0 as int] is Some && pred(
            entries[id.0 as int]->Some_0,
        ) by {
        if id.0 < entries.len() && entries[id.0 as int] is Some {
            let w = entries[id.0 as int]->Some_0;
            if filter.accepts(id) {
                assert(call_ensures(p, (&w,), true));
            } else {
                assert(call_ensures(p, (&w,), false));
            }
        }
    }
}

/// The start positions below `k` at which the pattern matches, in
/// increasing order.
pub open spec fn matches_below(filters: Seq<&CohaFilter>, tokens: Seq<Token>, k: int) -> Seq<int> {
    Seq::new(
        if k < 0 {
            0
        } else {
            k as nat
        },
        |i: int| i,
    ).filter(|i: int| window_matches(filters, tokens, i))
}

/// Where all rows can be built, the rows of a text are the rows of the
/// start positions at which the pattern matches, each position once and
/// in increasing order. Every position at which the pattern fits into the
/// text is among the candidates, whatever was found before it: a hit at
/// one position keeps no later one from being a hit, so neighbouring and
/// overlapping hits are all there.
pub proof fn lemma_every_match_is_a_hit(
    lex: LexiconView,
    source: SourceView,
    filters: Seq<&CohaFilter>,
    tokens: Seq<Token>,
)
    requires
        tokens.len() >= filters.len(),
        run_hits(lex, source, filters, tokens) is Ok,
    ensures
        ({
            let rows = run_hits(lex, source, filters, tokens)->Ok_0;
            let limit = tokens.len() - filters.len() + 1;
            let starts = matches_below(filters, tokens, limit);
            &&& rows.len() == starts.len()
            &&& forall|t: int|
                0 <= t < rows.len() ==> #[trigger] rows[t] == hit_row(
                    lex,
                    source,
                    tokens,
                    starts[t],
                    filters.len() as int,
                )
            &&& forall|i: int|
                0 <= i < limit && window_matches(filters, tokens, i) ==> #[trigger] starts.contains(
                    i,
                )
        }),
{
    lemma_every_match_below(lex, source, filters, tokens, tokens.len() - filters.len() + 1);
}

/// The same of the start positions below `k`.
pub proof fn lemma_every_match_below(
    lex: LexiconView,
    source: SourceView,
    filters: Seq<&CohaFilter>,
    tokens: Seq<Token>,
    k: int,
)
    requires
        0 <= k,
        hits_below(lex, source, filters, tokens, k) is Ok,
    ensures
        ({
            let rows = hits_below(lex, source, filters, tokens, k)->Ok_0;
            let starts = matches_below(filters, tokens, k);
            &&& rows.len() == starts.len()
            &&& forall|t: int|
                0 <= t < rows.len() ==> #[trigger] rows[t] == hit_row(
                    lex,
                    source,
                    tokens,
                    starts[t],
                    filters.len() as int,
                )
            &&& forall|i: int|
                0 <= i < k && window_matches(filters, tokens, i) ==> #[trigger] starts.contains(i)
        }),
    decreases k,
{
    reveal(Seq::filter);
    let all = Seq::new(k as nat, |i: int| i);
    if k > 0 {
        lemma_every_match_below(lex, source, filters, tokens, k - 1);
        let fewer = Seq::new((k - 1) as nat, |i: int| i);
        assert(all.drop_last() =~= fewer);
        assert(all.last() == k - 1);
        let starts = matches_below(filters, tokens, k);
        let before = matches_below(filters, tokens, k - 1);
        assert forall|i: int| 0 <= i < k && window_matches(filters, tokens, i) implies #[trigger]
            starts.contains(i) by {
            if i < k - 1 {
                assert(before.contains(i));
                let t = choose|t: int| 0 <= t < before.len() && before[t] == i;
                assert(starts[t] == i);
            } else {
                assert(starts[starts.len() - 1] == i);
            }
        }
    }
}

/// With a single filter, the number of rows is the number of tokens
/// whose word the filter lets pass.
pub proof fn lemma_single_filter_counts(
    lex: LexiconView,
    source: SourceView,
    filter: &CohaFilter,
    tokens: Seq<Token>,
)
    requires
        run_hits(lex, source, seq![filter], tokens) is Ok,
    ensures
        run_hits(lex, source, seq![filter], tokens)->Ok_0.len() == tokens.filter(
            |t: Token| filter.accepts(t.word_id),
        ).len(),
{
    if tokens.len() >= 1 {
        lemma_single_filter_counts_below(lex, source, filter, tokens, tokens.len() as int);
        assert(tokens.take(tokens.len() as int) =~= tokens);
    } else {
        reveal(Seq::filter);
    }
}

/// With a single filter, the number of rows for the start positions
/// below `k` is the number of the first `k` tokens whose word the filter
/// lets pass.
pub proof fn lemma_single_filter_counts_below(
    lex: LexiconView,
    source: SourceView,
    filter: &CohaFilter,
    tokens: Seq<Token>,
    k: int,
)
    requires
        0 <= k <= tokens.len(),
        hits_below(lex, source, seq![filter], tokens, k) is Ok,
    ensures
        hits_below(lex, source, seq![filter], tokens, k)->Ok_0.len() == tokens.take(k).filter(
            |t: Token| filter.accepts(t.word_id),
        ).len(),
    decreases k,
{
    reveal(Seq::filter);
    if k > 0 {
        lemma_single_filter_counts_below(lex, source, filter, tokens, k - 1);
        assert(tokens.take(k).drop_last() =~= tokens.take(k - 1));
        let filters = seq![filter];
        assert(window_matches(filters, tokens, k - 1) == filter.accepts(tokens[k - 1].word_id)) by {
            if filter.accepts(tokens[k - 1].word_id) {
                assert forall|j: int| 0 <= j < filters.len() implies (#[trigger] filters[j]).accepts(
                    tokens[k - 1 + j].word_id,
                ) by {}
            } else {
                assert(filters[0] == filter);
            }
        }
    }
}

/// The details of a hit take three cells for each of its tokens.
pub proof fn lemma_details_len(lex: LexiconView, hit: Seq<Token>)
    ensures
        details(lex, hit).len() == 3 * hit.len(),
    decreases hit.len(),
{
    if hit.len() > 0 {
        lemma_details_len(lex, hit.drop_last());
    }
}

/// The context of a hit is cut off at the ends of its text: it reaches
/// at most `CONTEXT` tokens to either side and never beyond the text. A
/// hit at the start of the text has nothing before it, a hit at the end
/// nothing behind it, and then the context cells of the row are empty.
/// In tokens of one text, hit and context all belong to that text.
pub proof fn lemma_context_is_clipped(
    lex: LexiconView,
    source: SourceView,
    tokens: Seq<Token>,
    pos: int,
    m: int,
)
    requires
        0 <= pos,
        0 <= m,
        pos + m <= tokens.len(),
    ensures
        ({
            let n = tokens.len() as int;
            let row = hit_row(lex, source, tokens, pos, m);
            let start = context_start(pos);
            let end = context_end(n, pos, m);
            &&& 0 <= start <= pos
            &&& pos - start <= CONTEXT
            &&& pos + m <= end <= n
            &&& end - (pos + m) <= CONTEXT
            &&& row.len() == 4 * m + 10
            &&& pos == 0 ==> row[6].len() == 0 && row[8 + m].len() == 0
            &&& pos + m == n ==> row[7 + m].len() == 0 && row[9 + 4 * m].len() == 0
            &&& is_run(tokens) ==> forall|k: int|
                start <= k < end ==> (#[trigger] tokens[k]).text_id == tokens[start].text_id
        }),
{
    let hit = tokens.subrange(pos, pos + m);
    lemma_details_len(lex, hit);
    let n = tokens.len() as int;
    let start = context_start(pos);
    let end = context_end(n, pos, m);
    if is_run(tokens) {
        assert forall|k: int| start <= k < end implies (#[trigger] tokens[k]).text_id
            == tokens[start].text_id by {
            if start < k {
                assert(tokens[start].text_id == tokens[k].text_id);
            }
        }
    }
}

/// The names of the detail columns are three for each position.
pub proof fn lemma_header_details_len(m: nat)
    ensures
        header_details(m).len() == 3 * m,
    decreases m,
{
    if m > 0 {
        lemma_header_details_len((m - 1) as nat);
    }
}

/// A table has a column name for every cell of its rows: the header of a
/// pattern of `m` positions and the row of a hit of that pattern are
/// equally long.
pub proof fn lemma_row_fits_header(
    lex: LexiconView,
    source: SourceView,
    tokens: Seq<Token>,
    pos: int,
    m: nat,
)
    requires
        0 <= pos,
        pos + m <= tokens.len(),
    ensures
        header_row(m).len() == 4 * m + 10,
        hit_row(lex, source, tokens, pos, m as int).len() == header_row(m).len(),
{
    lemma_header_details_len(m);
    lemma_details_len(lex, tokens.subrange(pos, pos + m));
}

} // verus!
