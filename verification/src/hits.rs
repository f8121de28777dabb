//! The rows of the result tables: the header of a table, the row of one
//! hit with its context, and all hits of a pattern in one text.

use crate::coha::{
    all_known, first_unknown, forms, lemma_first_unknown, lemma_pos_of, text_of, word_of, Coha,
};
use crate::corpus::CohaFile;
use crate::error::{CohaError, CohaErrorView};
use crate::filter::{window_matches, CohaFilter, CohaSearch};
use crate::lexicon::LexiconView;
use crate::model::{Source, SourceView, TextId, Token, WordId};
use crate::sources::SourcesView;
use crate::text::{decimal, decimal_string, push_decimal};
use vstd::prelude::*;
use vstd::slice::slice_subrange;
use vstd::string::StringExecFns;

verus! {

/// The number of tokens of context on either side of a hit.
pub const CONTEXT: usize = 30;

/// Where the context before a hit at `pos` begins: `CONTEXT` tokens
/// before the hit, or at the start of the text if that is nearer.
pub open spec fn context_start(pos: int) -> int {
    if pos < CONTEXT {
        0
    } else {
        pos - CONTEXT
    }
}

/// Where the context behind a hit of `m` tokens at `pos` ends, in a text
/// of `n` tokens: `CONTEXT` tokens behind the hit, or at the end of the
/// text if that is nearer.
pub open spec fn context_end(n: int, pos: int, m: int) -> int {
    if pos + m + CONTEXT < n {
        pos + m + CONTEXT
    } else {
        n
    }
}

/// For each word of the hit its lowercased form, its lemma and its part
/// of speech.
pub open spec fn details(lex: LexiconView, hit: Seq<Token>) -> Seq<Seq<char>>
    decreases hit.len(),
{
    if hit.len() == 0 {
        Seq::empty()
    } else {
        let w = word_of(lex, hit.last())->Some_0;
        details(lex, hit.drop_last()) + seq![w.word, w.lemma, w.pos]
    }
}

/// The first cells of a hit's row: the source, the position, and the
/// context before the hit.
pub open spec fn row_head(
    lex: LexiconView,
    source: SourceView,
    tokens: Seq<Token>,
    pos: int,
) -> Seq<Seq<char>> {
    seq![
        decimal(source.text_id.0 as nat),
        source.genre.code(),
        decimal(source.year.0 as nat),
        source.title,
        source.author,
        decimal(pos as nat),
        text_of(lex, tokens.subrange(context_start(pos), pos)),
    ]
}

/// The row of the hit of `m` tokens at `pos` in the text `tokens`.
pub open spec fn hit_row(
    lex: LexiconView,
    source: SourceView,
    tokens: Seq<Token>,
    pos: int,
    m: int,
) -> Seq<Seq<char>> {
    let before = tokens.subrange(context_start(pos), pos);
    let hit = tokens.subrange(pos, pos + m);
    let after = tokens.subrange(pos + m, context_end(tokens.len() as int, pos, m));
    row_head(lex, source, tokens, pos) + forms(lex, hit) + seq![
        text_of(lex, after),
        lemma_pos_of(lex, before),
    ] + details(lex, hit) + seq![lemma_pos_of(lex, after)]
}

/// The names of the first columns of a table.
pub open spec fn header_head() -> Seq<Seq<char>> {
    seq!["text ID"@, "genre"@, "year"@, "title"@, "author"@, "position"@, "before"@]
}

/// The names of the columns that hold the forms of the hit.
pub open spec fn header_forms(m: nat) -> Seq<Seq<char>> {
    Seq::new(m, |j: int| "wordCS "@ + decimal((j + 1) as nat))
}

/// The names of the columns that hold the details of the hit.
pub open spec fn header_details(m: nat) -> Seq<Seq<char>>
    decreases m,
{
    if m == 0 {
        Seq::empty()
    } else {
        header_details((m - 1) as nat) + seq![
            "word "@ + decimal(m),
            "lemma "@ + decimal(m),
            "pos "@ + decimal(m),
        ]
    }
}

/// The column names of the table of a pattern of `m` positions.
pub open spec fn header_row(m: nat) -> Seq<Seq<char>> {
    header_head() + header_forms(m) + seq!["after"@, "before_pos"@] + header_details(m) + seq![
        "after_pos"@,
    ]
}

/// `name` followed by the decimal numeral of `number`.
fn numbered(name: &str, number: usize) -> (out: String)
    ensures
        out@ == name@ + decimal(number as nat),
{
    let mut out = String::from_str(name);
    push_decimal(&mut out, number);
    out
}

impl CohaFile {
    /// The header row of the table of a pattern of `m` positions.
    pub fn write_header(m: usize) -> (row: Vec<String>)
        ensures
            row.deep_view() == header_row(m as nat),
    {
        let mut row: Vec<String> = Vec::new();
        row.push(String::from_str("text ID"));
        row.push(String::from_str("genre"));
        row.push(String::from_str("year"));
        row.push(String::from_str("title"));
        row.push(String::from_str("author"));
        row.push(String::from_str("position"));
        row.push(String::from_str("before"));
        assert(row.deep_view() =~= header_head());
        let mut j: usize = 0;
        while j < m
            invariant
                j <= m,
                row.deep_view() == header_head() + header_forms(j as nat),
            decreases m - j,
        {
            let ghost before = row.deep_view();
            let name = numbered("wordCS ", j + 1);
            row.push(name);
            assert(row.deep_view() =~= before.push(name@));
            assert(row.deep_view() =~= header_head() + header_forms((j + 1) as nat));
            j += 1;
        }
        let ghost first = row.deep_view();
        row.push(String::from_str("after"));
        row.push(String::from_str("before_pos"));
        assert(row.deep_view() =~= first + seq!["after"@, "before_pos"@]);
        let ghost second = row.deep_view();
        let mut j: usize = 0;
        while j < m
            invariant
                j <= m,
                row.deep_view() == second + header_details(j as nat),
            decreases m - j,
        {
            let ghost before = row.deep_view();
            let word = numbered("word ", j + 1);
            let lemma = numbered("lemma ", j + 1);
            let pos = numbered("pos ", j + 1);
            row.push(word);
            row.push(lemma);
            row.push(pos);
            assert(row.deep_view() =~= before + seq![word@, lemma@, pos@]);
            assert(row.deep_view() =~= second + header_details((j + 1) as nat));
            j += 1;
        }
        let ghost third = row.deep_view();
        row.push(String::from_str("after_pos"));
        assert(row.deep_view() =~= third + seq!["after_pos"@]);
        row
    }

    /// The row of the hit of `m` tokens at `pos` in the text `tokens`,
    /// which belongs to `source`.
    pub fn write_hit(coha: &Coha, source: &Source, tokens: &[Token], pos: usize, m: usize) -> (row:
        Vec<String>)
        requires
            pos + m <= tokens@.len(),
            all_known(
                coha.lexicon@,
                tokens@.subrange(
                    context_start(pos as int),
                    context_end(tokens@.len() as int, pos as int, m as int),
                ),
            ),
        ensures
            row.deep_view() == hit_row(coha.lexicon@, source@, tokens@, pos as int, m as int),
    {
        let n = tokens.len();
        let start = if pos < CONTEXT {
            0
        } else {
            pos - CONTEXT
        };
        let end = if n - (pos + m) > CONTEXT {
            pos + m + CONTEXT
        } else {
            n
        };
        let ghost lex = coha.lexicon@;
        let ghost around = tokens@.subrange(start as int, end as int);
        let before = slice_subrange(tokens, start, pos);
        let hit = slice_subrange(tokens, pos, pos + m);
        let after = slice_subrange(tokens, pos + m, end);
        proof {
            assert forall|k: int| 0 <= k < before@.len() implies word_of(
                lex,
                #[trigger] before@[k],
            ) is Some by {
                assert(before@[k] == around[k]);
            }
            assert forall|k: int| 0 <= k < hit@.len() implies word_of(
                lex,
                #[trigger] hit@[k],
            ) is Some by {
                assert(hit@[k] == around[pos - start + k]);
            }
            assert forall|k: int| 0 <= k < after@.len() implies word_of(
                lex,
                #[trigger] after@[k],
            ) is Some by {
                assert(after@[k] == around[pos + m - start + k]);
            }
        }
        let mut row: Vec<String> = Vec::new();
        row.push(decimal_string(source.text_id.0));
        row.push(String::from_str(source.genre.name()));
        row.push(decimal_string(source.year.0 as usize));
        row.push(source.title.clone());
        row.push(source.author.clone());
        row.push(decimal_string(pos));
        row.push(coha.get_text(before));
        assert(row.deep_view() =~= row_head(lex, source@, tokens@, pos as int));
        let ghost head = row.deep_view();
        let mut j: usize = 0;
        while j < m
            invariant
                j <= m,
                m == hit@.len(),
                lex == coha.lexicon@,
                all_known(lex, hit@),
                row.deep_view() == head + forms(lex, hit@.take(j as int)),
            decreases m - j,
        {
            let ghost was = row.deep_view();
            assert(word_of(lex, hit@[j as int]) is Some);
            let word = coha.get_word(hit[j].word_id);
            let form = word.word_cs.clone();
            row.push(form);
            assert(row.deep_view() =~= was.push(form@));
            assert(row.deep_view() =~= head + forms(lex, hit@.take(j + 1)));
            j += 1;
        }
        assert(hit@.take(m as int) =~= hit@);
        let ghost second = row.deep_view();
        row.push(coha.get_text(after));
        row.push(coha.get_lemma_pos(before));
        assert(row.deep_view() =~= second + seq![text_of(lex, after@), lemma_pos_of(lex, before@)]);
        let ghost third = row.deep_view();
        let mut j: usize = 0;
        assert(hit@.take(0) =~= Seq::<Token>::empty());
        while j < m
            invariant
                j <= m,
                m == hit@.len(),
                lex == coha.lexicon@,
                all_known(lex, hit@),
                row.deep_view() == third + details(lex, hit@.take(j as int)),
            decreases m - j,
        {
            let ghost was = row.deep_view();
            assert(word_of(lex, hit@[j as int]) is Some);
            assert(hit@.take(j + 1).drop_last() =~= hit@.take(j as int));
            let word = coha.get_word(hit[j].word_id);
            let form = word.word.clone();
            let lemma = word.lemma.clone();
            let tag = word.pos.clone();
            row.push(form);
            row.push(lemma);
            row.push(tag);
            assert(row.deep_view() =~= was + seq![form@, lemma@, tag@]);
            assert(row.deep_view() =~= third + details(lex, hit@.take(j + 1)));
            j += 1;
        }
        assert(hit@.take(m as int) =~= hit@);
        let ghost fourth = row.deep_view();
        row.push(coha.get_lemma_pos(after));
        assert(row.deep_view() =~= fourth + seq![lemma_pos_of(lex, after@)]);
        row
    }
}

/// The rows of a table, each as the texts of its cells.
pub type Rows = Seq<Seq<Seq<char>>>;

/// The row of the hit of `m` tokens at `pos`, or the id of the first
/// word, among the hit and its context, that the lexicon does not hold.
pub open spec fn hit_outcome(
    lex: LexiconView,
    source: SourceView,
    tokens: Seq<Token>,
    pos: int,
    m: int,
) -> Result<Seq<Seq<char>>, WordId> {
    let around = tokens.subrange(context_start(pos), context_end(tokens.len() as int, pos, m));
    match first_unknown(lex, around) {
        Some(id) => Err(id),
        None => Ok(hit_row(lex, source, tokens, pos, m)),
    }
}

/// The rows of the hits that start below position `k`, in the order of
/// their positions; or the word id that the first row that cannot be
/// built is missing.
pub open spec fn hits_below(
    lex: LexiconView,
    source: SourceView,
    filters: Seq<&CohaFilter>,
    tokens: Seq<Token>,
    k: int,
) -> Result<Rows, WordId>
    decreases k,
{
    if k <= 0 {
        Ok(Seq::empty())
    } else {
        match hits_below(lex, source, filters, tokens, k - 1) {
            Err(id) => Err(id),
            Ok(rows) => if window_matches(filters, tokens, k - 1) {
                match hit_outcome(lex, source, tokens, k - 1, filters.len() as int) {
                    Err(id) => Err(id),
                    Ok(row) => Ok(rows.push(row)),
                }
            } else {
                Ok(rows)
            },
        }
    }
}

/// The rows of all hits of the pattern `filters` in the text `tokens`:
/// every start position at which the pattern fits into the text is
/// tried, whether or not a hit covers it already.
pub open spec fn run_hits(
    lex: LexiconView,
    source: SourceView,
    filters: Seq<&CohaFilter>,
    tokens: Seq<Token>,
) -> Result<Rows, WordId> {
    if tokens.len() >= filters.len() {
        hits_below(lex, source, filters, tokens, tokens.len() - filters.len() + 1)
    } else {
        Ok(Seq::empty())
    }
}

/// Once the hits below `k` cannot be built, those below any later
/// position cannot either, for want of the same word.
pub proof fn lemma_hits_fault_extends(
    lex: LexiconView,
    source: SourceView,
    filters: Seq<&CohaFilter>,
    tokens: Seq<Token>,
    k: int,
    limit: int,
)
    requires
        0 <= k <= limit,
        hits_below(lex, source, filters, tokens, k) is Err,
    ensures
        hits_below(lex, source, filters, tokens, limit) == hits_below(
            lex,
            source,
            filters,
            tokens,
            k,
        ),
    decreases limit - k,
{
    if k < limit {
        lemma_hits_fault_extends(lex, source, filters, tokens, k, limit - 1);
    }
}

/// One hit: the index of its search in the list of searches, and its row.
#[derive(Debug)]
pub struct Hit {
    pub search: usize,
    pub row: Vec<String>,
}

/// A `Hit` with the texts of its cells.
pub struct HitView {
    pub search: usize,
    pub row: Seq<Seq<char>>,
}

impl View for Hit {
    type V = HitView;

    open spec fn view(&self) -> HitView {
        HitView { search: self.search, row: self.row.deep_view() }
    }
}

/// The values of the hits of `hits`.
pub open spec fn hits_view(hits: Seq<Hit>) -> Seq<HitView> {
    Seq::new(hits.len(), |i: int| hits[i]@)
}

/// Whether every hit of `hits` names one of the first `count` searches.
pub open spec fn searches_within(hits: Seq<HitView>, count: nat) -> bool {
    forall|i: int| 0 <= i < hits.len() ==> (#[trigger] hits[i]).search < count
}

/// The rows of `rows` as hits of the search with index `search`.
pub open spec fn labelled(search: usize, rows: Rows) -> Seq<HitView> {
    Seq::new(rows.len(), |i: int| HitView { search, row: rows[i] })
}

/// The hits of the first `k` searches in the text `tokens`, search by
/// search; or the word id that the first row that cannot be built is
/// missing.
pub open spec fn searches_hits(
    lex: LexiconView,
    source: SourceView,
    searches: Seq<&CohaSearch>,
    tokens: Seq<Token>,
    k: int,
) -> Result<Seq<HitView>, WordId>
    decreases k,
{
    if k <= 0 {
        Ok(Seq::empty())
    } else {
        match searches_hits(lex, source, searches, tokens, k - 1) {
            Err(id) => Err(id),
            Ok(hits) => match run_hits(lex, source, searches[k - 1].filter_list@, tokens) {
                Err(id) => Err(id),
                Ok(rows) => Ok(hits + labelled((k - 1) as usize, rows)),
            },
        }
    }
}

/// The hits of all searches in the text `tokens`. A text that the source
/// table does not know has no hits.
pub open spec fn text_hits(
    lex: LexiconView,
    sources: SourcesView,
    searches: Seq<&CohaSearch>,
    tokens: Seq<Token>,
) -> Result<Seq<HitView>, WordId> {
    let text_id = tokens[0].text_id.0;
    if sources.contains_key(text_id) {
        searches_hits(lex, sources[text_id], searches, tokens, searches.len() as int)
    } else {
        Ok(Seq::empty())
    }
}

/// What a search of one text found.
#[derive(Debug)]
pub struct RunReport {
    /// The text that the tokens belong to.
    pub text_id: TextId,
    /// Whether the source table knows the text.
    pub known: bool,
    /// The hits, search by search and position by position.
    pub hits: Vec<Hit>,
}

impl CohaFile {
    /// All hits of `search` in the text `tokens`, which belongs to
    /// `source`: one row for each start position at which every token
    /// passes its filter.
    pub fn search_text_one(
        coha: &Coha,
        search: &CohaSearch,
        source: &Source,
        tokens: &[Token],
    ) -> (r: Result<Vec<Vec<String>>, CohaError>)
        ensures
            match run_hits(coha.lexicon@, source@, search.filter_list@, tokens@) {
                Ok(rows) => r is Ok && r->Ok_0.deep_view() == rows,
                Err(id) => r is Err && r->Err_0@ == CohaErrorView::MissingWord(id),
            },
    {
        let m = search.filter_list.len();
        let n = tokens.len();
        let mut rows: Vec<Vec<String>> = Vec::new();
        let ghost lex = coha.lexicon@;
        let ghost filters = search.filter_list@;
        if n >= m {
            let last = n - m;
            let mut i: usize = 0;
            let mut done = false;
            assert(rows.deep_view() =~= Seq::<Seq<Seq<char>>>::empty());
            while !done
                invariant
                    i <= last,
                    last == n - m,
                    n == tokens@.len(),
                    m == filters.len(),
                    n >= m,
                    lex == coha.lexicon@,
                    filters == search.filter_list@,
                    hits_below(lex, source@, filters, tokens@, if done {
                        last + 1
                    } else {
                        i as int
                    }) == Ok::<Rows, WordId>(rows.deep_view()),
                decreases
                        last - i + if done {
                            0int
                        } else {
                            1int
                        },
            {
                if search.matches_at(tokens, i) {
                    let start = if i < CONTEXT {
                        0
                    } else {
                        i - CONTEXT
                    };
                    let end = if n - (i + m) > CONTEXT {
                        i + m + CONTEXT
                    } else {
                        n
                    };
                    let around = slice_subrange(tokens, start, end);
                    match coha.first_unknown(around) {
                        Some(id) => {
                            proof {
                                lemma_hits_fault_extends(
                                    lex,
                                    source@,
                                    filters,
                                    tokens@,
                                    i + 1,
                                    last + 1,
                                );
                            }
                            return Err(CohaError::MissingWord(id));
                        },
                        None => {},
                    }
                    proof {
                        lemma_first_unknown(lex, around@);
                    }
                    let ghost before = rows.deep_view();
                    let row = CohaFile::write_hit(coha, source, tokens, i, m);
                    rows.push(row);
                    assert(rows.deep_view() =~= before.push(row.deep_view()));
                }
                if i == last {
                    done = true;
                } else {
                    i += 1;
                }
            }
        } else {
            assert(rows.deep_view() =~= Seq::<Seq<Seq<char>>>::empty());
        }
        Ok(rows)
    }

    /// All hits of `searches` in the text `tokens`, search by search. A
    /// text that the source table does not know has no hits, and that is
    /// no error.
    pub fn search_text(coha: &Coha, searches: &[&CohaSearch], tokens: &[Token]) -> (r: Result<
        RunReport,
        CohaError,
    >)
        requires
            tokens@.len() > 0,
            tokens@.first().text_id == tokens@.last().text_id,
        ensures
            match text_hits(coha.lexicon@, coha.sources@, searches@, tokens@) {
                Ok(hits) => r is Ok && hits_view(r->Ok_0.hits@) == hits && r->Ok_0.text_id
                    == tokens@[0].text_id && r->Ok_0.known == coha.sources@.contains_key(
                    tokens@[0].text_id.0,
                ),
                Err(id) => r is Err && r->Err_0@ == CohaErrorView::MissingWord(id),
            },
            r is Ok ==> searches_within(hits_view(r->Ok_0.hits@), searches@.len()),
    {
        let text_id = tokens[0].text_id;
        let mut hits: Vec<Hit> = Vec::new();
        assert(hits_view(hits@) =~= Seq::<HitView>::empty());
        let source = match coha.sources.get(text_id) {
            None => {
                return Ok(RunReport { text_id, known: false, hits });
            },
            Some(source) => source,
        };
        let ghost lex = coha.lexicon@;
        let mut s: usize = 0;
        while s < searches.len()
            invariant
                s <= searches@.len(),
                lex == coha.lexicon@,
                tokens@.len() > 0,
                coha.sources@.contains_key(tokens@[0].text_id.0),
                coha.sources@[tokens@[0].text_id.0] == source@,
                searches_hits(lex, source@, searches@, tokens@, s as int) == Ok::<
                    Seq<HitView>,
                    WordId,
                >(hits_view(hits@)),
                searches_within(hits_view(hits@), searches@.len()),
            decreases searches@.len() - s,
        {
            let rows = match CohaFile::search_text_one(coha, searches[s], source, tokens) {
                Err(e) => {
                    proof {
                        lemma_searches_fault_extends(
                            lex,
                            source@,
                            searches@,
                            tokens@,
                            s + 1,
                            searches@.len() as int,
                        );
                    }
                    return Err(e);
                },
                Ok(rows) => rows,
            };
            let ghost found = rows.deep_view();
            let ghost before = hits_view(hits@);
            let ghost items = rows@;
            assert(labelled(s, found).take(0) =~= Seq::<HitView>::empty());
            assert(hits_view(hits@) =~= before + labelled(s, found).take(0));
            for row in iter: rows
                invariant
                    iter.seq() == items,
                    s < searches@.len(),
                    found == Seq::new(items.len(), |i: int| items[i].deep_view()),
                    hits_view(hits@) == before + labelled(s, found).take(iter.index() as int),
                    searches_within(hits_view(hits@), searches@.len()),
            {
                let ghost was = hits_view(hits@);
                let hit = Hit { search: s, row };
                hits.push(hit);
                assert(hits_view(hits@) =~= was.push(hit@));
                assert(hits_view(hits@) =~= before + labelled(s, found).take(iter.index() + 1));
            }
            assert(labelled(s, found).take(items.len() as int) =~= labelled(s, found));
            s += 1;
        }
        Ok(RunReport { text_id, known: true, hits })
    }
}

/// Once the hits of the first `k` searches cannot be built, those of any
/// more searches cannot either, for want of the same word.
pub proof fn lemma_searches_fault_extends(
    lex: LexiconView,
    source: SourceView,
    searches: Seq<&CohaSearch>,
    tokens: Seq<Token>,
    k: int,
    limit: int,
)
    requires
        0 <= k <= limit,
        searches_hits(lex, source, searches, tokens, k) is Err,
    ensures
        searches_hits(lex, source, searches, tokens, limit) == searches_hits(
            lex,
            source,
            searches,
            tokens,
            k,
        ),
    decreases limit - k,
{
    if k < limit {
        lemma_searches_fault_extends(lex, source, searches, tokens, k, limit - 1);
    }
}

} // verus!
