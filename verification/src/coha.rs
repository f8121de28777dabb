//! The corpus as a whole: the source table, the lexicon and the corpus
//! files, with the queries that the row builders make of the lexicon.

use crate::corpus::CohaFile;
use crate::error::CohaError;
use crate::filter::CohaFilter;
use crate::lexicon::{indexed_by_id, Lexicon, LexiconView};
use crate::model::{Token, Word, WordId, WordView};
use crate::sources::Sources;
use crate::text::{join_cells, joined};
use vstd::prelude::*;
use vstd::string::StringExecFns;

verus! {

/// The corpus: what is known of the texts, the vocabulary, and the files
/// that hold the tokens.
pub struct Coha {
    pub sources: Sources,
    pub lexicon: Lexicon,
    pub coha_files: Vec<CohaFile>,
}

/// The lexicon entry of the word id of `token`, if there is one.
pub open spec fn word_of(lex: LexiconView, token: Token) -> Option<WordView> {
    if token.word_id.0 < lex.len() {
        lex[token.word_id.0 as int]
    } else {
        None
    }
}

/// Whether the lexicon holds the word of every token of `tokens`.
pub open spec fn all_known(lex: LexiconView, tokens: Seq<Token>) -> bool {
    forall|k: int| 0 <= k < tokens.len() ==> word_of(lex, #[trigger] tokens[k]) is Some
}

/// The word id of the first token of `tokens` whose word the lexicon
/// does not hold.
pub open spec fn first_unknown(lex: LexiconView, tokens: Seq<Token>) -> Option<WordId>
    decreases tokens.len(),
{
    if tokens.len() == 0 {
        None
    } else {
        match first_unknown(lex, tokens.drop_last()) {
            Some(id) => Some(id),
            None => if word_of(lex, tokens.last()) is None {
                Some(tokens.last().word_id)
            } else {
                None
            },
        }
    }
}

/// The case-sensitive forms of the words of `tokens`.
pub open spec fn forms(lex: LexiconView, tokens: Seq<Token>) -> Seq<Seq<char>> {
    Seq::new(tokens.len(), |k: int| word_of(lex, tokens[k])->Some_0.word_cs)
}

/// The case-sensitive forms of the words of `tokens` with a space
/// between two neighbours.
pub open spec fn text_of(lex: LexiconView, tokens: Seq<Token>) -> Seq<char> {
    joined(forms(lex, tokens), " "@)
}

/// A word as lemma, underscore, part of speech.
pub open spec fn tagged(w: WordView) -> Seq<char> {
    w.lemma + "_"@ + w.pos
}

/// The lemma and part of speech of each word of `tokens`.
pub open spec fn tags(lex: LexiconView, tokens: Seq<Token>) -> Seq<Seq<char>> {
    Seq::new(tokens.len(), |k: int| tagged(word_of(lex, tokens[k])->Some_0))
}

/// The lemma and part of speech of each word of `tokens`, with a space
/// between two neighbours.
pub open spec fn lemma_pos_of(lex: LexiconView, tokens: Seq<Token>) -> Seq<char> {
    joined(tags(lex, tokens), " "@)
}

/// No word is unknown exactly where all are known.
pub proof fn lemma_first_unknown(lex: LexiconView, tokens: Seq<Token>)
    ensures
        first_unknown(lex, tokens) is None <==> all_known(lex, tokens),
    decreases tokens.len(),
{
    if tokens.len() > 0 {
        let front = tokens.drop_last();
        lemma_first_unknown(lex, front);
        if all_known(lex, tokens) {
            assert forall|k: int| 0 <= k < front.len() implies word_of(
                lex,
                #[trigger] front[k],
            ) is Some by {
                assert(front[k] == tokens[k]);
            }
            assert(word_of(lex, tokens[tokens.len() - 1]) is Some);
        }
        if first_unknown(lex, tokens) is None {
            assert forall|k: int| 0 <= k < tokens.len() implies word_of(
                lex,
                #[trigger] tokens[k],
            ) is Some by {
                if k < front.len() {
                    assert(front[k] == tokens[k]);
                }
            }
        }
    }
}

/// Whether `filter` is what the predicate `p` makes of the lexicon with
/// the entries `entries`: a set of word ids that holds the id of each
/// entry for which `p` said yes, and of no other; gaps are never in it.
pub open spec fn built_from<P: Fn(&Word) -> bool>(
    entries: Seq<Option<Word>>,
    p: P,
    filter: CohaFilter,
) -> bool {
    &&& filter is Hash
    &&& forall|id: WordId| #[trigger]
        filter.accepts(id) ==> id.0 < entries.len() && entries[id.0 as int] is Some
            && call_ensures(p, (&entries[id.0 as int]->Some_0,), true)
    &&& forall|id: WordId|
        id.0 < entries.len() && entries[id.0 as int] is Some && !#[trigger] filter.accepts(id)
            ==> call_ensures(p, (&entries[id.0 as int]->Some_0,), false)
}

impl Coha {
    /// Puts the three parts of a corpus together once each has been read,
    /// or gives the error of the first part that failed: the corpus
    /// files first, then the source table, then the lexicon.
    pub fn load(
        corpus: Result<Vec<CohaFile>, CohaError>,
        sources: Result<Sources, CohaError>,
        lexicon: Result<Lexicon, CohaError>,
    ) -> (r: Result<Coha, CohaError>)
        ensures
            r == match (corpus, sources, lexicon) {
                (Err(e), _, _) => Err::<Coha, CohaError>(e),
                (Ok(_), Err(e), _) => Err(e),
                (Ok(_), Ok(_), Err(e)) => Err(e),
                (Ok(c), Ok(s), Ok(l)) => Ok(Coha { sources: s, lexicon: l, coha_files: c }),
            },
    {
        let coha_files = match corpus {
            Err(e) => {
                return Err(e);
            },
            Ok(c) => c,
        };
        let sources = match sources {
            Err(e) => {
                return Err(e);
            },
            Ok(s) => s,
        };
        let lexicon = match lexicon {
            Err(e) => {
                return Err(e);
            },
            Ok(l) => l,
        };
        Ok(Coha { sources, lexicon, coha_files })
    }

    /// The filter that lets exactly those words pass for which `p` says
    /// yes. `p` is asked once for each entry of the lexicon.
    pub fn get_filter<P>(&self, p: P) -> (filter: CohaFilter) where P: Fn(&Word) -> bool
        requires
            forall|i: int|
                0 <= i < self.lexicon.entries().len() && (#[trigger] self.lexicon.entries()[i]) is Some
                    ==> call_requires(p, (&self.lexicon.entries()[i]->Some_0,)),
        ensures
            built_from(self.lexicon.entries(), p, filter),
            indexed_by_id(self.lexicon@),
    {
        let mut filter = CohaFilter::none();
        let n = self.lexicon.len();
        let ghost entries = self.lexicon.entries();
        let mut i: usize = 0;
        while i < n
            invariant
                i <= n,
                n == entries.len(),
                entries == self.lexicon.entries(),
                forall|k: int|
                    0 <= k < entries.len() && (#[trigger] entries[k]) is Some ==> call_requires(
                        p,
                        (&entries[k]->Some_0,),
                    ),
                filter is Hash,
                forall|id: WordId| #[trigger]
                    filter.accepts(id) ==> id.0 < i && entries[id.0 as int] is Some && call_ensures(
                        p,
                        (&entries[id.0 as int]->Some_0,),
                        true,
                    ),
                forall|id: WordId|
                    id.0 < i && entries[id.0 as int] is Some && !#[trigger] filter.accepts(id)
                        ==> call_ensures(p, (&entries[id.0 as int]->Some_0,), false),
            decreases n - i,
        {
            match self.lexicon.get(WordId(i)) {
                None => {},
                Some(w) => {
                    assert(entries[i as int] == Some(*w));
                    if p(w) {
                        filter.allow(w.word_id);
                    }
                },
            }
            i += 1;
        }
        filter
    }

    /// The lexicon entry of `word_id`.
    pub fn get_word(&self, word_id: WordId) -> (word: &Word)
        requires
            word_id.0 < self.lexicon@.len(),
            self.lexicon@[word_id.0 as int] is Some,
        ensures
            self.lexicon@[word_id.0 as int] == Some(word@),
            self.lexicon.entries()[word_id.0 as int] == Some(*word),
    {
        match self.lexicon.get(word_id) {
            Some(w) => w,
            None => vstd::pervasive::unreached(),
        }
    }

    /// The word id of the first token of `tokens` whose word the lexicon
    /// does not hold.
    pub fn first_unknown(&self, tokens: &[Token]) -> (missing: Option<WordId>)
        ensures
            missing == first_unknown(self.lexicon@, tokens@),
    {
        let mut k: usize = 0;
        while k < tokens.len()
            invariant
                k <= tokens.len(),
                first_unknown(self.lexicon@, tokens@.take(k as int)) is None,
            decreases tokens.len() - k,
        {
            proof {
                assert(tokens@.take(k + 1).drop_last() =~= tokens@.take(k as int));
            }
            if self.lexicon.get(tokens[k].word_id).is_none() {
                proof {
                    lemma_unknown_extends(self.lexicon@, tokens@, k + 1);
                }
                return Some(tokens[k].word_id);
            }
            k += 1;
        }
        assert(tokens@.take(k as int) =~= tokens@);
        None
    }

    /// The case-sensitive forms of the words of `tokens`, separated by
    /// spaces.
    pub fn get_text(&self, tokens: &[Token]) -> (out: String)
        requires
            all_known(self.lexicon@, tokens@),
        ensures
            out@ == text_of(self.lexicon@, tokens@),
    {
        let mut parts: Vec<String> = Vec::new();
        let mut k: usize = 0;
        while k < tokens.len()
            invariant
                k <= tokens.len(),
                all_known(self.lexicon@, tokens@),
                parts.deep_view() == forms(self.lexicon@, tokens@.take(k as int)),
            decreases tokens.len() - k,
        {
            let ghost before = parts.deep_view();
            assert(word_of(self.lexicon@, tokens@[k as int]) is Some);
            let word = self.get_word(tokens[k].word_id);
            let form = word.word_cs.clone();
            parts.push(form);
            assert(parts.deep_view() =~= before.push(form@));
            assert(parts.deep_view() =~= forms(self.lexicon@, tokens@.take(k + 1)));
            k += 1;
        }
        assert(tokens@.take(k as int) =~= tokens@);
        proof {
            reveal_strlit(" ");
        }
        join_cells(&parts, " ")
    }

    /// The lemma and part of speech of each word of `tokens`, separated
    /// by spaces.
    pub fn get_lemma_pos(&self, tokens: &[Token]) -> (out: String)
        requires
            all_known(self.lexicon@, tokens@),
        ensures
            out@ == lemma_pos_of(self.lexicon@, tokens@),
    {
        let mut parts: Vec<String> = Vec::new();
        let mut k: usize = 0;
        while k < tokens.len()
            invariant
                k <= tokens.len(),
                all_known(self.lexicon@, tokens@),
                parts.deep_view() == tags(self.lexicon@, tokens@.take(k as int)),
            decreases tokens.len() - k,
        {
            let ghost before = parts.deep_view();
            assert(word_of(self.lexicon@, tokens@[k as int]) is Some);
            let word = self.get_word(tokens[k].word_id);
            let mut tag = word.lemma.clone();
            tag.append("_");
            tag.append(word.pos.as_str());
            parts.push(tag);
            assert(parts.deep_view() =~= before.push(tag@));
            assert(parts.deep_view() =~= tags(self.lexicon@, tokens@.take(k + 1)));
            k += 1;
        }
        assert(tokens@.take(k as int) =~= tokens@);
        proof {
            reveal_strlit(" ");
        }
        join_cells(&parts, " ")
    }
}

/// Once a prefix of `tokens` has an unknown word, that word is the first
/// unknown word of all of `tokens`.
pub proof fn lemma_unknown_extends(lex: LexiconView, tokens: Seq<Token>, k: int)
    requires
        0 <= k <= tokens.len(),
        first_unknown(lex, tokens.take(k)) is Some,
    ensures
        first_unknown(lex, tokens) == first_unknown(lex, tokens.take(k)),
    decreases tokens.len() - k,
{
    if k == tokens.len() {
        assert(tokens.take(k) =~= tokens);
    } else {
        assert(tokens.take(k + 1).drop_last() =~= tokens.take(k));
        lemma_unknown_extends(lex, tokens, k + 1);
    }
}

} // verus!
