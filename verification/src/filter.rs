//! Filters and searches: a filter says which words may stand at one
//! position of a pattern, and a search is a labelled list of filters, one
//! for each position.

use crate::fx::{fx_set_contains, fx_set_insert, fx_set_len};
use crate::model::{Token, WordId};
use crate::text::{decimal, join_cells, joined, push_decimal};
use rustc_hash::FxHashSet;
use vstd::prelude::*;

verus! {

/// A rule for one position of a pattern: any word, or one of a set of
/// word ids.
pub enum CohaFilter {
    Any,
    Hash(FxHashSet<usize>),
}

impl CohaFilter {
    /// Whether the filter lets the word with id `word_id` pass.
    pub open spec fn accepts(&self, word_id: WordId) -> bool {
        match self {
            CohaFilter::Any => true,
            CohaFilter::Hash(set) => set@.contains(word_id.0),
        }
    }

    /// A filter that lets no word pass.
    pub fn none() -> (filter: CohaFilter)
        ensures
            forall|w: WordId| !filter.accepts(w),
            filter is Hash,
    {
        CohaFilter::Hash(FxHashSet::default())
    }

    /// Lets the word with id `word_id` pass from now on. A filter for any
    /// word stays as it is.
    pub fn allow(&mut self, word_id: WordId)
        ensures
            forall|w: WordId| final(self).accepts(w) == (old(self).accepts(w) || w == word_id),
            (*final(self)) is Hash == (*old(self)) is Hash,
    {
        match self {
            CohaFilter::Any => {},
            CohaFilter::Hash(set) => {
                let _ = fx_set_insert(set, word_id.0);
            },
        }
    }

    /// Whether the filter lets the word with id `word_id` pass.
    pub fn matches(&self, word_id: WordId) -> (pass: bool)
        ensures
            pass == self.accepts(word_id),
    {
        match self {
            CohaFilter::Any => true,
            CohaFilter::Hash(set) => fx_set_contains(set, word_id.0),
        }
    }

    /// How the size of the filter is written: the number of word ids in
    /// its set, or the sign for infinity where it lets any word pass.
    pub open spec fn size_text(&self) -> Seq<char> {
        match self {
            CohaFilter::Any => seq!['\u{221e}'],
            CohaFilter::Hash(set) => decimal(set@.len()),
        }
    }

    /// The size of the filter as text.
    pub fn size(&self) -> (out: String)
        ensures
            out@ == self.size_text(),
    {
        let mut out = String::new();
        match self {
            CohaFilter::Any => {
                out.push('\u{221e}');
                assert(out@ =~= seq!['\u{221e}']);
            },
            CohaFilter::Hash(set) => {
                push_decimal(&mut out, fx_set_len(set));
                assert(out@ =~= decimal(set@.len()));
            },
        }
        out
    }
}

/// A labelled pattern: the filter of each position, in order.
pub struct CohaSearch<'a> {
    pub label: String,
    pub filter_list: Vec<&'a CohaFilter>,
}

/// Whether the tokens from position `i` on pass the filters, one token
/// for each filter.
pub open spec fn window_matches(filters: Seq<&CohaFilter>, tokens: Seq<Token>, i: int) -> bool {
    forall|j: int| 0 <= j < filters.len() ==> (#[trigger] filters[j]).accepts(tokens[i + j].word_id)
}

impl<'a> CohaSearch<'a> {
    /// The number of positions of the pattern.
    pub fn len(&self) -> (m: usize)
        ensures
            m == self.filter_list@.len(),
    {
        self.filter_list.len()
    }

    /// Whether the pattern matches `tokens` at start position `i`. The
    /// first filter that a token fails ends the test.
    pub fn matches_at(&self, tokens: &[Token], i: usize) -> (hit: bool)
        requires
            i + self.filter_list@.len() <= tokens@.len(),
        ensures
            hit == window_matches(self.filter_list@, tokens@, i as int),
    {
        let m = self.filter_list.len();
        let n = tokens.len();
        let mut j: usize = 0;
        while j < m
            invariant
                j <= m,
                m == self.filter_list@.len(),
                n == tokens@.len(),
                i + m <= n,
                forall|k: int|
                    0 <= k < j ==> (#[trigger] self.filter_list@[k]).accepts(
                        tokens@[i + k].word_id,
                    ),
            decreases m - j,
        {
            if !self.filter_list[j].matches(tokens[i + j].word_id) {
                return false;
            }
            j += 1;
        }
        true
    }

    /// The sizes of the filters, written one after another with a comma
    /// and a space between two of them.
    pub open spec fn sizes_text(&self) -> Seq<char> {
        joined(Seq::new(self.filter_list@.len(), |j: int| self.filter_list@[j].size_text()), ", "@)
    }

    /// The sizes of the filters as one line of text.
    pub fn filter_sizes(&self) -> (out: String)
        ensures
            out@ == self.sizes_text(),
    {
        let mut sizes: Vec<String> = Vec::new();
        let mut j: usize = 0;
        while j < self.filter_list.len()
            invariant
                j <= self.filter_list@.len(),
                sizes.deep_view() == Seq::new(j as nat, |k: int| self.filter_list@[k].size_text()),
            decreases self.filter_list@.len() - j,
        {
            let ghost before = sizes.deep_view();
            let size = self.filter_list[j].size();
            sizes.push(size);
            assert(sizes.deep_view() =~= before.push(size@));
            j += 1;
        }
        proof {
            reveal_strlit(", ");
        }
        join_cells(&sizes, ", ")
    }
}

} // verus!
