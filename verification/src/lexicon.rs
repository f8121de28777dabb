//! The lexicon: a dense vector of vocabulary entries in which the entry
//! with word id `i` stands at index `i`, and an id that the vocabulary
//! file skips leaves a gap.

use crate::model::{word_row, Word, WordId, WordView};
use crate::text::str_chars;
use crate::tsv::{
    cells, fault_reason, header_outcome, line_at, lines_of, names_of, nth_line, split_lines,
    tsv_check_header, tsv_err, tsv_fields, TsvError, TsvErrorView,
};
use vstd::prelude::*;

verus! {

/// Where the vocabulary file lies below the root directory of the corpus.
pub const LEXICON_FILE: &'static str = "shared/coha_lexicon.txt";

/// The vocabulary, indexed by word id.
pub struct Lexicon {
    entries: Vec<Option<Word>>,
}

/// The entries of a lexicon as values: `None` is a gap.
pub type LexiconView = Seq<Option<WordView>>;

/// The number of gaps in `lex`.
pub open spec fn gap_count(lex: LexiconView) -> nat {
    lex.filter(|e: Option<WordView>| e is None).len()
}

/// Whether every entry of `lex` stands at the index that its word id names.
pub open spec fn indexed_by_id(lex: LexiconView) -> bool {
    forall|i: int|
        0 <= i < lex.len() && (#[trigger] lex[i]) is Some ==> lex[i]->Some_0.word_id.0 == i
}

/// `lex` with `word` added behind it: gaps fill the indices up to the
/// word's id, and the word stands at its id. `None` where the id is
/// already within `lex`.
pub open spec fn extended(lex: LexiconView, word: WordView) -> Option<LexiconView> {
    if word.word_id.0 < lex.len() {
        None
    } else {
        Some(
            (lex + Seq::new(
                (word.word_id.0 - lex.len()) as nat,
                |i: int| None::<WordView>,
            )).push(Some(word)),
        )
    }
}

/// The reason given for a word id that does not lie behind all earlier ones.
pub open spec fn not_increasing() -> Seq<char> {
    "word IDs not increasing"@
}

/// The lexicon that the data lines of a vocabulary file build, line by
/// line, or the reason of the first line that cannot be taken: a row
/// fault, or a word id within what is already built.
pub open spec fn lexicon_rows(lines: Seq<Seq<char>>) -> Result<LexiconView, Seq<char>>
    decreases lines.len(),
{
    if lines.len() == 0 {
        Ok(Seq::empty())
    } else {
        match lexicon_rows(lines.drop_last()) {
            Err(reason) => Err(reason),
            Ok(lex) => match word_row(tsv_fields(lines.last())) {
                Err(fault) => Err(fault_reason(fault)),
                Ok(word) => match extended(lex, word) {
                    None => Err(not_increasing()),
                    Some(longer) => Ok(longer),
                },
            },
        }
    }
}

/// The column names of the vocabulary file.
pub open spec fn lexicon_header() -> Seq<Seq<char>> {
    seq!["wID"@, "wordCS"@, "word"@, "lemma"@, "PoS"@]
}

/// The line of dashes under the column names.
pub open spec fn lexicon_separator() -> Seq<Seq<char>> {
    seq!["----"@, "----"@, "----"@, "----"@, "----"@]
}

/// The empty line that ends the header.
pub open spec fn lexicon_blank() -> Seq<Seq<char>> {
    seq![""@]
}

/// The lexicon that a decoded vocabulary file holds, or the reason of its
/// first fault: three header lines, checked in turn, then the data lines.
pub open spec fn lexicon_file(text: Seq<char>) -> Result<LexiconView, Seq<char>> {
    let lines = lines_of(text);
    match header_outcome(line_at(lines, 0), lexicon_header()) {
        Err(reason) => Err(reason),
        Ok(_) => match header_outcome(line_at(lines, 1), lexicon_separator()) {
            Err(reason) => Err(reason),
            Ok(_) => match header_outcome(line_at(lines, 2), lexicon_blank()) {
                Err(reason) => Err(reason),
                Ok(_) => lexicon_rows(lines.skip(3)),
            },
        },
    }
}

/// The values of a vector of entries.
pub open spec fn entries_view(entries: Seq<Option<Word>>) -> LexiconView {
    Seq::new(
        entries.len(),
        |i: int|
            match entries[i] {
                Some(w) => Some(w@),
                None => None,
            },
    )
}

impl View for Lexicon {
    type V = LexiconView;

    open spec fn view(&self) -> LexiconView {
        entries_view(self.entries())
    }
}

impl Lexicon {
    /// The entries themselves, gaps as `None`.
    pub closed spec fn entries(&self) -> Seq<Option<Word>> {
        self.entries@
    }

    #[verifier::type_invariant]
    spec fn entries_stand_at_their_ids(self) -> bool {
        indexed_by_id(self@)
    }

    /// The empty lexicon.
    pub fn new() -> (lex: Lexicon)
        ensures
            lex@ == Seq::<Option<WordView>>::empty(),
    {
        let lex = Lexicon { entries: Vec::new() };
        assert(lex@ =~= Seq::<Option<WordView>>::empty());
        lex
    }

    /// The number of indices, gaps included.
    pub fn len(&self) -> (n: usize)
        ensures
            n == self@.len(),
            indexed_by_id(self@),
    {
        proof {
            use_type_invariant(self);
        }
        self.entries.len()
    }

    /// The number of gaps.
    pub fn padding(&self) -> (n: usize)
        ensures
            n == gap_count(self@),
            n <= self@.len(),
    {
        let mut n: usize = 0;
        let mut i: usize = 0;
        proof {
            reveal(Seq::filter);
        }
        while i < self.entries.len()
            invariant
                i <= self.entries@.len(),
                n <= i,
                n == gap_count(self@.take(i as int)),
            decreases self.entries@.len() - i,
        {
            proof {
                reveal(Seq::filter);
                assert(self@.take(i + 1).drop_last() =~= self@.take(i as int));
            }
            if self.entries[i].is_none() {
                n += 1;
            }
            i += 1;
        }
        assert(self@.take(i as int) =~= self@);
        n
    }

    /// The entry at `word_id`, if the id is within the lexicon and no gap.
    pub fn get(&self, word_id: WordId) -> (entry: Option<&Word>)
        ensures
            match entry {
                Some(w) => 0 <= word_id.0 < self@.len() && self.entries()[word_id.0 as int] == Some(
                    *w,
                ) && w.word_id == word_id,
                None => !(0 <= word_id.0 < self@.len()) || self.entries()[word_id.0 as int] is None,
            },
    {
        proof {
            use_type_invariant(self);
        }
        if word_id.0 < self.entries.len() {
            match &self.entries[word_id.0] {
                Some(w) => {
                    assert(self@[word_id.0 as int] == Some(w@));
                    Some(w)
                },
                None => None,
            }
        } else {
            None
        }
    }

    /// The lexicon with `word` added behind all entries, with gaps up to
    /// its id; `None` for a word whose id lies within the lexicon.
    pub fn with_word(self, word: Word) -> (r: Option<Lexicon>)
        ensures
            match extended(self@, word@) {
                Some(longer) => r is Some && r->Some_0@ == longer,
                None => r is None,
            },
    {
        proof {
            use_type_invariant(&self);
        }
        let target = word.word_id.0;
        let ghost start = self@;
        let mut entries = self.entries;
        if target < entries.len() {
            return None;
        }
        let ghost first = entries@.len();
        while target > entries.len()
            invariant
                first <= entries@.len() <= target,
                start.len() == first,
                indexed_by_id(entries_view(entries@)),
                entries_view(entries@) == start + Seq::new(
                    (entries@.len() - first) as nat,
                    |i: int| None::<WordView>,
                ),
            decreases target - entries@.len(),
        {
            let ghost before = entries_view(entries@);
            entries.push(None);
            proof {
                assert(entries_view(entries@) =~= before.push(None));
                assert(entries_view(entries@) =~= start + Seq::new(
                    (entries@.len() - first) as nat,
                    |i: int| None::<WordView>,
                ));
            }
        }
        let ghost before = entries_view(entries@);
        let ghost shown = word@;
        entries.push(Some(word));
        proof {
            assert(entries_view(entries@) =~= before.push(Some(shown)));
        }
        Some(Lexicon { entries })
    }
}

/// The text that `bytes` stand for in a single-byte encoding whose byte
/// `b` is the character `table[b]`.
pub open spec fn decoded(bytes: Seq<u8>, table: Seq<char>) -> Seq<char> {
    Seq::new(bytes.len(), |i: int| table[bytes[i] as int])
}

/// Decodes the bytes of a file in a single-byte encoding, given the
/// character of each of the 256 byte values.
pub fn decode_bytes(bytes: &[u8], table: &[char; 256]) -> (text: String)
    ensures
        text@ == decoded(bytes@, table@),
{
    let mut text = String::new();
    let mut i: usize = 0;
    while i < bytes.len()
        invariant
            i <= bytes.len(),
            text@ == decoded(bytes@.take(i as int), table@),
        decreases bytes.len() - i,
    {
        let c = table[bytes[i] as usize];
        text.push(c);
        assert(text@ =~= decoded(bytes@.take(i + 1), table@));
        i += 1;
    }
    assert(bytes@.take(i as int) =~= bytes@);
    text
}

/// Reads the lexicon from the decoded text of the vocabulary file `path`.
pub fn read_lexicon(path: &str, text: &str) -> (r: Result<Lexicon, TsvError>)
    ensures
        match lexicon_file(text@) {
            Ok(lex) => r is Ok && r->Ok_0@ == lex,
            Err(reason) => r is Err && r->Err_0@ == (TsvErrorView { path: path@, e: reason }),
        },
{
    let chars = str_chars(text);
    let lines = split_lines(chars.as_slice());
    let ghost all = lines_of(text@);

    let header: Vec<&str> = vec!["wID", "wordCS", "word", "lemma", "PoS"];
    let separator: Vec<&str> = vec!["----", "----", "----", "----", "----"];
    let blank: Vec<&str> = vec![""];
    proof {
        assert(names_of(header@) =~= lexicon_header());
        assert(names_of(separator@) =~= lexicon_separator());
        assert(names_of(blank@) =~= lexicon_blank());
    }
    match tsv_check_header(path, nth_line(&lines, 0), header.as_slice()) {
        Err(e) => {
            return Err(e);
        },
        Ok(_) => {},
    }
    match tsv_check_header(path, nth_line(&lines, 1), separator.as_slice()) {
        Err(e) => {
            return Err(e);
        },
        Ok(_) => {},
    }
    match tsv_check_header(path, nth_line(&lines, 2), blank.as_slice()) {
        Err(e) => {
            return Err(e);
        },
        Ok(_) => {},
    }
    let ghost rows = all.skip(3);
    let mut lexicon = Lexicon::new();
    let mut k: usize = 3;
    assert(rows.take(0) =~= Seq::<Seq<char>>::empty());
    while k < lines.len()
        invariant
            3 <= k <= lines.len(),
            cells(lines@) == all,
            all == lines_of(text@),
            header_outcome(line_at(all, 0), lexicon_header()) is Ok,
            header_outcome(line_at(all, 1), lexicon_separator()) is Ok,
            header_outcome(line_at(all, 2), lexicon_blank()) is Ok,
            rows == all.skip(3),
            lexicon_rows(rows.take(k - 3)) == Ok::<LexiconView, Seq<char>>(lexicon@),
        decreases lines.len() - k,
    {
        proof {
            assert(rows.take(k - 3 + 1).drop_last() =~= rows.take(k - 3));
            assert(rows.take(k - 3 + 1).last() == lines@[k as int]@);
        }
        let word = match Word::parse_chars(path, lines[k].as_slice()) {
            Err(e) => {
                proof {
                    lemma_rows_fault_extends(rows, (k - 3 + 1) as int);
                }
                return Err(e);
            },
            Ok(w) => w,
        };
        lexicon = match lexicon.with_word(word) {
            None => {
                proof {
                    lemma_rows_fault_extends(rows, (k - 3 + 1) as int);
                }
                return Err(tsv_err(path, "word IDs not increasing"));
            },
            Some(longer) => longer,
        };
        k += 1;
    }
    assert(rows.take(k - 3) =~= rows);
    Ok(lexicon)
}

/// Once a prefix of the data lines has a fault, all of them have that fault.
pub proof fn lemma_rows_fault_extends(lines: Seq<Seq<char>>, k: int)
    requires
        0 <= k <= lines.len(),
        lexicon_rows(lines.take(k)) is Err,
    ensures
        lexicon_rows(lines) == lexicon_rows(lines.take(k)),
    decreases lines.len() - k,
{
    if k == lines.len() {
        assert(lines.take(k) =~= lines);
    } else {
        assert(lines.take(k + 1).drop_last() =~= lines.take(k));
        lemma_rows_fault_extends(lines, k + 1);
    }
}

} // verus!
