//! The records of the corpus: identifiers, genres, sources, words and
//! tokens, and how each is read from one tab-separated row.

use crate::text::{
    chars_eq, parse_u16, parse_uint_u16, parse_uint_usize, parse_usize, str_chars, string_of,
};
use crate::tsv::{
    cells, number_err, row_outcome, tsv_err, tsv_fields, tsv_split, RowFault, TsvError,
    TsvErrorView,
};
use vstd::prelude::*;
use vstd::string::StringExecFns;

verus! {

/// Identifies a source text.
#[derive(Copy, Debug, Clone, Eq, PartialEq, Ord, PartialOrd, Hash, Structural)]
pub struct TextId(pub usize);

/// Identifies a vocabulary entry; it is the entry's index in the lexicon.
#[derive(Copy, Debug, Clone, Eq, PartialEq, Ord, PartialOrd, Hash, Structural)]
pub struct WordId(pub usize);

/// The position of a token within its text.
#[derive(Copy, Debug, Clone, Eq, PartialEq, Ord, PartialOrd, Hash, Structural)]
pub struct TokenId(pub usize);

/// A year of publication.
#[derive(Copy, Debug, Clone, Eq, PartialEq, Ord, PartialOrd, Hash, Structural)]
pub struct Year(pub u16);

/// The genre of a source text.
#[derive(Copy, Debug, Clone, Eq, PartialEq, Structural)]
pub enum Genre {
    Fic,
    Mag,
    News,
    Nf,
}

impl Genre {
    /// The code that stands for the genre in the source table and in the
    /// result rows.
    pub open spec fn code(self) -> Seq<char> {
        match self {
            Genre::Fic => "FIC"@,
            Genre::Mag => "MAG"@,
            Genre::News => "NEWS"@,
            Genre::Nf => "NF"@,
        }
    }

    /// The genre that a code stands for, if it is one of the four.
    pub open spec fn of_code(s: Seq<char>) -> Option<Genre> {
        if s == "FIC"@ {
            Some(Genre::Fic)
        } else if s == "MAG"@ {
            Some(Genre::Mag)
        } else if s == "NEWS"@ {
            Some(Genre::News)
        } else if s == "NF"@ {
            Some(Genre::Nf)
        } else {
            None
        }
    }

    /// Reads a genre code given as characters.
    pub fn parse_chars(s: &[char]) -> (g: Option<Genre>)
        ensures
            g == Genre::of_code(s@),
    {
        if chars_eq(s, str_chars("FIC").as_slice()) {
            Some(Genre::Fic)
        } else if chars_eq(s, str_chars("MAG").as_slice()) {
            Some(Genre::Mag)
        } else if chars_eq(s, str_chars("NEWS").as_slice()) {
            Some(Genre::News)
        } else if chars_eq(s, str_chars("NF").as_slice()) {
            Some(Genre::Nf)
        } else {
            None
        }
    }

    /// Reads a genre code.
    pub fn parse(s: &str) -> (g: Option<Genre>)
        ensures
            g == Genre::of_code(s@),
    {
        Genre::parse_chars(str_chars(s).as_slice())
    }

    /// Reads a genre code found in the file `path`; a text that is no
    /// genre code becomes an error that quotes it.
    pub fn parse_for_files(path: &str, s: &str) -> (r: Result<Genre, TsvError>)
        ensures
            match Genre::of_code(s@) {
                Some(g) => r == Ok::<Genre, TsvError>(g),
                None => r is Err && r->Err_0@ == (TsvErrorView {
                    path: path@,
                    e: "invalid genre: "@ + s@,
                }),
            },
    {
        match Genre::parse(s) {
            None => {
                let mut e = String::from_str("invalid genre: ");
                e.append(s);
                Err(TsvError { path: String::from_str(path), e })
            },
            Some(x) => Ok(x),
        }
    }

    /// The genre's code as a string.
    pub fn name(&self) -> (out: &'static str)
        ensures
            out@ == self.code(),
    {
        match self {
            Genre::Fic => "FIC",
            Genre::Mag => "MAG",
            Genre::News => "NEWS",
            Genre::Nf => "NF",
        }
    }
}

/// The bibliographic record of one source text.
#[derive(Debug)]
pub struct Source {
    pub text_id: TextId,
    pub genre: Genre,
    pub year: Year,
    pub title: String,
    pub author: String,
}

/// A `Source` with its texts as character sequences.
pub struct SourceView {
    pub text_id: TextId,
    pub genre: Genre,
    pub year: Year,
    pub title: Seq<char>,
    pub author: Seq<char>,
}

impl View for Source {
    type V = SourceView;

    open spec fn view(&self) -> SourceView {
        SourceView {
            text_id: self.text_id,
            genre: self.genre,
            year: self.year,
            title: self.title@,
            author: self.author@,
        }
    }
}

/// One vocabulary entry.
#[derive(Debug)]
pub struct Word {
    pub word_id: WordId,
    pub word_cs: String,
    pub word: String,
    pub lemma: String,
    pub pos: String,
}

/// A `Word` with its texts as character sequences.
pub struct WordView {
    pub word_id: WordId,
    pub word_cs: Seq<char>,
    pub word: Seq<char>,
    pub lemma: Seq<char>,
    pub pos: Seq<char>,
}

impl View for Word {
    type V = WordView;

    open spec fn view(&self) -> WordView {
        WordView {
            word_id: self.word_id,
            word_cs: self.word_cs@,
            word: self.word@,
            lemma: self.lemma@,
            pos: self.pos@,
        }
    }
}

/// One occurrence of a word in a text.
#[derive(Copy, Debug, Clone, Eq, PartialEq, Structural)]
pub struct Token {
    pub text_id: TextId,
    pub token_id: TokenId,
    pub word_id: WordId,
}

impl View for Token {
    type V = Token;

    open spec fn view(&self) -> Token {
        *self
    }
}

/// What a row of the source table holds: text id, word count (not kept),
/// genre code, year, title, author; further fields are not read.
pub open spec fn source_row(fields: Seq<Seq<char>>) -> Result<SourceView, RowFault> {
    if fields.len() < 1 {
        Err(RowFault::MissingField)
    } else {
        match parse_uint_usize(fields[0], usize::MAX as nat) {
            Err(e) => Err(RowFault::BadNumber(e)),
            Ok(text_id) => if fields.len() < 3 {
                Err(RowFault::MissingField)
            } else {
                match Genre::of_code(fields[2]) {
                    None => Err(RowFault::InvalidGenre(fields[2])),
                    Some(genre) => if fields.len() < 4 {
                        Err(RowFault::MissingField)
                    } else {
                        match parse_uint_u16(fields[3]) {
                            Err(e) => Err(RowFault::BadNumber(e)),
                            Ok(year) => if fields.len() < 6 {
                                Err(RowFault::MissingField)
                            } else {
                                Ok(
                                    SourceView {
                                        text_id: TextId(text_id),
                                        genre,
                                        year: Year(year),
                                        title: fields[4],
                                        author: fields[5],
                                    },
                                )
                            },
                        }
                    },
                }
            },
        }
    }
}

impl Source {
    /// Reads a source from the fields of its row.
    pub fn parse_fields(path: &str, fields: &Vec<Vec<char>>) -> (r: Result<Source, TsvError>)
        ensures
            row_outcome(r, path@, source_row(cells(fields@))),
    {
        if fields.len() < 1 {
            return Err(tsv_err(path, "TSV field missing"));
        }
        let text_id = match parse_usize(fields[0].as_slice()) {
            Err(e) => {
                return Err(number_err(path, e));
            },
            Ok(v) => TextId(v),
        };
        if fields.len() < 3 {
            return Err(tsv_err(path, "TSV field missing"));
        }
        let genre = match Genre::parse_chars(fields[2].as_slice()) {
            None => {
                let mut e = String::from_str("invalid genre: ");
                let code = string_of(fields[2].as_slice());
                e.append(code.as_str());
                return Err(TsvError { path: String::from_str(path), e });
            },
            Some(g) => g,
        };
        if fields.len() < 4 {
            return Err(tsv_err(path, "TSV field missing"));
        }
        let year = match parse_u16(fields[3].as_slice()) {
            Err(e) => {
                return Err(number_err(path, e));
            },
            Ok(v) => Year(v),
        };
        if fields.len() < 6 {
            return Err(tsv_err(path, "TSV field missing"));
        }
        let title = string_of(fields[4].as_slice());
        let author = string_of(fields[5].as_slice());
        Ok(Source { text_id, genre, year, title, author })
    }

    /// Reads a source from one line of the source table.
    pub fn parse_chars(path: &str, line: &[char]) -> (r: Result<Source, TsvError>)
        ensures
            row_outcome(r, path@, source_row(tsv_fields(line@))),
    {
        let fields = tsv_split(line);
        Source::parse_fields(path, &fields)
    }

    /// Reads a source from one line of the source table in the file `path`.
    pub fn parse_tsv(path: &str, s: &str) -> (r: Result<Source, TsvError>)
        ensures
            row_outcome(r, path@, source_row(tsv_fields(s@))),
    {
        let line = str_chars(s);
        Source::parse_chars(path, line.as_slice())
    }
}

/// Whether `c` is a control character: U+0000 to U+001F, or U+007F to
/// U+009F.
pub open spec fn is_control(c: char) -> bool {
    c <= '\u{1f}' || ('\u{7f}' <= c && c <= '\u{9f}')
}

/// `s` without its control characters.
pub open spec fn without_control(s: Seq<char>) -> Seq<char> {
    s.filter(|c: char| !is_control(c))
}

/// Whether `c` is a control character.
pub fn char_is_control(c: char) -> (b: bool)
    ensures
        b == is_control(c),
{
    c <= '\u{1f}' || ('\u{7f}' <= c && c <= '\u{9f}')
}

/// A copy of the word form `x` without its control characters.
pub fn cleanup_chars(x: &[char]) -> (out: String)
    ensures
        out@ == without_control(x@),
{
    let mut out = String::new();
    let mut i: usize = 0;
    proof {
        reveal(Seq::filter);
    }
    while i < x.len()
        invariant
            i <= x.len(),
            out@ == without_control(x@.take(i as int)),
        decreases x.len() - i,
    {
        proof {
            reveal(Seq::filter);
            assert(x@.take(i + 1).drop_last() =~= x@.take(i as int));
        }
        if !char_is_control(x[i]) {
            out.push(x[i]);
        }
        i += 1;
    }
    assert(x@.take(x.len() as int) =~= x@);
    out
}

/// A copy of the word form `x` without its control characters.
pub fn word_cleanup(x: &str) -> (out: String)
    ensures
        out@ == without_control(x@),
{
    cleanup_chars(str_chars(x).as_slice())
}

/// What a row of the lexicon holds: word id, the case-sensitive form, the
/// lowercased form, lemma and part of speech. Control characters are
/// taken out of the two forms.
pub open spec fn word_row(fields: Seq<Seq<char>>) -> Result<WordView, RowFault> {
    if fields.len() < 1 {
        Err(RowFault::MissingField)
    } else {
        match parse_uint_usize(fields[0], usize::MAX as nat) {
            Err(e) => Err(RowFault::BadNumber(e)),
            Ok(word_id) => if fields.len() < 5 {
                Err(RowFault::MissingField)
            } else {
                Ok(
                    WordView {
                        word_id: WordId(word_id),
                        word_cs: without_control(fields[1]),
                        word: without_control(fields[2]),
                        lemma: fields[3],
                        pos: fields[4],
                    },
                )
            },
        }
    }
}

impl Word {
    /// Reads a word from the fields of its row.
    pub fn parse_fields(path: &str, fields: &Vec<Vec<char>>) -> (r: Result<Word, TsvError>)
        ensures
            row_outcome(r, path@, word_row(cells(fields@))),
    {
        if fields.len() < 1 {
            return Err(tsv_err(path, "TSV field missing"));
        }
        let word_id = match parse_usize(fields[0].as_slice()) {
            Err(e) => {
                return Err(number_err(path, e));
            },
            Ok(v) => WordId(v),
        };
        if fields.len() < 5 {
            return Err(tsv_err(path, "TSV field missing"));
        }
        let word_cs = cleanup_chars(fields[1].as_slice());
        let word = cleanup_chars(fields[2].as_slice());
        let lemma = string_of(fields[3].as_slice());
        let pos = string_of(fields[4].as_slice());
        Ok(Word { word_id, word_cs, word, lemma, pos })
    }

    /// Reads a word from one line of the lexicon.
    pub fn parse_chars(path: &str, line: &[char]) -> (r: Result<Word, TsvError>)
        ensures
            row_outcome(r, path@, word_row(tsv_fields(line@))),
    {
        let fields = tsv_split(line);
        Word::parse_fields(path, &fields)
    }

    /// Reads a word from one line of the lexicon in the file `path`.
    pub fn parse_tsv(path: &str, s: &str) -> (r: Result<Word, TsvError>)
        ensures
            row_outcome(r, path@, word_row(tsv_fields(s@))),
    {
        let line = str_chars(s);
        Word::parse_chars(path, line.as_slice())
    }
}

/// What a row of a corpus file holds: text id, token id, word id.
pub open spec fn token_row(fields: Seq<Seq<char>>) -> Result<Token, RowFault> {
    if fields.len() < 1 {
        Err(RowFault::MissingField)
    } else {
        match parse_uint_usize(fields[0], usize::MAX as nat) {
            Err(e) => Err(RowFault::BadNumber(e)),
            Ok(text_id) => if fields.len() < 2 {
                Err(RowFault::MissingField)
            } else {
                match parse_uint_usize(fields[1], usize::MAX as nat) {
                    Err(e) => Err(RowFault::BadNumber(e)),
                    Ok(token_id) => if fields.len() < 3 {
                        Err(RowFault::MissingField)
                    } else {
                        match parse_uint_usize(fields[2], usize::MAX as nat) {
                            Err(e) => Err(RowFault::BadNumber(e)),
                            Ok(word_id) => Ok(
                                Token {
                                    text_id: TextId(text_id),
                                    token_id: TokenId(token_id),
                                    word_id: WordId(word_id),
                                },
                            ),
                        }
                    },
                }
            },
        }
    }
}

impl Token {
    /// Reads a token from the fields of its row.
    pub fn parse_fields(path: &str, fields: &Vec<Vec<char>>) -> (r: Result<Token, TsvError>)
        ensures
            row_outcome(r, path@, token_row(cells(fields@))),
    {
        if fields.len() < 1 {
            return Err(tsv_err(path, "TSV field missing"));
        }
        let text_id = match parse_usize(fields[0].as_slice()) {
            Err(e) => {
                return Err(number_err(path, e));
            },
            Ok(v) => TextId(v),
        };
        if fields.len() < 2 {
            return Err(tsv_err(path, "TSV field missing"));
        }
        let token_id = match parse_usize(fields[1].as_slice()) {
            Err(e) => {
                return Err(number_err(path, e));
            },
            Ok(v) => TokenId(v),
        };
        if fields.len() < 3 {
            return Err(tsv_err(path, "TSV field missing"));
        }
        let word_id = match parse_usize(fields[2].as_slice()) {
            Err(e) => {
                return Err(number_err(path, e));
            },
            Ok(v) => WordId(v),
        };
        Ok(Token { text_id, token_id, word_id })
    }

    /// Reads a token from one line of a corpus file.
    pub fn parse_chars(path: &str, line: &[char]) -> (r: Result<Token, TsvError>)
        ensures
            row_outcome(r, path@, token_row(tsv_fields(line@))),
    {
        let fields = tsv_split(line);
        Token::parse_fields(path, &fields)
    }

    /// Reads a token from one line of the corpus file `path`.
    pub fn parse_tsv(path: &str, s: &str) -> (r: Result<Token, TsvError>)
        ensures
            row_outcome(r, path@, token_row(tsv_fields(s@))),
    {
        let line = str_chars(s);
        Token::parse_chars(path, line.as_slice())
    }
}

} // verus!
