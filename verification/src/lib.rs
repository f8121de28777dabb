//! Search a tokenized historical corpus for fixed-length patterns of
//! per-position word filters.
//!
//! A corpus is a source table, a lexicon and a set of corpus files. A
//! search is a labelled list of filters, one for each position of a
//! pattern; every place in a text where each token passes the filter of
//! its position is a hit, and each hit becomes one row of a result table,
//! with up to thirty tokens of context on either side.
//!
//! The library computes on values: it is handed the content of files and
//! hands back rows. Reading and writing files is left to the caller.

pub mod coha;
pub mod corpus;
pub mod error;
pub mod filter;
pub mod fx;
pub mod hits;
pub mod laws;
pub mod lexicon;
pub mod model;
pub mod order;
pub mod output;
pub mod scan;
pub mod sources;
pub mod text;
pub mod tsv;

pub use coha::Coha;
pub use corpus::{read_corpus, CohaFile, CorpusEntry, CORPUS_DIR};
pub use error::CohaError;
pub use filter::{CohaFilter, CohaSearch};
pub use hits::{Hit, RunReport, CONTEXT};
pub use lexicon::{decode_bytes, read_lexicon, Lexicon, LEXICON_FILE};
pub use model::{Genre, Source, TextId, Token, TokenId, Word, WordId, Year};
pub use output::{output_file_name, OutputFile};
pub use scan::{Scan, SearchReport};
pub use sources::{read_sources, Sources, SOURCES_FILE};
pub use tsv::{tsv_err, TsvError};
