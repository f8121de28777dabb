//! The source table: the bibliographic record of each text, by text id.

use crate::fx::{fx_map_get, fx_map_insert, fx_map_len};
use crate::model::{source_row, Source, SourceView, TextId};
use crate::text::str_chars;
use crate::tsv::{
    cells, fault_reason, header_outcome, line_at, lines_of, names_of, nth_line, split_lines,
    tsv_check_header, tsv_fields, TsvError, TsvErrorView,
};
use rustc_hash::FxHashMap;
use vstd::prelude::*;

verus! {

/// Where the source table lies below the root directory of the corpus.
pub const SOURCES_FILE: &'static str = "shared/coha_sources.utf8.txt";

/// The source table. A text id has at most one record.
pub struct Sources {
    map: FxHashMap<usize, Source>,
}

/// The records of a source table as values, by text id.
pub type SourcesView = Map<usize, SourceView>;

impl View for Sources {
    type V = SourcesView;

    closed spec fn view(&self) -> SourcesView {
        Map::new(|k: usize| self.map@.contains_key(k), |k: usize| self.map@[k]@)
    }
}

impl Sources {
    /// The empty table.
    pub fn new() -> (table: Sources)
        ensures
            table@ == Map::<usize, SourceView>::empty(),
    {
        let table = Sources { map: FxHashMap::default() };
        assert(table@ =~= Map::<usize, SourceView>::empty());
        table
    }

    /// Records `source` under its text id, in place of any earlier record
    /// of that id.
    pub fn insert(&mut self, source: Source)
        ensures
            final(self)@ == old(self)@.insert(source.text_id.0, source@),
    {
        let key = source.text_id.0;
        let ghost shown = source@;
        let _ = fx_map_insert(&mut self.map, key, source);
        assert(self@ =~= old(self)@.insert(key, shown));
    }

    /// The record of `text_id`, if the table has one.
    pub fn get(&self, text_id: TextId) -> (found: Option<&Source>)
        ensures
            match found {
                Some(source) => self@.contains_key(text_id.0) && self@[text_id.0] == source@,
                None => !self@.contains_key(text_id.0),
            },
    {
        fx_map_get(&self.map, text_id.0)
    }

    /// The number of records.
    pub fn len(&self) -> (n: usize)
        ensures
            n == self@.dom().len(),
    {
        let n = fx_map_len(&self.map);
        assert(self@.dom() =~= self.map@.dom());
        n
    }
}

/// The column names of the source table.
pub open spec fn sources_header() -> Seq<Seq<char>> {
    seq![
        "textID"@,
        " # words "@,
        "genre"@,
        "year"@,
        "title"@,
        "author"@,
        "Publication information"@,
        "Library of Congress classification (NF)"@,
        "FIXED"@,
    ]
}

/// The table that the data lines of a source file build, line by line,
/// a later record of a text id taking the place of an earlier one; or the
/// reason of the first line with a row fault.
pub open spec fn source_rows(lines: Seq<Seq<char>>) -> Result<SourcesView, Seq<char>>
    decreases lines.len(),
{
    if lines.len() == 0 {
        Ok(Map::empty())
    } else {
        match source_rows(lines.drop_last()) {
            Err(reason) => Err(reason),
            Ok(table) => match source_row(tsv_fields(lines.last())) {
                Err(fault) => Err(fault_reason(fault)),
                Ok(source) => Ok(table.insert(source.text_id.0, source)),
            },
        }
    }
}

/// The table that a source file holds, or the reason of its first fault:
/// the header line, then the data lines.
pub open spec fn sources_file(text: Seq<char>) -> Result<SourcesView, Seq<char>> {
    let lines = lines_of(text);
    match header_outcome(line_at(lines, 0), sources_header()) {
        Err(reason) => Err(reason),
        Ok(_) => source_rows(lines.skip(1)),
    }
}

/// Once a prefix of the data lines has a fault, all of them have that fault.
pub proof fn lemma_source_fault_extends(lines: Seq<Seq<char>>, k: int)
    requires
        0 <= k <= lines.len(),
        source_rows(lines.take(k)) is Err,
    ensures
        source_rows(lines) == source_rows(lines.take(k)),
    decreases lines.len() - k,
{
    if k == lines.len() {
        assert(lines.take(k) =~= lines);
    } else {
        assert(lines.take(k + 1).drop_last() =~= lines.take(k));
        lemma_source_fault_extends(lines, k + 1);
    }
}

/// Reads the source table from the text of the file `path`.
pub fn read_sources(path: &str, text: &str) -> (r: Result<Sources, TsvError>)
    ensures
        match sources_file(text@) {
            Ok(table) => r is Ok && r->Ok_0@ == table,
            Err(reason) => r is Err && r->Err_0@ == (TsvErrorView { path: path@, e: reason }),
        },
{
    let chars = str_chars(text);
    let lines = split_lines(chars.as_slice());
    let ghost all = lines_of(text@);

    let header: Vec<&str> = vec![
        "textID",
        " # words ",
        "genre",
        "year",
        "title",
        "author",
        "Publication information",
        "Library of Congress classification (NF)",
        "FIXED",
    ];
    proof {
        assert(names_of(header@) =~= sources_header());
    }
    match tsv_check_header(path, nth_line(&lines, 0), header.as_slice()) {
        Err(e) => {
            return Err(e);
        },
        Ok(_) => {},
    }
    let ghost rows = all.skip(1);
    let mut sources = Sources::new();
    let mut k: usize = 1;
    assert(rows.take(0) =~= Seq::<Seq<char>>::empty());
    while k < lines.len()
        invariant
            1 <= k <= lines.len(),
            cells(lines@) == all,
            all == lines_of(text@),
            header_outcome(line_at(all, 0), sources_header()) is Ok,
            rows == all.skip(1),
            source_rows(rows.take(k - 1)) == Ok::<SourcesView, Seq<char>>(sources@),
        decreases lines.len() - k,
    {
        proof {
            assert(rows.take(k - 1 + 1).drop_last() =~= rows.take(k - 1));
            assert(rows.take(k - 1 + 1).last() == lines@[k as int]@);
        }
        let source = match Source::parse_chars(path, lines[k].as_slice()) {
            Err(e) => {
                proof {
                    lemma_source_fault_extends(rows, (k - 1 + 1) as int);
                }
                return Err(e);
            },
            Ok(s) => s,
        };
        sources.insert(source);
        k += 1;
    }
    assert(rows.take(k - 1) =~= rows);
    Ok(sources)
}

} // verus!
