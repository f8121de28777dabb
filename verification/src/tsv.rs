//! Tab-separated rows: splitting a text into lines and a line into
//! fields, the header check, and the error every structural fault becomes.

use crate::text::{chars_eq, str_chars, IntFault};
use vstd::prelude::*;
use vstd::string::StringExecFns;

verus! {

/// A structural fault in a tab-separated file: the file and the reason.
#[derive(Debug)]
pub struct TsvError {
    pub path: String,
    pub e: String,
}

/// The two texts of a `TsvError`.
pub struct TsvErrorView {
    pub path: Seq<char>,
    pub e: Seq<char>,
}

impl View for TsvError {
    type V = TsvErrorView;

    open spec fn view(&self) -> TsvErrorView {
        TsvErrorView { path: self.path@, e: self.e@ }
    }
}

impl TsvError {
    /// The one-line message: the path, a colon and a space, the reason.
    pub fn message(&self) -> (out: String)
        ensures
            out@ == self.path@ + ": "@ + self.e@,
    {
        let mut out = String::from_str(self.path.as_str());
        out.append(": ");
        out.append(self.e.as_str());
        out
    }
}

/// The error for `path` with reason `e`.
pub fn tsv_err(path: &str, e: &str) -> (err: TsvError)
    ensures
        err@ == (TsvErrorView { path: path@, e: e@ }),
{
    TsvError { path: String::from_str(path), e: String::from_str(e) }
}

/// What can be wrong with one data row.
pub enum RowFault {
    /// The row has fewer fields than the record needs.
    MissingField,
    /// A numeric field is no unsigned decimal integer of its type.
    BadNumber(IntFault),
    /// The genre field is none of the four genre codes; it holds this text.
    InvalidGenre(Seq<char>),
}

/// The reason text of a row fault.
pub open spec fn fault_reason(fault: RowFault) -> Seq<char> {
    match fault {
        RowFault::MissingField => "TSV field missing"@,
        RowFault::BadNumber(IntFault::Empty) => "cannot parse integer from empty string"@,
        RowFault::BadNumber(IntFault::InvalidDigit) => "invalid digit found in string"@,
        RowFault::BadNumber(IntFault::Overflow) => "number too large to fit in target type"@,
        RowFault::InvalidGenre(code) => "invalid genre: "@ + code,
    }
}

/// The error for a numeric field of `path` that failed with `fault`.
pub fn number_err(path: &str, fault: IntFault) -> (err: TsvError)
    ensures
        err@ == (TsvErrorView { path: path@, e: fault_reason(RowFault::BadNumber(fault)) }),
{
    match fault {
        IntFault::Empty => tsv_err(path, "cannot parse integer from empty string"),
        IntFault::InvalidDigit => tsv_err(path, "invalid digit found in string"),
        IntFault::Overflow => tsv_err(path, "number too large to fit in target type"),
    }
}

/// Whether `r` is what parsing a row of `path` owes when the row itself
/// reads as `expected`: the record, or the error that names `path` and
/// gives the fault's reason.
pub open spec fn row_outcome<T: View>(
    r: Result<T, TsvError>,
    path: Seq<char>,
    expected: Result<T::V, RowFault>,
) -> bool {
    match expected {
        Ok(v) => r is Ok && r->Ok_0@ == v,
        Err(fault) => r is Err && r->Err_0@ == (TsvErrorView {
            path: path,
            e: fault_reason(fault),
        }),
    }
}

/// Whether `c` ends a line: a line feed or a carriage return.
pub open spec fn is_line_end(c: char) -> bool {
    c == '\n' || c == '\r'
}

/// `s` without its trailing line feeds and carriage returns.
pub open spec fn trim_line(s: Seq<char>) -> Seq<char>
    decreases s.len(),
{
    if s.len() > 0 && is_line_end(s.last()) {
        trim_line(s.drop_last())
    } else {
        s
    }
}

/// The pieces of `s` between occurrences of `sep`. There is always at
/// least one piece; a text without `sep` is its own single piece.
pub open spec fn split_on(s: Seq<char>, sep: char) -> Seq<Seq<char>>
    decreases s.len(),
{
    if s.len() == 0 {
        seq![Seq::empty()]
    } else {
        let before = split_on(s.drop_last(), sep);
        if s.last() == sep {
            before.push(Seq::empty())
        } else {
            before.drop_last().push(before.last().push(s.last()))
        }
    }
}

/// The fields of one line: the line without its terminators, split on tabs.
pub open spec fn tsv_fields(line: Seq<char>) -> Seq<Seq<char>> {
    split_on(trim_line(line), '\t')
}

/// The texts that the vectors of `fields` hold.
pub open spec fn cells(fields: Seq<Vec<char>>) -> Seq<Seq<char>> {
    Seq::new(fields.len(), |i: int| fields[i]@)
}

/// If `s` is cut where everything behind the cut is a line end and the
/// character before the cut is none, the cut is where `trim_line` cuts.
pub proof fn lemma_trim_at(s: Seq<char>, end: int)
    requires
        0 <= end <= s.len(),
        forall|k: int| end <= k < s.len() ==> is_line_end(#[trigger] s[k]),
        end > 0 ==> !is_line_end(s[end - 1]),
    ensures
        trim_line(s) == s.take(end),
    decreases s.len() - end,
{
    if end == s.len() {
        assert(s.take(end) =~= s);
    } else {
        assert(is_line_end(s[s.len() - 1]));
        lemma_trim_at(s.drop_last(), end);
        assert(s.drop_last().take(end) =~= s.take(end));
    }
}

/// Splits one line into its fields.
pub fn tsv_split(s: &[char]) -> (fields: Vec<Vec<char>>)
    ensures
        cells(fields@) == tsv_fields(s@),
        fields@.len() >= 1,
{
    let mut end: usize = s.len();
    while end > 0 && (s[end - 1] == '\n' || s[end - 1] == '\r')
        invariant
            end <= s.len(),
            forall|k: int| end <= k < s.len() ==> is_line_end(#[trigger] s@[k]),
        decreases end,
    {
        end -= 1;
    }
    proof {
        lemma_trim_at(s@, end as int);
    }
    let ghost body = s@.take(end as int);
    let mut fields: Vec<Vec<char>> = Vec::new();
    let mut current: Vec<char> = Vec::new();
    let mut i: usize = 0;
    while i < end
        invariant
            i <= end <= s.len(),
            body == s@.take(end as int),
            cells(fields@).push(current@) == split_on(body.take(i as int), '\t'),
        decreases end - i,
    {
        let c = s[i];
        let ghost before = split_on(body.take(i as int), '\t');
        assert(body.take(i + 1).drop_last() =~= body.take(i as int));
        assert(body.take(i + 1).last() == c);
        if c == '\t' {
            let ghost old_cells = cells(fields@);
            fields.push(current);
            assert(cells(fields@) =~= old_cells.push(current@));
            current = Vec::new();
        } else {
            assert(before.drop_last() =~= cells(fields@));
            current.push(c);
        }
        i += 1;
    }
    assert(body.take(end as int) =~= body);
    let ghost old_cells = cells(fields@);
    fields.push(current);
    assert(cells(fields@) =~= old_cells.push(current@));
    fields
}

/// The lines of a text: each line runs up to and including its line feed;
/// what follows the last line feed, if anything, is a final line without one.
pub open spec fn lines_of(text: Seq<char>) -> Seq<Seq<char>>
    decreases text.len(),
{
    if text.len() == 0 {
        Seq::empty()
    } else {
        let before = lines_of(text.drop_last());
        if before.len() > 0 && before.last().last() != '\n' {
            before.drop_last().push(before.last().push(text.last()))
        } else {
            before.push(seq![text.last()])
        }
    }
}

/// Splits a text into its lines, each with its line feed.
pub fn split_lines(text: &[char]) -> (lines: Vec<Vec<char>>)
    ensures
        cells(lines@) == lines_of(text@),
{
    let mut lines: Vec<Vec<char>> = Vec::new();
    let mut current: Vec<char> = Vec::new();
    let mut i: usize = 0;
    while i < text.len()
        invariant
            i <= text.len(),
            current@.len() > 0 ==> current@.last() != '\n',
            lines_of(text@.take(i as int)) == if current@.len() > 0 {
                cells(lines@).push(current@)
            } else {
                cells(lines@)
            },
            forall|k: int|
                0 <= k < lines@.len() ==> (#[trigger] lines@[k])@.len() > 0 && lines@[k]@.last()
                    == '\n',
        decreases text.len() - i,
    {
        let c = text[i];
        let ghost before = lines_of(text@.take(i as int));
        assert(text@.take(i + 1).drop_last() =~= text@.take(i as int));
        assert(text@.take(i + 1).last() == c);
        let ghost old_cells = cells(lines@);
        if current.len() > 0 {
            assert(before.last() == current@);
            assert(before.drop_last() =~= old_cells);
        } else {
            assert(lines@.len() > 0 ==> before.last() == lines@[lines@.len() - 1]@);
        }
        let ghost was_empty = current@.len() == 0;
        current.push(c);
        assert(was_empty ==> current@ =~= seq![c]);
        assert(lines_of(text@.take(i + 1)) =~= old_cells.push(current@));
        if c == '\n' {
            lines.push(current);
            assert(cells(lines@) =~= old_cells.push(current@));
            current = Vec::new();
        }
        i += 1;
    }
    assert(text@.take(text.len() as int) =~= text@);
    if current.len() > 0 {
        let ghost old_cells = cells(lines@);
        lines.push(current);
        assert(cells(lines@) =~= old_cells.push(current@));
    }
    lines
}

/// Line `k` of `lines`, or `None` behind the last line.
pub open spec fn line_at(lines: Seq<Seq<char>>, k: int) -> Option<Seq<char>> {
    if 0 <= k < lines.len() {
        Some(lines[k])
    } else {
        None
    }
}

/// Line `k` of `lines`, or `None` behind the last line.
pub fn nth_line(lines: &Vec<Vec<char>>, k: usize) -> (line: Option<&[char]>)
    ensures
        match line {
            Some(l) => Some(l@),
            None => None,
        } == line_at(cells(lines@), k as int),
{
    if k < lines.len() {
        Some(lines[k].as_slice())
    } else {
        None
    }
}

/// The texts of the string slices of `names`.
pub open spec fn names_of(names: Seq<&str>) -> Seq<Seq<char>> {
    Seq::new(names.len(), |i: int| names[i]@)
}

/// What the header check owes for a header line, or for none at the end
/// of the file, against the expected column names.
pub open spec fn header_outcome(line: Option<Seq<char>>, expected: Seq<Seq<char>>) -> Result<
    (),
    Seq<char>,
> {
    match line {
        None => Err("header missing"@),
        Some(l) => if tsv_fields(l) == expected {
            Ok(())
        } else {
            Err("unexpected headers"@)
        },
    }
}

/// Checks that a header line holds exactly the expected column names.
/// `line` is `None` where the file ended before the header.
pub fn tsv_check_header(path: &str, line: Option<&[char]>, exp_header: &[&str]) -> (r: Result<
    (),
    TsvError,
>)
    ensures
        match header_outcome(
            match line {
                Some(l) => Some(l@),
                None => None,
            },
            names_of(exp_header@),
        ) {
            Ok(_) => r is Ok,
            Err(reason) => r is Err && r->Err_0@ == (TsvErrorView { path: path@, e: reason }),
        },
{
    let l = match line {
        None => {
            return Err(tsv_err(path, "header missing"));
        },
        Some(l) => l,
    };
    let header = tsv_split(l);
    if header.len() != exp_header.len() {
        assert(tsv_fields(l@).len() != names_of(exp_header@).len());
        return Err(tsv_err(path, "unexpected headers"));
    }
    let mut j: usize = 0;
    while j < header.len()
        invariant
            j <= header.len(),
            line == Some(l),
            header.len() == exp_header.len(),
            cells(header@) == tsv_fields(l@),
            forall|k: int| 0 <= k < j ==> cells(header@)[k] == #[trigger] names_of(exp_header@)[k],
        decreases header.len() - j,
    {
        let name = str_chars(exp_header[j]);
        if !chars_eq(header[j].as_slice(), name.as_slice()) {
            assert(cells(header@)[j as int] != names_of(exp_header@)[j as int]);
            return Err(tsv_err(path, "unexpected headers"));
        }
        j += 1;
    }
    assert(cells(header@) =~= names_of(exp_header@));
    Ok(())
}

} // verus!
