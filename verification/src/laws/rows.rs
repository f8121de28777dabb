//! Laws of lines, fields and numerals.

use crate::text::{
    decimal, digit_char, digit_value, is_digit, joined, parse_uint, scan_digits, IntFault,
};
use crate::tsv::{is_line_end, lines_of, split_on, trim_line};
use vstd::prelude::*;

verus! {

/// Trimming a line cuts off its line feeds and carriage returns at the
/// end and nothing else: what is left begins the line and does not end
/// in one of the two, and what is cut off is made of them.
pub proof fn lemma_trim_cuts_line_ends(s: Seq<char>)
    ensures
        trim_line(s).len() <= s.len(),
        trim_line(s) == s.take(trim_line(s).len() as int),
        trim_line(s).len() > 0 ==> !is_line_end(trim_line(s).last()),
        forall|k: int| trim_line(s).len() <= k < s.len() ==> is_line_end(#[trigger] s[k]),
    decreases s.len(),
{
    if s.len() > 0 && is_line_end(s.last()) {
        lemma_trim_cuts_line_ends(s.drop_last());
        let k = trim_line(s).len() as int;
        assert(s.drop_last().take(k) =~= s.take(k));
        assert forall|k: int| trim_line(s).len() <= k < s.len() implies is_line_end(
            #[trigger] s[k],
        ) by {
            if k < s.len() - 1 {
                assert(s[k] == s.drop_last()[k]);
            }
        }
    } else {
        assert(s.take(s.len() as int) =~= s);
    }
}

/// Splitting loses nothing and cuts at every separator: the pieces,
/// written with the separator between them, are the text again, and no
/// piece holds the separator.
pub proof fn lemma_split_joins_back(s: Seq<char>, sep: char)
    ensures
        split_on(s, sep).len() >= 1,
        joined(split_on(s, sep), seq![sep]) == s,
        forall|i: int, k: int|
            0 <= i < split_on(s, sep).len() && 0 <= k < split_on(s, sep)[i].len() ==> (
            #[trigger] split_on(s, sep)[i][k]) != sep,
    decreases s.len(),
{
    let pieces = split_on(s, sep);
    if s.len() == 0 {
        assert(joined(pieces, seq![sep]) =~= s);
    } else {
        let front = s.drop_last();
        let before = split_on(front, sep);
        lemma_split_joins_back(front, sep);
        if s.last() == sep {
            assert(pieces.drop_last() =~= before);
            assert(joined(pieces, seq![sep]) =~= s);
            assert forall|i: int, k: int| 0 <= i < pieces.len() && 0 <= k < pieces[i].len() implies (
            #[trigger] pieces[i][k]) != sep by {
                assert(pieces[i] == before[i]);
            }
        } else {
            let last = before.last().push(s.last());
            assert(pieces.drop_last() =~= before.drop_last());
            assert(pieces.last() == last);
            if before.len() == 1 {
                assert(joined(before, seq![sep]) == before[0]);
                assert(joined(pieces, seq![sep]) =~= s);
            } else {
                assert(joined(before, seq![sep]) == joined(before.drop_last(), seq![sep]) + seq![
                    sep,
                ] + before.last());
                assert(joined(pieces, seq![sep]) =~= joined(before, seq![sep]).push(s.last()));
                assert(joined(pieces, seq![sep]) =~= s);
            }
            assert forall|i: int, k: int| 0 <= i < pieces.len() && 0 <= k < pieces[i].len() implies (
            #[trigger] pieces[i][k]) != sep by {
                if i < pieces.len() - 1 {
                    assert(pieces[i] == before[i]);
                } else if k < before.last().len() {
                    assert(pieces[i][k] == before[i][k]);
                }
            }
        }
    }
}

/// The lines of a text are the text cut behind every line feed: written
/// one after another they are the text again, none is empty, each but
/// the last ends with a line feed, and none holds a line feed before its
/// end.
pub proof fn lemma_lines_cut_at_line_feeds(text: Seq<char>)
    ensures
        lines_of(text).flatten() == text,
        forall|i: int| 0 <= i < lines_of(text).len() ==> (#[trigger] lines_of(text)[i]).len() > 0,
        forall|i: int|
            0 <= i < lines_of(text).len() - 1 ==> (#[trigger] lines_of(text)[i]).last() == '\n',
        forall|i: int, k: int|
            0 <= i < lines_of(text).len() && 0 <= k < lines_of(text)[i].len() - 1 ==> (
            #[trigger] lines_of(text)[i][k]) != '\n',
    decreases text.len(),
{
    let lines = lines_of(text);
    if text.len() == 0 {
        assert(lines.flatten() =~= text);
    } else {
        let front = text.drop_last();
        let before = lines_of(front);
        let c = text.last();
        lemma_lines_cut_at_line_feeds(front);
        assert(text =~= front.push(c));
        if before.len() > 0 && before.last().last() != '\n' {
            let grown = before.last().push(c);
            assert(lines =~= before.drop_last().push(grown));
            assert(before =~= before.drop_last().push(before.last()));
            before.drop_last().lemma_flatten_push(before.last());
            before.drop_last().lemma_flatten_push(grown);
            assert(lines.flatten() =~= text);
            assert forall|i: int, k: int|
                0 <= i < lines.len() && 0 <= k < lines[i].len() - 1 implies (#[trigger] lines[i][k])
                != '\n' by {
                if i < lines.len() - 1 {
                    assert(lines[i] == before[i]);
                } else if k < before.last().len() - 1 {
                    assert(lines[i][k] == before[i][k]);
                }
            }
            assert forall|i: int| 0 <= i < lines.len() - 1 implies (#[trigger] lines[i]).last()
                == '\n' by {
                assert(lines[i] == before[i]);
            }
        } else {
            assert(lines =~= before.push(seq![c]));
            before.lemma_flatten_push(seq![c]);
            assert(lines.flatten() =~= text);
            assert forall|i: int, k: int|
                0 <= i < lines.len() && 0 <= k < lines[i].len() - 1 implies (#[trigger] lines[i][k])
                != '\n' by {
                if i < lines.len() - 1 {
                    assert(lines[i] == before[i]);
                }
            }
            assert forall|i: int| 0 <= i < lines.len() - 1 implies (#[trigger] lines[i]).last()
                == '\n' by {
                assert(lines[i] == before[i]);
            }
        }
    }
}

/// The decimal numeral of a number is made of digits, begins with a
/// zero only where the number is zero, and reads back as the number.
pub proof fn lemma_decimal_reads_back(n: nat, max: nat)
    requires
        n <= max,
    ensures
        decimal(n).len() >= 1,
        forall|k: int| 0 <= k < decimal(n).len() ==> is_digit(#[trigger] decimal(n)[k]),
        decimal(n)[0] == '0' <==> n == 0,
        scan_digits(decimal(n), max) == Ok::<nat, IntFault>(n),
        parse_uint(decimal(n), max) == Ok::<nat, IntFault>(n),
    decreases n,
{
    let last = digit_char(n % 10);
    assert(is_digit(last) && digit_value(last) == n % 10);
    if n < 10 {
        assert(decimal(n) =~= seq![last]);
        assert(decimal(n).drop_last() =~= Seq::<char>::empty());
        assert(scan_digits(decimal(n).drop_last(), max) == Ok::<nat, IntFault>(0));
    } else {
        lemma_decimal_reads_back(n / 10, max);
        let front = decimal(n / 10);
        assert(decimal(n).drop_last() =~= front);
        assert(decimal(n)[0] == front[0]);
    }
}

} // verus!
