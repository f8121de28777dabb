use coha_filter::corpus::CohaFile;
use coha_filter::error::CohaError;
use coha_filter::filter::{CohaFilter, CohaSearch};
use coha_filter::hits::{Hit, CONTEXT};
use coha_filter::lexicon::read_lexicon;
use coha_filter::model::{Genre, Source, TextId, Token, TokenId, WordId, Year};
use coha_filter::output::{output_file_name, OutputFile};
use coha_filter::scan::Scan;
use coha_filter::sources::read_sources;
use coha_filter::Coha;

const LEX_HEAD: &str = "wID\twordCS\tword\tlemma\tPoS\n----\t----\t----\t----\t----\n\n";
const SRC_HEAD: &str = "textID\t # words \tgenre\tyear\ttitle\tauthor\tPublication information\tLibrary of Congress classification (NF)\tFIXED\n";

/// A corpus with the words 1 to 9 (no word 0, no word 6) and the texts 100 and 200.
fn corpus() -> Coha {
    let lexicon = format!(
        "{}1\tI\ti\ti\tppis1\n2\tam\tam\tbe\tvbm\n3\tis\tis\tbe\tvbz\n4\tnot\tnot\tnot\txx\n\
         5\tGoing\tgoing\tgo\tvvg\n7\tsee\tsee\tsee\tvvi\n8\tit\tit\tit\tpph1\n9\tto\tto\tto\tprep\n",
        LEX_HEAD
    );
    let sources = format!(
        "{}100\t9\tFIC\t1851\tMoby Dick\tMelville\tp\tc\tf\n200\t9\tNEWS\t1990\tThe Times\t\tp\tc\tf\n",
        SRC_HEAD
    );
    Coha {
        sources: read_sources("sources", &sources).unwrap(),
        lexicon: read_lexicon("lexicon", &lexicon).unwrap(),
        coha_files: vec![
            CohaFile::new("db/coha_db_1850s.txt".to_string(), "coha_db_1850s.txt").unwrap(),
        ],
    }
}

fn tokens(text: usize, words: &[usize]) -> Vec<Token> {
    words
        .iter()
        .enumerate()
        .map(|(i, w)| Token { text_id: TextId(text), token_id: TokenId(i + 1), word_id: WordId(*w) })
        .collect()
}

fn lines(text: usize, words: &[usize]) -> String {
    words.iter().enumerate().map(|(i, w)| format!("{}\t{}\t{}\n", text, i + 1, w)).collect()
}

fn source() -> Source {
    Source {
        text_id: TextId(100),
        genre: Genre::Fic,
        year: Year(1851),
        title: "Moby Dick".to_string(),
        author: "Melville".to_string(),
    }
}

fn only(ids: &[usize]) -> CohaFilter {
    let mut f = CohaFilter::none();
    for id in ids {
        f.allow(WordId(*id));
    }
    f
}

fn search<'a>(label: &str, filters: Vec<&'a CohaFilter>) -> CohaSearch<'a> {
    CohaSearch { label: label.to_string(), filter_list: filters }
}

fn positions(rows: &[Vec<String>]) -> Vec<String> {
    rows.iter().map(|r| r[5].clone()).collect()
}

#[test]
fn header_names_every_column() {
    assert_eq!(
        CohaFile::write_header(2),
        vec!["text ID", "genre", "year", "title", "author", "position", "before", "wordCS 1",
            "wordCS 2", "after", "before_pos", "word 1", "lemma 1", "pos 1", "word 2", "lemma 2",
            "pos 2", "after_pos"]
    );
    assert_eq!(
        CohaFile::write_header(0),
        vec!["text ID", "genre", "year", "title", "author", "position", "before", "after",
            "before_pos", "after_pos"]
    );
    assert_eq!(CohaFile::write_header(12).len(), 4 * 12 + 10);
    assert_eq!(CohaFile::write_header(12)[7 + 11], "wordCS 12");
    assert_eq!(CohaFile::write_header(12)[4 * 12 + 8], "pos 12");
}

#[test]
fn hit_row_holds_source_position_words_and_context() {
    let coha = corpus();
    let run = tokens(100, &[1, 2, 5, 9, 7, 8]);
    let row = CohaFile::write_hit(&coha, &source(), &run, 2, 2);
    assert_eq!(
        row,
        vec!["100", "FIC", "1851", "Moby Dick", "Melville", "2", "I am", "Going", "to", "see it",
            "i_ppis1 be_vbm", "going", "go", "vvg", "to", "to", "prep", "see_vvi it_pph1"]
    );
}

#[test]
fn going_to_is_found_once_with_its_context() {
    let coha = corpus();
    let f_going = coha.get_filter(|w| w.word == "going");
    let f_to = coha.get_filter(|w| w.word == "to");
    let s = search("going-to", vec![&f_going, &f_to]);
    let text = lines(100, &[1, 2, 4, 5, 9, 7, 8]);
    let out = coha.search(&[&s], &[text]).unwrap();
    assert_eq!(out.len(), 1);
    assert_eq!(out[0].label, "going-to");
    assert_eq!(out[0].name, "going-to-1850s.csv");
    assert_eq!(out[0].rows.len(), 2);
    assert_eq!(out[0].rows[0], CohaFile::write_header(2));
    assert_eq!(
        out[0].rows[1],
        vec!["100", "FIC", "1851", "Moby Dick", "Melville", "3", "I am not", "Going", "to",
            "see it", "i_ppis1 be_vbm not_xx", "going", "go", "vvg", "to", "to", "prep",
            "see_vvi it_pph1"]
    );
}

#[test]
fn single_filter_gives_one_row_for_each_token_that_passes() {
    let coha = corpus();
    let be = coha.get_filter(|w| w.lemma == "be");
    let s = search("be", vec![&be]);
    let words = [2, 1, 3, 3, 4, 2, 9, 3];
    let run = tokens(100, &words);
    let rows = CohaFile::search_text_one(&coha, &s, &source(), &run).unwrap();
    let expected = words.iter().filter(|w| **w == 2 || **w == 3).count();
    assert_eq!(rows.len(), expected);
    assert_eq!(positions(&rows), vec!["0", "2", "3", "5", "7"]);
    assert_eq!(rows[1][7], "is");
}

#[test]
fn overlapping_and_neighbouring_hits_are_all_kept() {
    let coha = corpus();
    let be = only(&[3]);
    let pair = search("is-is", vec![&be, &be]);
    let run = tokens(100, &[3, 3, 3, 3, 1, 3, 3]);
    let rows = CohaFile::search_text_one(&coha, &pair, &source(), &run).unwrap();
    assert_eq!(positions(&rows), vec!["0", "1", "2", "5"]);
    let any = CohaFilter::Any;
    let triple = search("any3", vec![&any, &any, &any]);
    let rows = CohaFile::search_text_one(&coha, &triple, &source(), &run).unwrap();
    assert_eq!(positions(&rows), vec!["0", "1", "2", "3", "4"]);
}

#[test]
fn first_failing_position_ends_the_window() {
    let coha = corpus();
    let one = only(&[1]);
    let two = only(&[2]);
    let any = CohaFilter::Any;
    let s = search("i-any-am", vec![&one, &any, &two]);
    let run = tokens(100, &[1, 9, 2, 1, 2, 2, 1, 1, 2]);
    let rows = CohaFile::search_text_one(&coha, &s, &source(), &run).unwrap();
    assert_eq!(positions(&rows), vec!["0", "3", "6"]);
}

#[test]
fn pattern_longer_than_the_text_has_no_hit() {
    let coha = corpus();
    let any = CohaFilter::Any;
    let s = search("long", vec![&any, &any, &any]);
    assert!(CohaFile::search_text_one(&coha, &s, &source(), &tokens(100, &[1, 2])).unwrap().is_empty());
    assert_eq!(
        CohaFile::search_text_one(&coha, &s, &source(), &tokens(100, &[1, 2, 3])).unwrap().len(),
        1
    );
    assert!(CohaFile::search_text_one(&coha, &s, &source(), &[]).unwrap().is_empty());
}

#[test]
fn empty_pattern_matches_at_every_position_and_at_the_end() {
    let coha = corpus();
    let s = search("empty", Vec::new());
    let run = tokens(100, &[1, 2, 3]);
    let rows = CohaFile::search_text_one(&coha, &s, &source(), &run).unwrap();
    assert_eq!(positions(&rows), vec!["0", "1", "2", "3"]);
    assert_eq!(rows[0], vec!["100", "FIC", "1851", "Moby Dick", "Melville", "0", "", "I am is",
        "", "i_ppis1 be_vbm be_vbz"]);
    assert_eq!(rows[3][6], "I am is");
    assert_eq!(rows[3][7], "");
}

#[test]
fn context_is_clipped_at_the_ends_of_the_text() {
    let coha = corpus();
    let going = only(&[5]);
    let s = search("going", vec![&going]);
    // 100 tokens: word 5 at the positions 0, 10, 50 and 99, word 1 elsewhere
    let mut words = vec![1usize; 100];
    for p in [0, 10, 50, 99] {
        words[p] = 5;
    }
    let run = tokens(100, &words);
    let rows = CohaFile::search_text_one(&coha, &s, &source(), &run).unwrap();
    assert_eq!(positions(&rows), vec!["0", "10", "50", "99"]);
    let count = |cell: &str| if cell.is_empty() { 0 } else { cell.split(' ').count() };
    let sizes: Vec<(usize, usize, usize, usize)> =
        rows.iter().map(|r| (count(&r[6]), count(&r[8]), count(&r[9]), count(&r[13]))).collect();
    assert_eq!(CONTEXT, 30);
    assert_eq!(sizes, vec![(0, 30, 0, 30), (10, 30, 10, 30), (30, 30, 30, 30), (30, 0, 30, 0)]);
    assert_eq!(rows[0][6], "");
    assert_eq!(rows[0][9], "");
    assert_eq!(rows[3][8], "");
    assert_eq!(rows[3][13], "");
    // the context before the hit at 50 begins at position 20 and so holds no "Going"
    assert!(!rows[2][6].contains("Going"));
    // the context behind the hit at 10 ends before position 41
    assert!(!rows[1][8].contains("Going"));
    // the hit at 99 sees back to position 69
    assert!(!rows[3][6].contains("Going"));
}

#[test]
fn context_reaches_exactly_thirty_tokens() {
    let coha = corpus();
    let going = only(&[5]);
    let s = search("going", vec![&going]);
    // word 9 stands 31 before and 31 behind the hit, word 7 stands 30 before and 30 behind
    let mut words = vec![1usize; 80];
    words[40] = 5;
    words[9] = 9;
    words[10] = 7;
    words[70] = 7;
    words[71] = 9;
    let rows = CohaFile::search_text_one(&coha, &s, &source(), &tokens(100, &words)).unwrap();
    assert_eq!(rows.len(), 1);
    assert!(rows[0][6].starts_with("see I "));
    assert!(rows[0][8].ends_with(" I see"));
    assert!(!rows[0][6].contains("to") && !rows[0][8].contains("to"));
}

#[test]
fn context_stays_within_its_text() {
    let coha = corpus();
    let going = only(&[5]);
    let s = search("going", vec![&going]);
    let text = format!("{}{}{}", lines(200, &[9, 9, 9]), lines(100, &[1, 5, 2]), lines(200, &[8, 8]));
    let report = coha.coha_files[0].search(&coha, &[&s], &text).unwrap();
    assert_eq!(report.hits.len(), 1);
    assert_eq!(report.hits[0].row[0], "100");
    assert_eq!(report.hits[0].row[6], "I");
    assert_eq!(report.hits[0].row[8], "am");
    assert_eq!((report.tokens, report.texts, report.hit_texts), (8, 3, 1));
}

#[test]
fn unknown_text_has_no_hit_and_the_scan_goes_on() {
    let coha = corpus();
    let going = only(&[5]);
    let s = search("going", vec![&going]);
    let run = tokens(999, &[5, 5]);
    let report = CohaFile::search_text(&coha, &[&s], &run).unwrap();
    assert!(!report.known);
    assert_eq!(report.text_id, TextId(999));
    assert!(report.hits.is_empty());

    let text = format!("{}{}{}", lines(100, &[5]), lines(999, &[5, 5, 6]), lines(200, &[1, 5]));
    let report = coha.coha_files[0].search(&coha, &[&s], &text).unwrap();
    let found: Vec<(&str, &str)> =
        report.hits.iter().map(|h| (h.row[0].as_str(), h.row[5].as_str())).collect();
    assert_eq!(found, vec![("100", "0"), ("200", "1")]);
    assert_eq!((report.tokens, report.texts, report.hit_texts), (6, 3, 2));
}

#[test]
fn known_text_is_searched_for_every_search_in_turn() {
    let coha = corpus();
    let going = only(&[5]);
    let to = only(&[9]);
    let a = search("going", vec![&going]);
    let b = search("going-to", vec![&going, &to]);
    let c = search("to", vec![&to]);
    let run = tokens(200, &[5, 9, 5, 5, 9]);
    let report = CohaFile::search_text(&coha, &[&a, &b, &c], &run).unwrap();
    assert!(report.known);
    let found: Vec<(usize, &str)> =
        report.hits.iter().map(|h| (h.search, h.row[5].as_str())).collect();
    assert_eq!(found, vec![(0, "0"), (0, "2"), (0, "3"), (1, "0"), (1, "3"), (2, "1"), (2, "4")]);
    assert_eq!(report.hits[0].row[1], "NEWS");
    assert_eq!(report.hits[0].row[3], "The Times");
    assert_eq!(report.hits[0].row[4], "");
}

#[test]
fn word_missing_from_the_lexicon_fails_only_where_a_row_needs_it() {
    let coha = corpus();
    let going = only(&[5]);
    let s = search("going", vec![&going]);
    // word 6 is a gap and word 50 lies behind the lexicon: both are far from the hit
    let mut words = vec![1usize; 70];
    words[0] = 6;
    words[1] = 50;
    words[40] = 5;
    let rows = CohaFile::search_text_one(&coha, &s, &source(), &tokens(100, &words)).unwrap();
    assert_eq!(rows.len(), 1);
    // now the gap is within the context of the hit
    words[10] = 6;
    words[60] = 50;
    let r = CohaFile::search_text_one(&coha, &s, &source(), &tokens(100, &words));
    assert!(matches!(r, Err(CohaError::MissingWord(WordId(6)))));
    words[10] = 1;
    let r = CohaFile::search_text_one(&coha, &s, &source(), &tokens(100, &words));
    assert!(matches!(r, Err(CohaError::MissingWord(WordId(50)))));
    // without a hit nothing is missing
    words[40] = 1;
    assert!(CohaFile::search_text_one(&coha, &s, &source(), &tokens(100, &words)).unwrap().is_empty());
    assert_eq!(coha.first_unknown(&tokens(100, &[1, 50, 6])), Some(WordId(50)));
    assert_eq!(coha.first_unknown(&tokens(100, &[1, 2])), None);
}

#[test]
fn token_ids_must_increase_within_a_text() {
    let coha = corpus();
    let s = search("any", vec![&CohaFilter::Any]);
    let file = &coha.coha_files[0];
    let fails = |text: &str| match file.search(&coha, &[&s], text) {
        Err(CohaError::Tsv(e)) => Some((e.path, e.e)),
        Err(e) => panic!("{:?}", e),
        Ok(_) => None,
    };
    let bad = Some(("db/coha_db_1850s.txt".to_string(), "token IDs not increasing".to_string()));
    assert_eq!(fails("100\t1\t1\n100\t2\t1\n100\t2\t1\n"), bad);
    assert_eq!(fails("100\t5\t1\n100\t4\t1\n"), bad);
    assert_eq!(fails("100\t1\t1\n100\t7\t1\n100\t9\t1\n100\t8\t1\n"), bad);
    // a new text may begin with any token id, and a text may come again
    assert_eq!(fails("100\t5\t1\n200\t1\t1\n100\t1\t1\n"), None);
    assert_eq!(fails("100\t5\t1\n200\t5\t1\n"), None);
    assert_eq!(fails("100\t0\t1\n100\t1\t1\n"), None);
}

#[test]
fn malformed_token_row_fails_the_file() {
    let coha = corpus();
    let s = search("any", vec![&CohaFilter::Any]);
    let file = &coha.coha_files[0];
    let reason = |text: &str| match file.search(&coha, &[&s], text) {
        Err(CohaError::Tsv(e)) => Some(e.e),
        Err(e) => panic!("{:?}", e),
        Ok(_) => None,
    };
    assert_eq!(reason("100\t1\t1\n\n100\t2\t1\n"), Some("cannot parse integer from empty string".to_string()));
    assert_eq!(reason("100\t1\n"), Some("TSV field missing".to_string()));
    assert_eq!(reason("100\t1\tone\n"), Some("invalid digit found in string".to_string()));
    // the first fault in the file is the one reported
    assert_eq!(reason("100\t2\t1\n100\t1\t1\nx\n"), Some("token IDs not increasing".to_string()));
    assert_eq!(reason("100\t2\t1\nx\n100\t1\t1\n"), Some("invalid digit found in string".to_string()));
    assert_eq!(reason(""), None);
}

#[test]
fn empty_file_has_no_text() {
    let coha = corpus();
    let s = search("any", vec![&CohaFilter::Any]);
    let report = coha.coha_files[0].search(&coha, &[&s], "").unwrap();
    assert!(report.hits.is_empty());
    assert_eq!((report.tokens, report.texts, report.hit_texts), (0, 0, 0));
    let report = coha.coha_files[0].search(&coha, &[&s], "100\t1\t1").unwrap();
    assert_eq!((report.hits.len(), report.tokens, report.texts, report.hit_texts), (1, 1, 1, 1));
}

fn flat(hits: &[Hit]) -> Vec<(usize, Vec<String>)> {
    hits.iter().map(|h| (h.search, h.row.clone())).collect()
}

#[test]
fn scanning_line_by_line_gives_what_the_whole_file_gives() {
    let coha = corpus();
    let going = only(&[5]);
    let to = only(&[9]);
    let a = search("going-to", vec![&going, &to]);
    let b = search("to", vec![&to]);
    let searches = [&a, &b];
    let text = format!(
        "{}{}{}{}",
        lines(100, &[5, 9, 1]),
        lines(999, &[5, 9]),
        lines(200, &[1, 1]),
        lines(100, &[9, 5, 9])
    );
    let whole = coha.coha_files[0].search(&coha, &searches, &text).unwrap();

    let mut scan = Scan::new();
    let mut hits: Vec<Hit> = Vec::new();
    let mut reports = Vec::new();
    for line in text.split_inclusive('\n') {
        let (next, report) = scan.line("db/coha_db_1850s.txt", &coha, &searches, line).unwrap();
        scan = next;
        if let Some(r) = report {
            reports.push((r.text_id, r.known, r.hits.len()));
            hits.extend(r.hits);
        }
    }
    assert_eq!(scan.len(), 3);
    if let Some(r) = scan.finish(&coha, &searches).unwrap() {
        reports.push((r.text_id, r.known, r.hits.len()));
        hits.extend(r.hits);
    }
    assert_eq!(flat(&hits), flat(&whole.hits));
    assert_eq!(
        reports,
        vec![(TextId(100), true, 2), (TextId(999), false, 0), (TextId(200), true, 0),
            (TextId(100), true, 3)]
    );
    assert_eq!((whole.tokens, whole.texts, whole.hit_texts), (10, 4, 2));
    assert!(Scan::new().finish(&coha, &searches).unwrap().is_none());
}

fn tables(out: &[OutputFile]) -> Vec<(String, String, Vec<Vec<String>>)> {
    out.iter().map(|o| (o.label.clone(), o.name.clone(), o.rows.clone())).collect()
}

#[test]
fn searching_twice_gives_the_same_tables() {
    let mut coha = corpus();
    coha.coha_files.push(CohaFile::new("db/coha_db_1990s.txt".to_string(), "coha_db_1990s.txt").unwrap());
    let be = coha.get_filter(|w| w.lemma == "be");
    let a = search("be", vec![&be]);
    let b = search("be-any", vec![&be, &CohaFilter::Any]);
    let texts = [lines(100, &[1, 2, 4, 3]), format!("{}{}", lines(200, &[3, 3]), lines(100, &[2]))];
    let first = coha.search(&[&a, &b], &texts).unwrap();
    let second = coha.search(&[&a, &b], &texts).unwrap();
    assert_eq!(tables(&first), tables(&second));
    let names: Vec<(&str, &str, usize)> =
        first.iter().map(|o| (o.label.as_str(), o.name.as_str(), o.rows.len())).collect();
    assert_eq!(
        names,
        vec![("be", "be-1850s.csv", 3), ("be-any", "be-any-1850s.csv", 2),
            ("be", "be-1990s.csv", 4), ("be-any", "be-any-1990s.csv", 2)]
    );
    for o in &first {
        assert!(o.rows.iter().all(|r| r.len() == o.rows[0].len()));
    }
}

#[test]
fn first_failing_file_fails_the_search() {
    let mut coha = corpus();
    coha.coha_files.push(CohaFile::new("db/coha_db_1990s.txt".to_string(), "coha_db_1990s.txt").unwrap());
    let s = search("any", vec![&CohaFilter::Any]);
    let texts = ["100\t1\t1\n".to_string(), "oops\n".to_string()];
    match coha.search(&[&s], &texts) {
        Err(CohaError::Tsv(e)) => assert_eq!(e.message(), "db/coha_db_1990s.txt: invalid digit found in string"),
        other => panic!("{:?}", other.map(|o| o.len())),
    }
    let texts = ["100\t1\n".to_string(), "oops\n".to_string()];
    match coha.search(&[&s], &texts) {
        Err(CohaError::Tsv(e)) => assert_eq!(e.message(), "db/coha_db_1850s.txt: TSV field missing"),
        other => panic!("{:?}", other.map(|o| o.len())),
    }
}

#[test]
fn tables_take_the_hits_of_their_search() {
    let file = CohaFile::new("p".to_string(), "coha_db_1900s.txt").unwrap();
    let any = CohaFilter::Any;
    let a = search("a", vec![&any]);
    let b = search("b", vec![]);
    let row = |x: &str| vec![x.to_string()];
    let hits = vec![
        Hit { search: 1, row: row("one") },
        Hit { search: 0, row: row("two") },
        Hit { search: 7, row: row("stray") },
        Hit { search: 1, row: row("three") },
    ];
    let out = file.outputs(&[&a, &b], hits);
    assert_eq!(out.len(), 2);
    assert_eq!(out[0].rows, vec![CohaFile::write_header(1), row("two")]);
    assert_eq!(out[1].rows, vec![CohaFile::write_header(0), row("one"), row("three")]);
    assert_eq!((out[1].label.as_str(), out[1].name.as_str()), ("b", "b-1900s.csv"));
    assert_eq!(output_file_name("be-going-to-verb", "1810s"), "be-going-to-verb-1810s.csv");
}

#[test]
fn filter_holds_the_words_that_the_predicate_picks() {
    let coha = corpus();
    let be = coha.get_filter(|w| w.lemma == "be");
    for id in 0..12 {
        assert_eq!(be.matches(WordId(id)), id == 2 || id == 3, "{}", id);
    }
    assert_eq!(be.size(), "2");
    let none = coha.get_filter(|_| false);
    let all = coha.get_filter(|_| true);
    for id in 0..12 {
        assert!(!none.matches(WordId(id)));
        assert!(CohaFilter::Any.matches(WordId(id)));
        // a filter from a predicate never holds a gap
        assert_eq!(all.matches(WordId(id)), coha.lexicon.get(WordId(id)).is_some(), "{}", id);
    }
    assert_eq!(all.size(), "8");
    assert_eq!(none.size(), "0");
    assert_eq!(CohaFilter::Any.size(), "\u{221e}");
    let s = search("x", vec![&be, &CohaFilter::Any, &all]);
    assert_eq!(s.len(), 3);
    assert_eq!(s.filter_sizes(), "2, \u{221e}, 8");
    assert_eq!(search("y", vec![]).filter_sizes(), "");
    assert_eq!(search("z", vec![&none]).filter_sizes(), "0");
}

#[test]
fn predicate_is_asked_once_for_each_word() {
    let coha = corpus();
    let asked = std::cell::RefCell::new(Vec::new());
    let _ = coha.get_filter(|w| {
        asked.borrow_mut().push(w.word_id.0);
        true
    });
    assert_eq!(*asked.borrow(), vec![1, 2, 3, 4, 5, 7, 8, 9]);
}

#[test]
fn text_and_tags_are_joined_with_spaces() {
    let coha = corpus();
    let run = tokens(100, &[1, 2, 5]);
    assert_eq!(coha.get_text(&run), "I am Going");
    assert_eq!(coha.get_lemma_pos(&run), "i_ppis1 be_vbm go_vvg");
    assert_eq!(coha.get_text(&run[..1]), "I");
    assert_eq!(coha.get_text(&[]), "");
    assert_eq!(coha.get_lemma_pos(&[]), "");
    assert_eq!(coha.get_word(WordId(9)).pos, "prep");
}

#[test]
fn window_test() {
    let going = only(&[5]);
    let any = CohaFilter::Any;
    let s = search("s", vec![&going, &any]);
    let run = tokens(1, &[5, 1, 1, 5]);
    assert!(s.matches_at(&run, 0));
    assert!(!s.matches_at(&run, 1));
    assert!(!s.matches_at(&run, 2));
    assert!(search("e", vec![]).matches_at(&run, 4));
}
