use coha_filter::model::{word_cleanup, Genre, Source, TextId, Token, TokenId, Word, WordId, Year};
use coha_filter::text::{decimal_string, parse_u16, parse_usize, str_chars, IntFault};
use coha_filter::tsv::{split_lines, tsv_check_header, tsv_err, tsv_split};

fn field_strings(line: &str) -> Vec<String> {
    tsv_split(&str_chars(line)).iter().map(|f| f.iter().collect::<String>()).collect()
}

#[test]
fn split_keeps_empty_fields_and_trims_terminators() {
    assert_eq!(field_strings("a\tb\tc\n"), vec!["a", "b", "c"]);
    assert_eq!(field_strings("a\t\tc\r\n"), vec!["a", "", "c"]);
    assert_eq!(field_strings("a\tb\t\n\n\r"), vec!["a", "b", ""]);
    assert_eq!(field_strings(""), vec![""]);
    assert_eq!(field_strings("\n"), vec![""]);
    assert_eq!(field_strings("x\ny"), vec!["x\ny"]);
    assert_eq!(field_strings(" a \tb"), vec![" a ", "b"]);
}

#[test]
fn lines_keep_their_line_feed() {
    let lines: Vec<String> =
        split_lines(&str_chars("a\nb\r\n\nc")).iter().map(|l| l.iter().collect()).collect();
    assert_eq!(lines, vec!["a\n", "b\r\n", "\n", "c"]);
    assert!(split_lines(&str_chars("")).is_empty());
    assert_eq!(split_lines(&str_chars("x\n")).len(), 1);
}

#[test]
fn integers_are_read_as_decimal() {
    assert_eq!(parse_usize(&str_chars("0")), Ok(0));
    assert_eq!(parse_usize(&str_chars("12345")), Ok(12345));
    assert_eq!(parse_usize(&str_chars("+7")), Ok(7));
    assert_eq!(parse_usize(&str_chars("007")), Ok(7));
    assert_eq!(parse_usize(&str_chars("")), Err(IntFault::Empty));
    assert_eq!(parse_usize(&str_chars("+")), Err(IntFault::InvalidDigit));
    assert_eq!(parse_usize(&str_chars("-1")), Err(IntFault::InvalidDigit));
    assert_eq!(parse_usize(&str_chars("12a")), Err(IntFault::InvalidDigit));
    assert_eq!(parse_usize(&str_chars(" 1")), Err(IntFault::InvalidDigit));
    assert_eq!(parse_usize(&str_chars("1_000")), Err(IntFault::InvalidDigit));
    assert_eq!(parse_usize(&str_chars("\u{0661}")), Err(IntFault::InvalidDigit));
    assert_eq!(parse_usize(&str_chars(&usize::MAX.to_string())), Ok(usize::MAX));
    assert_eq!(
        parse_usize(&str_chars("99999999999999999999999999999999999999999")),
        Err(IntFault::Overflow)
    );
    assert_eq!(parse_u16(&str_chars("65535")), Ok(65535));
    assert_eq!(parse_u16(&str_chars("65536")), Err(IntFault::Overflow));
    assert_eq!(parse_u16(&str_chars("1999")), Ok(1999));
}

#[test]
fn integers_agree_with_the_standard_parser() {
    for s in ["0", "1", "+1", "-1", "", "+", "-", "00", "1 ", "18446744073709551615",
        "18446744073709551616", "65535", "65536", "+65535", "9x", "x9"]
    {
        assert_eq!(parse_usize(&str_chars(s)).ok(), s.parse::<usize>().ok(), "{:?}", s);
        assert_eq!(parse_u16(&str_chars(s)).ok(), s.parse::<u16>().ok(), "{:?}", s);
    }
}

#[test]
fn numerals_are_written_without_leading_zeros() {
    assert_eq!(decimal_string(0), "0");
    assert_eq!(decimal_string(9), "9");
    assert_eq!(decimal_string(10), "10");
    assert_eq!(decimal_string(1810), "1810");
    assert_eq!(decimal_string(usize::MAX), usize::MAX.to_string());
}

#[test]
fn numerals_read_back_as_their_number() {
    for n in [0usize, 1, 9, 10, 99, 100, 12345, 65535, usize::MAX] {
        assert_eq!(parse_usize(&str_chars(&decimal_string(n))), Ok(n));
    }
}

#[test]
fn genre_codes() {
    assert_eq!(Genre::parse("FIC"), Some(Genre::Fic));
    assert_eq!(Genre::parse("MAG"), Some(Genre::Mag));
    assert_eq!(Genre::parse("NEWS"), Some(Genre::News));
    assert_eq!(Genre::parse("NF"), Some(Genre::Nf));
    assert_eq!(Genre::parse("fic"), None);
    assert_eq!(Genre::parse(""), None);
    assert_eq!(Genre::parse("NFX"), None);
    for g in [Genre::Fic, Genre::Mag, Genre::News, Genre::Nf] {
        assert_eq!(Genre::parse(g.name()), Some(g));
    }
    assert_eq!(Genre::parse_for_files("p", "NEWS").unwrap(), Genre::News);
    let e = Genre::parse_for_files("some/file", "POEM").unwrap_err();
    assert_eq!(e.path, "some/file");
    assert_eq!(e.e, "invalid genre: POEM");
    assert_eq!(e.message(), "some/file: invalid genre: POEM");
}

#[test]
fn source_row_is_read() {
    let s = Source::parse_tsv(
        "src",
        "714\t56789\tFIC\t1851\tMoby Dick\tMelville, Herman\tHarper\tPS\tx\n",
    )
    .unwrap();
    assert_eq!(s.text_id, TextId(714));
    assert_eq!(s.genre, Genre::Fic);
    assert_eq!(s.year, Year(1851));
    assert_eq!(s.title, "Moby Dick");
    assert_eq!(s.author, "Melville, Herman");
    // the word count is not read, and six fields are enough
    let s = Source::parse_tsv("src", "1\tnot a number\tNF\t1900\t\t").unwrap();
    assert_eq!(s.title, "");
    assert_eq!(s.author, "");
    assert_eq!(s.genre, Genre::Nf);
}

#[test]
fn source_row_faults() {
    let reason = |line: &str| Source::parse_tsv("the/path", line).err().map(|e| (e.path, e.e));
    let at = |r: &str| Some(("the/path".to_string(), r.to_string()));
    assert_eq!(reason("x\t1\tFIC\t1900\tt\ta"), at("invalid digit found in string"));
    assert_eq!(reason(""), at("cannot parse integer from empty string"));
    assert_eq!(reason("1"), at("TSV field missing"));
    assert_eq!(reason("1\t2"), at("TSV field missing"));
    assert_eq!(reason("1\t2\tXX\t1900\tt\ta"), at("invalid genre: XX"));
    assert_eq!(reason("1\t2\tFIC"), at("TSV field missing"));
    assert_eq!(reason("1\t2\tFIC\t70000\tt\ta"), at("number too large to fit in target type"));
    assert_eq!(reason("1\t2\tFIC\t1900"), at("TSV field missing"));
    assert_eq!(reason("1\t2\tFIC\t1900\tt"), at("TSV field missing"));
    // the first fault in field order is the one reported
    assert_eq!(reason("x\t2\tXX\tyear"), at("invalid digit found in string"));
    assert_eq!(reason("1\t2\tXX\tyear"), at("invalid genre: XX"));
}

#[test]
fn word_row_is_read_and_cleaned() {
    let w = Word::parse_tsv("lex", "5\tGo\u{0}ing\tgo\u{7f}ing\u{9f}\tgo\tvvg\n").unwrap();
    assert_eq!(w.word_id, WordId(5));
    assert_eq!(w.word_cs, "Going");
    assert_eq!(w.word, "going");
    assert_eq!(w.lemma, "go");
    assert_eq!(w.pos, "vvg");
    // lemma and part of speech are kept as they are
    let w = Word::parse_tsv("lex", "6\ta\tb\tc\u{1}\td\u{2}").unwrap();
    assert_eq!(w.lemma, "c\u{1}");
    assert_eq!(w.pos, "d\u{2}");
    let e = Word::parse_tsv("lex", "6\ta\tb\tc").unwrap_err();
    assert_eq!((e.path.as_str(), e.e.as_str()), ("lex", "TSV field missing"));
    let e = Word::parse_tsv("lex", "six\ta\tb\tc\td").unwrap_err();
    assert_eq!(e.e, "invalid digit found in string");
}

#[test]
fn cleanup_takes_out_control_characters_only() {
    assert_eq!(word_cleanup("a\tb\nc\r"), "abc");
    assert_eq!(word_cleanup("\u{1f}x\u{20}y\u{7e}\u{7f}\u{80}\u{9f}\u{a0}"), "x y\u{7e}\u{a0}");
    assert_eq!(word_cleanup(""), "");
    for c in (0u32..0x300).filter_map(char::from_u32) {
        let kept = word_cleanup(&c.to_string());
        assert_eq!(kept.is_empty(), c.is_control(), "{:?}", c);
    }
}

#[test]
fn token_row_is_read() {
    let t = Token::parse_tsv("db", "714\t3\t99\n").unwrap();
    assert_eq!(t, Token { text_id: TextId(714), token_id: TokenId(3), word_id: WordId(99) });
    let t = Token::parse_tsv("db", "1\t2\t3\textra\r\n").unwrap();
    assert_eq!(t.word_id, WordId(3));
    let reason = |line: &str| Token::parse_tsv("db", line).err().map(|e| e.e);
    assert_eq!(reason("\n"), Some("cannot parse integer from empty string".to_string()));
    assert_eq!(reason("1"), Some("TSV field missing".to_string()));
    assert_eq!(reason("1\t2"), Some("TSV field missing".to_string()));
    assert_eq!(reason("1\t2\tx"), Some("invalid digit found in string".to_string()));
    assert_eq!(reason("1\tx\t3"), Some("invalid digit found in string".to_string()));
    assert_eq!(reason("1 \t2\t3"), Some("invalid digit found in string".to_string()));
}

#[test]
fn header_must_match_exactly() {
    let expected = ["a", " b ", ""];
    let line = str_chars("a\t b \t\n");
    assert!(tsv_check_header("p", Some(&line), &expected).is_ok());
    let e = tsv_check_header("p", None, &expected).unwrap_err();
    assert_eq!((e.path.as_str(), e.e.as_str()), ("p", "header missing"));
    for bad in ["a\tb\t\n", "a\t b \n", "a\t b \t\tc\n", "A\t b \t\n", "\n"] {
        let line = str_chars(bad);
        let e = tsv_check_header("p", Some(&line), &expected).unwrap_err();
        assert_eq!(e.e, "unexpected headers", "{:?}", bad);
    }
}

#[test]
fn error_message_names_the_file() {
    let e = tsv_err("db/x.txt", "TSV field missing");
    assert_eq!(e.message(), "db/x.txt: TSV field missing");
}
