use coha_filter::corpus::{is_corpus_name, read_corpus, CohaFile, CorpusEntry};
use coha_filter::error::CohaError;
use coha_filter::lexicon::{decode_bytes, read_lexicon, Lexicon};
use coha_filter::model::{Genre, TextId, Word, WordId, Year};
use coha_filter::order::{path_not_behind, sort_by_path};
use coha_filter::sources::read_sources;
use coha_filter::text::str_chars;
use coha_filter::Coha;

const LEX_HEAD: &str = "wID\twordCS\tword\tlemma\tPoS\n----\t----\t----\t----\t----\n\n";
const SRC_HEAD: &str = "textID\t # words \tgenre\tyear\ttitle\tauthor\tPublication information\tLibrary of Congress classification (NF)\tFIXED\n";

fn lexicon_of(rows: &str) -> Result<Lexicon, (String, String)> {
    read_lexicon("shared/lexicon.txt", &format!("{}{}", LEX_HEAD, rows)).map_err(|e| (e.path, e.e))
}

fn word(id: usize, form: &str) -> Word {
    Word {
        word_id: WordId(id),
        word_cs: form.to_string(),
        word: form.to_lowercase(),
        lemma: form.to_lowercase(),
        pos: "x".to_string(),
    }
}

#[test]
fn lexicon_is_dense_with_gaps() {
    let lex = lexicon_of("1\tThe\tthe\tthe\tat\n2\tof\tof\tof\tio\n5\tGoing\tgoing\tgo\tvvg\n").unwrap();
    // the greatest id is 5, so there are six indices
    assert_eq!(lex.len(), 6);
    assert_eq!(lex.padding(), 3);
    for id in [0usize, 3, 4, 6, 100] {
        assert!(lex.get(WordId(id)).is_none(), "{}", id);
    }
    for id in [1usize, 2, 5] {
        assert_eq!(lex.get(WordId(id)).unwrap().word_id, WordId(id));
    }
    let w = lex.get(WordId(5)).unwrap();
    assert_eq!((w.word_cs.as_str(), w.word.as_str(), w.lemma.as_str(), w.pos.as_str()),
        ("Going", "going", "go", "vvg"));
}

#[test]
fn lexicon_without_gaps_and_empty_lexicon() {
    let lex = lexicon_of("0\ta\ta\ta\tx\n1\tb\tb\tb\tx\n2\tc\tc\tc\tx").unwrap();
    assert_eq!(lex.len(), 3);
    assert_eq!(lex.padding(), 0);
    let lex = lexicon_of("").unwrap();
    assert_eq!(lex.len(), 0);
    assert_eq!(lex.padding(), 0);
    let lex = lexicon_of("7\ta\ta\ta\tx\n").unwrap();
    assert_eq!(lex.len(), 8);
    assert_eq!(lex.padding(), 7);
}

#[test]
fn lexicon_rejects_ids_that_do_not_increase() {
    let bad = Err(("shared/lexicon.txt".to_string(), "word IDs not increasing".to_string()));
    assert_eq!(lexicon_of("3\ta\ta\ta\tx\n2\tb\tb\tb\tx\n").map(|l| l.len()), bad);
    assert_eq!(lexicon_of("3\ta\ta\ta\tx\n3\tb\tb\tb\tx\n").map(|l| l.len()), bad);
    assert_eq!(lexicon_of("1\ta\ta\ta\tx\n5\tb\tb\tb\tx\n4\tc\tc\tc\tx\n").map(|l| l.len()), bad);
    assert_eq!(lexicon_of("0\ta\ta\ta\tx\n0\tb\tb\tb\tx\n").map(|l| l.len()), bad);
}

#[test]
fn lexicon_header_is_checked_line_by_line() {
    let read = |text: &str| read_lexicon("lex", text).err().map(|e| e.e);
    assert_eq!(read(""), Some("header missing".to_string()));
    assert_eq!(read("wID\twordCS\tword\tlemma\tPoS\n"), Some("header missing".to_string()));
    assert_eq!(read("wID\twordCS\tword\tlemma\tPoS\n----\t----\t----\t----\t----\n"),
        Some("header missing".to_string()));
    assert_eq!(read("wID\twordCS\tword\tlemma\tpos\n----\t----\t----\t----\t----\n\n"),
        Some("unexpected headers".to_string()));
    assert_eq!(read("wID\twordCS\tword\tlemma\tPoS\n---\t----\t----\t----\t----\n\n"),
        Some("unexpected headers".to_string()));
    assert_eq!(read("wID\twordCS\tword\tlemma\tPoS\n----\t----\t----\t----\t----\nx\n"),
        Some("unexpected headers".to_string()));
    assert_eq!(read("wID\twordCS\tword\tlemma\tPoS\r\n----\t----\t----\t----\t----\r\n\r\n"), None);
    // a blank line among the data is a row fault
    assert_eq!(read(&format!("{}1\ta\ta\ta\tx\n\n", LEX_HEAD)),
        Some("cannot parse integer from empty string".to_string()));
    assert_eq!(read(&format!("{}1\ta\ta\n", LEX_HEAD)), Some("TSV field missing".to_string()));
}

#[test]
fn lexicon_built_word_by_word() {
    let lex = Lexicon::new();
    assert_eq!(lex.len(), 0);
    let lex = lex.with_word(word(2, "Two")).unwrap();
    assert_eq!((lex.len(), lex.padding()), (3, 2));
    let lex = lex.with_word(word(3, "Three")).unwrap();
    assert_eq!((lex.len(), lex.padding()), (4, 2));
    assert_eq!(lex.get(WordId(3)).unwrap().word_cs, "Three");
    assert!(lex.with_word(word(3, "Again")).is_none());
}

#[test]
fn bytes_are_decoded_through_the_table() {
    let mut table = ['?'; 256];
    for b in 0..128u8 {
        table[b as usize] = b as char;
    }
    table[0x82] = '\u{e9}';
    table[0xe1] = '\u{df}';
    assert_eq!(decode_bytes(b"caf\x82 \xe1\t1\n", &table), "caf\u{e9} \u{df}\t1\n");
    assert_eq!(decode_bytes(b"", &table), "");
    assert_eq!(decode_bytes(&[0xff, 0x41], &table), "?A");
}

#[test]
fn sources_are_read_by_text_id() {
    let text = format!(
        "{}714\t100\tFIC\t1851\tMoby Dick\tMelville\tp\tc\tf\n715\t5\tNEWS\t1990\tTimes\t\tp\tc\tf\n",
        SRC_HEAD
    );
    let sources = read_sources("shared/sources.txt", &text).unwrap();
    assert_eq!(sources.len(), 2);
    let s = sources.get(TextId(714)).unwrap();
    assert_eq!((s.genre, s.year, s.title.as_str(), s.author.as_str()),
        (Genre::Fic, Year(1851), "Moby Dick", "Melville"));
    assert_eq!(sources.get(TextId(715)).unwrap().genre, Genre::News);
    assert!(sources.get(TextId(716)).is_none());
}

#[test]
fn later_source_takes_the_place_of_an_earlier_one() {
    let text = format!(
        "{}7\t1\tFIC\t1900\tfirst\ta\n8\t1\tMAG\t1901\tother\tb\n7\t1\tNF\t1950\tsecond\tc\n",
        SRC_HEAD
    );
    let sources = read_sources("s", &text).unwrap();
    assert_eq!(sources.len(), 2);
    let s = sources.get(TextId(7)).unwrap();
    assert_eq!((s.genre, s.year, s.title.as_str()), (Genre::Nf, Year(1950), "second"));
}

#[test]
fn sources_faults_stop_the_load() {
    let read = |text: &str| read_sources("the/sources", text).err().map(|e| (e.path, e.e));
    let at = |r: &str| Some(("the/sources".to_string(), r.to_string()));
    assert_eq!(read(""), at("header missing"));
    assert_eq!(read("textID\t# words\tgenre\tyear\ttitle\tauthor\tPublication information\tLibrary of Congress classification (NF)\tFIXED\n"),
        at("unexpected headers"));
    assert_eq!(read(&format!("{}1\t1\tFIC\t1900\tt\ta\n2\t1\tPOEM\t1900\tt\ta\n", SRC_HEAD)),
        at("invalid genre: POEM"));
    assert_eq!(read(&format!("{}1\t1\tFIC\t1900\tt\n", SRC_HEAD)), at("TSV field missing"));
    assert_eq!(read(SRC_HEAD), None);
}

#[test]
fn corpus_file_takes_its_identifier_from_its_name() {
    let f = CohaFile::new("db/a/coha_db_1810s.txt".to_string(), "coha_db_1810s.txt").unwrap();
    assert_eq!(f.corpus_path, "db/a/coha_db_1810s.txt");
    assert_eq!(f.identifier, "1810s");
    assert_eq!(CohaFile::new("p".to_string(), "coha_db_2000s.txt").unwrap().identifier, "2000s");
    assert_eq!(CohaFile::new("p".to_string(), "coha_db_7s.txt").unwrap().identifier, "7s");
    for bad in ["coha_db_1810.txt", "coha_db_s.txt", "xcoha_db_1810s.txt", "coha_db_1810s.txt2",
        "coha_db_1810s.txt\n", "coha_db_1810sXtxt", "COHA_DB_1810s.txt", "", "coha_db_18 10s.txt"]
    {
        match CohaFile::new("p".to_string(), bad) {
            Err(CohaError::FileName(name)) => assert_eq!(name, bad),
            other => panic!("{:?} gave {:?}", bad, other),
        }
    }
    // the digits of the pattern are the decimal digits of any script
    assert_eq!(
        CohaFile::new("p".to_string(), "coha_db_\u{661}\u{668}s.txt").unwrap().identifier,
        "\u{661}\u{668}s"
    );
    let e = CohaFile::new("p".to_string(), "notes.txt").unwrap_err();
    assert_eq!(e.message(), "unexpected file name notes.txt");
}

#[test]
fn corpus_file_from_what_the_pattern_captured() {
    let f = CohaFile::from_capture("p".to_string(), "n", Some("1900s".to_string())).unwrap();
    assert_eq!((f.corpus_path.as_str(), f.identifier.as_str()), ("p", "1900s"));
    assert!(matches!(CohaFile::from_capture("p".to_string(), "n", None),
        Err(CohaError::FileName(n)) if n == "n"));
}

#[test]
fn corpus_extension() {
    for yes in ["a.txt", "coha_db_1810s.txt", "a.b.txt", "..txt", " .txt"] {
        assert!(is_corpus_name(yes), "{:?}", yes);
    }
    for no in [".txt", "txt", "a.TXT", "a.txt ", "a.tx", "a.txt.bak", "", "a."] {
        assert!(!is_corpus_name(no), "{:?}", no);
    }
    for name in ["a.txt", ".txt", "txt", "a.b.txt", "..txt", "a.", "a.txt.bak", "x.TXT"] {
        let by_path = std::path::Path::new(name).extension().map(|e| e == "txt").unwrap_or(false);
        assert_eq!(is_corpus_name(name), by_path, "{:?}", name);
    }
}

fn entry(dir: &str, name: &str) -> CorpusEntry {
    CorpusEntry { path: format!("{}/{}", dir, name), file_name: name.to_string() }
}

#[test]
fn corpus_is_sorted_and_passes_over_other_files() {
    let entries = vec![
        entry("db/2", "coha_db_1830s.zip"),
        entry("db/2", "coha_db_1820s.txt"),
        entry("db/1", "readme.md"),
        entry("db/10", "coha_db_1900s.txt"),
        entry("db/1", ".txt"),
        entry("db/1", "coha_db_1810s.txt"),
        entry("db/1-a", "coha_db_1890s.txt"),
    ];
    let files = read_corpus(entries).unwrap();
    let got: Vec<(&str, &str)> =
        files.iter().map(|f| (f.corpus_path.as_str(), f.identifier.as_str())).collect();
    assert_eq!(
        got,
        vec![("db/1/coha_db_1810s.txt", "1810s"), ("db/1-a/coha_db_1890s.txt", "1890s"),
            ("db/10/coha_db_1900s.txt", "1900s"), ("db/2/coha_db_1820s.txt", "1820s")]
    );
    assert!(read_corpus(Vec::new()).unwrap().is_empty());
}

#[test]
fn corpus_fails_on_the_first_bad_name_in_path_order() {
    let entries = vec![
        entry("db", "second_bad.txt"),
        entry("db", "coha_db_1810s.txt"),
        entry("db", "first_bad.txt"),
    ];
    assert!(matches!(read_corpus(entries), Err(CohaError::FileName(n)) if n == "first_bad.txt"));
}

#[test]
fn paths_are_ordered_component_by_component() {
    let paths = ["", "a", "a/b", "a/b/c", "a-b", "a-b/c", "a.b/c", "a/c", "a b", "ab", "b",
        "db/1/x.txt", "db/10/x.txt", "db/1-a/x.txt", "db/2/x.txt", "\u{e9}/x", "z/x", "a/B",
        "a/b "];
    for a in paths {
        for b in paths {
            let ours = path_not_behind(&str_chars(a), &str_chars(b));
            let theirs = std::path::Path::new(a) <= std::path::Path::new(b);
            assert_eq!(ours, theirs, "{:?} {:?}", a, b);
        }
    }
}

#[test]
fn sorting_keeps_every_entry_and_the_order_of_equal_paths() {
    let e = |path: &str, name: &str| CorpusEntry {
        path: path.to_string(),
        file_name: name.to_string(),
    };
    let sorted = sort_by_path(vec![
        e("b", "1"), e("a/x", "2"), e("a", "3"), e("b", "4"), e("a-x", "5"), e("a", "6"),
    ]);
    let got: Vec<(&str, &str)> =
        sorted.iter().map(|x| (x.path.as_str(), x.file_name.as_str())).collect();
    assert_eq!(
        got,
        vec![("a", "3"), ("a", "6"), ("a/x", "2"), ("a-x", "5"), ("b", "1"), ("b", "4")]
    );
    assert!(sort_by_path(Vec::new()).is_empty());
}

#[test]
fn load_gives_the_first_error_in_order() {
    let files = || read_corpus(vec![entry("db", "coha_db_1810s.txt")]);
    let bad_files = || read_corpus(vec![entry("db", "bad.txt")]);
    let sources = || read_sources("s", SRC_HEAD).map_err(CohaError::Tsv);
    let bad_sources = || read_sources("s", "").map_err(CohaError::Tsv);
    let lexicon = || read_lexicon("l", LEX_HEAD).map_err(CohaError::Tsv);
    let bad_lexicon = || Err(CohaError::Io("cannot open lexicon".to_string()));

    let coha = Coha::load(files(), sources(), lexicon()).unwrap();
    assert_eq!(coha.coha_files.len(), 1);
    assert_eq!(coha.sources.len(), 0);
    assert_eq!(coha.lexicon.len(), 0);

    let err = |r: Result<Coha, CohaError>| r.err().map(|e| e.message());
    assert_eq!(err(Coha::load(bad_files(), bad_sources(), bad_lexicon())),
        Some("unexpected file name bad.txt".to_string()));
    assert_eq!(err(Coha::load(files(), bad_sources(), bad_lexicon())),
        Some("s: header missing".to_string()));
    assert_eq!(err(Coha::load(files(), sources(), bad_lexicon())),
        Some("cannot open lexicon".to_string()));
    assert_eq!(err(Coha::load(bad_files(), sources(), lexicon())),
        Some("unexpected file name bad.txt".to_string()));
}

#[test]
fn error_messages() {
    assert_eq!(CohaError::Io("disk full".to_string()).message(), "disk full");
    assert_eq!(CohaError::MissingWord(WordId(3)).message(), "expected valid word index");
    assert_eq!(CohaError::FileName("x".to_string()).message(), "unexpected file name x");
    assert_eq!(CohaError::Tsv(coha_filter::tsv_err("p", "r")).message(), "p: r");
}
