use openusage_cli::lexical_path::LexicalPath;
use openusage_cli::plugin_engine::js_value::Number;
use openusage_cli::table::{KeySet, Table};
use openusage_cli::text::{decimal_text, join, parse_number, split, to_lower, trim};
use openusage_cli::text_order::{before, ordered_places, sorted_distinct};

fn path(text: &str) -> LexicalPath {
    LexicalPath::parse(text)
}

fn texts(list: &[&str]) -> Vec<String> {
    list.iter().map(|item| item.to_string()).collect()
}

#[test]
fn trimming_twice_is_trimming_once() {
    for sample in ["", "  ", " a b ", "\u{2003}x\u{a0}\n", "\u{200b}y", "z"] {
        let once = trim(sample);
        assert_eq!(once, sample.trim());
        assert_eq!(trim(&once), once);
    }
}

#[test]
fn lower_case_is_that_of_ascii() {
    assert_eq!(to_lower("AbÄZ"), "abÄz");
    assert_eq!(to_lower(&to_lower("AbÄZ")), "abÄz");
}

#[test]
fn joining_undoes_splitting() {
    for sample in ["", ",", "a,b", ",a,,b,"] {
        let pieces = split(sample, ',');
        let expected: Vec<String> = sample.split(',').map(|piece| piece.to_string()).collect();
        assert_eq!(pieces, expected);
        assert_eq!(join(&pieces, ","), sample);
    }
}

#[test]
fn numbers_are_written_and_read_back() {
    for value in [0u64, 7, 10, 999, 1000, u64::MAX] {
        assert_eq!(decimal_text(value as u128), value.to_string());
        assert_eq!(parse_number(&value.to_string()), Some(value));
        assert_eq!(parse_number(&format!("+{}", value)), Some(value));
    }
    for sample in ["", "+", "-1", "1 ", "0x1", "18446744073709551616", "１"] {
        assert_eq!(parse_number(sample), None);
    }
    assert_eq!(parse_number("00000000000000000000000000012"), Some(12));
}

#[test]
fn texts_are_ordered_by_their_characters() {
    assert!(before("a", "b"));
    assert!(before("a", "aa"));
    assert!(!before("a", "a"));
    assert!(before("Z", "a"));
    assert!(before("", "a"));
    assert!(before("z", "é"));
    assert_eq!(sorted_distinct(&texts(&["b", "a", "b", ""])), texts(&["", "a", "b"]));
    assert_eq!(ordered_places(&texts(&["b", "a", "b", "a"])), vec![1, 3, 0, 2]);
}

#[test]
fn paths_are_read_by_their_components() {
    assert_eq!(path("/a//b/./c/"), path("/a/b/c"));
    assert_eq!(path("/a//b/./c/").to_text(), "/a//b/./c/");
    assert_ne!(path("/a/b"), path("/a/c"));
    assert_eq!(path("a/../b").to_text(), "a/../b");
    assert_eq!(path("./a").to_text(), "./a");
    assert_eq!(path("/").to_text(), "/");
    assert_eq!(path("").to_text(), "");
    assert!(path("/a").is_absolute());
    assert!(!path("a").is_absolute());
    for sample in [
        "/a/b", "a", "", "/", "./x", "a/../b", "/a//b/./c/", "///a", "//", "/.", "./", ".", "..",
        "a/./b", "a//", "/a/.", "./.", "/./a", "a/.././", "/a/../b/",
    ] {
        assert_eq!(path(&path(sample).to_text()), path(sample));
        let expected = std::path::Path::new(sample);
        assert_eq!(
            path(sample).parent().map(|dir| dir.to_text()),
            expected.parent().map(|dir| dir.to_string_lossy().to_string())
        );
        assert_eq!(
            path(sample).file_name(),
            expected.file_name().map(|name| name.to_string_lossy().to_string())
        );
    }
}

#[test]
fn paths_are_joined_as_they_are_written() {
    for base in ["/a/", "/a", "", "a//", "/", ".", "./b"] {
        for rel in ["b", "./c", "", "/d", "b/", "../e", ".", "b//c"] {
            let joined = path(base).join(&path(rel));
            let expected = std::path::Path::new(base).join(rel);
            assert_eq!(joined.to_text(), expected.to_string_lossy());
            assert_eq!(path(base).join_text(rel), joined);
            assert_eq!(joined, path(&expected.components().as_path().to_string_lossy()));
        }
    }
}

#[test]
fn paths_are_joined_below_their_base() {
    assert_eq!(path("/a").join(&path("b/c")), path("/a/b/c"));
    assert_eq!(path("/a").join(&path("/b")), path("/b"));
    assert_eq!(path("/a").join_text("b").parent(), Some(path("/a")));
    assert!(path("/a").join_text("b").starts_with(&path("/a")));
    assert!(!path("/ab").starts_with(&path("/a")));
    assert_eq!(path("/a/b").ancestors(), vec![path("/a/b"), path("/a"), path("/")]);
}

#[test]
fn tables_keep_one_value_for_a_key() {
    let mut table: Table<String, u32> = Table::new();
    table.insert("a".to_string(), 1);
    table.insert("b".to_string(), 2);
    table.insert("a".to_string(), 3);
    assert_eq!(table.len(), 2);
    assert_eq!(table.get(&"a".to_string()), Some(&3));
    assert_eq!(table.remove(&"a".to_string()), Some(3));
    assert_eq!(table.remove(&"a".to_string()), None);
    assert!(!table.contains(&"a".to_string()));
    assert_eq!(table.keys(), vec!["b".to_string()]);

    let mut set: KeySet<LexicalPath> = KeySet::new();
    set.insert(path("/a"));
    set.insert(path("/a/"));
    assert_eq!(set.to_list().len(), 1);
    set.remove(&path("/a"));
    assert!(set.is_empty());
}

#[test]
fn numbers_of_scripts_are_read_by_their_bits() {
    let number = |value: f64| Number { bits: value.to_bits(), text: String::new() };
    for value in [
        0.0,
        -0.0,
        0.5,
        1.0,
        1.9,
        100.0,
        -3.5,
        4503599627370496.5,
        9007199254740993.0,
        1.8446744073709552e19,
        1.0e300,
        f64::INFINITY,
        f64::NEG_INFINITY,
        f64::NAN,
        f64::MIN_POSITIVE,
    ] {
        let read = number(value);
        assert_eq!(read.is_finite(), value.is_finite());
        assert_eq!(read.is_below_zero(), value.is_finite() && value < 0.0);
        assert_eq!(read.is_zero_or_below(), value.is_finite() && value <= 0.0);
        assert_eq!(read.is_hundred(), value == 100.0);
        assert_eq!(read.to_unsigned(), value as u64);
    }
}
