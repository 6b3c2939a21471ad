use volume_controller::path::{
    directory_name, extension_of, is_path_before, is_under, join_path, name_of, stem_of,
};
use volume_controller::table::Table;
use volume_controller::text::{
    characters, contains, ends_with, find_after, is_before, is_white_space, lower_text,
    only_digits, only_hex_digits, parse_u32, replace, same_ignoring_case, split, split_at_white,
    split_lines, split_once, split_words, starts_with, strip, strip_suffixes, to_decimal,
    trim_text,
};

fn chars(text: &str) -> Vec<char> {
    characters(text)
}

fn text(chars: &[char]) -> String {
    chars.iter().collect()
}

#[test]
fn texts_split_as_expected() {
    let parts: Vec<String> = split(&chars("a::b:"), ':').iter().map(|part| text(part)).collect();
    assert_eq!(parts, ["a", "", "b", ""]);
    let words: Vec<String> = split_words(&chars("  a\tb  c\n")).iter().map(|part| text(part)).collect();
    assert_eq!(words, ["a", "b", "c"]);
    let lines: Vec<String> = split_lines(&chars("a\r\n\nb\n")).iter().map(|part| text(part)).collect();
    assert_eq!(lines, ["a", "", "b"]);
    assert_eq!(trim_text(" \u{a0}x\u{3000} "), "x");
    let row = chars("key\tsome value");
    let (key, value) = split_at_white(&row).unwrap();
    assert_eq!((text(key), text(value)), ("key".to_owned(), "some value".to_owned()));
    assert_eq!(find_after(&chars("xxabc"), "xa").map(text), Some("bc".to_owned()));
    assert_eq!(find_after(&chars("xx"), "y").map(text), None);
}

#[test]
fn texts_are_replaced_and_stripped() {
    let out = replace(&chars("a--b---"), &chars("--"), &chars("+"));
    assert_eq!(text(&out), "a+b+-");
    let row = chars("icon.png.png");
    assert_eq!(text(strip_suffixes(&row, &chars(".png"))), "icon");
}

#[test]
fn numbers_are_read_and_written() {
    assert_eq!(parse_u32(&chars("4294967295")), Some(u32::MAX));
    assert_eq!(parse_u32(&chars("4294967296")), None);
    assert_eq!(parse_u32(&chars("+7")), Some(7));
    assert_eq!(parse_u32(&chars("")), None);
    assert_eq!(parse_u32(&chars("+")), None);
    assert_eq!(parse_u32(&chars("-1")), None);
    assert_eq!(to_decimal(0), "0");
    assert_eq!(to_decimal(u64::MAX), u64::MAX.to_string());
}

#[test]
fn texts_are_ordered_by_code_point() {
    for (a, b) in [("", "a"), ("a", "b"), ("a", "aa"), ("z", "ä"), ("A", "a")] {
        assert!(is_before(a, b), "{a} {b}");
        assert!(!is_before(b, a), "{a} {b}");
    }
    assert!(!is_before("a", "a"));
}

#[test]
fn paths_are_taken_apart_as_the_standard_library_does() {
    for path in ["/a/b.c", "a/b", "/", "", ".", "..", "a/..", "x/.hidden", "a.b.c/", "./d", "//e//f.g/"] {
        let std_path = std::path::Path::new(path);
        let name = std_path.file_name().map(|value| value.to_str().unwrap().to_owned());
        assert_eq!(name_of(&chars(path)).map(|value| text(&value)), name, "{path}");
        let stem = std_path.file_stem().map(|value| value.to_str().unwrap().to_owned());
        assert_eq!(stem_of(&chars(path)).map(|value| text(&value)), stem, "{path}");
        let extension = std_path.extension().map(|value| value.to_str().unwrap().to_owned());
        assert_eq!(extension_of(&chars(path)).map(|value| text(&value)), extension, "{path}");
        let above = std_path
            .parent()
            .and_then(|value| value.parent())
            .and_then(|value| value.file_name())
            .map(|value| value.to_str().unwrap().to_owned());
        assert_eq!(directory_name(&chars(path)).map(|value| text(&value)), above, "{path}");
        for other in ["/a", "a", "/", "", "./d", "//e/f.g", "a.b.c", ".."] {
            let std_other = std::path::Path::new(other);
            assert_eq!(is_under(path, other), std_path.starts_with(std_other), "{path} {other}");
            assert_eq!(is_path_before(path, other), std_path < std_other, "{path} {other}");
            let joined = std_path.join(std_other);
            assert_eq!(join_path(path, other), joined.to_str().unwrap(), "{path} {other}");
        }
    }
}

#[test]
fn tables_keep_one_value_for_each_key() {
    let mut table: Table<u8, u8> = Table::new();
    table.insert(3, 1);
    table.insert(1, 2);
    table.insert(3, 4);
    table.insert_new(1, 9);
    assert_eq!(table.len(), 2);
    assert_eq!((*table.key_at(0), *table.value_at(0)), (3, 4));
    assert_eq!(table.get(&1), Some(&2));
    assert_eq!(table.remove(&3), Some(4));
    assert_eq!(table.remove(&3), None);
    assert!(!table.contains(&3));
    assert_eq!(table.len(), 1);
}

const SAMPLES: [&str; 14] = [
    "",
    " ",
    "a",
    "aaa",
    "a=b=c",
    " Key = Value ",
    "one two\tthree\r\nfour\n",
    "\r\n\r\n",
    "x\ry\n\n",
    "\u{3000}wide\u{2003}space\u{a0}",
    "'quoted' \"text\"",
    "ÄÖÜ ßE",
    "00123",
    "DeadBeef",
];

fn texts(parts: &[Vec<char>]) -> Vec<String> {
    parts.iter().map(|part| text(part)).collect()
}

#[test]
fn characters_are_white_as_in_the_standard_library() {
    for c in '\0'..=char::MAX {
        assert_eq!(is_white_space(c), c.is_whitespace(), "{:x}", u32::from(c));
    }
}

#[test]
fn texts_are_handled_as_in_the_standard_library() {
    for sample in SAMPLES {
        let row = chars(sample);
        assert_eq!(trim_text(sample), sample.trim());
        assert_eq!(lower_text(sample), sample.to_ascii_lowercase());
        assert_eq!(texts(&split_words(&row)), sample.split_whitespace().collect::<Vec<_>>());
        assert_eq!(texts(&split_lines(&row)), sample.lines().collect::<Vec<_>>());
        assert_eq!(texts(&split(&row, '=')), sample.split('=').collect::<Vec<_>>());
        assert_eq!(
            split_once(&row, '=').map(|(key, value)| (text(key), text(value))),
            sample
                .split_once('=')
                .map(|(key, value)| (key.to_owned(), value.to_owned()))
        );
        assert_eq!(
            split_at_white(&row).map(|(key, value)| (text(key), text(value))),
            sample
                .split_once(char::is_whitespace)
                .map(|(key, value)| (key.to_owned(), value.to_owned()))
        );
        assert_eq!(text(strip(&row, &['\'', '"'])), sample.trim_matches(['\'', '"']));
        assert_eq!(parse_u32(&row), sample.parse().ok());
        assert_eq!(only_digits(&row), sample.chars().all(|c| c.is_ascii_digit()));
        assert_eq!(only_hex_digits(&row), sample.chars().all(|c| c.is_ascii_hexdigit()));
        for other in SAMPLES {
            let part = chars(other);
            assert_eq!(is_before(sample, other), sample < other);
            assert_eq!(contains(&row, &part), sample.contains(other));
            assert_eq!(starts_with(&row, &part), sample.starts_with(other));
            assert_eq!(ends_with(&row, &part), sample.ends_with(other));
            assert_eq!(
                same_ignoring_case(sample, other),
                sample.eq_ignore_ascii_case(other)
            );
            if !other.is_empty() {
                assert_eq!(
                    text(strip_suffixes(&row, &part)),
                    sample.trim_end_matches(other)
                );
                assert_eq!(
                    text(&replace(&row, &part, &chars("<>"))),
                    sample.replace(other, "<>")
                );
            }
        }
    }
}
