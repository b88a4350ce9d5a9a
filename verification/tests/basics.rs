use std::path::Path;

use codecrab::hash::{digest_hex, to_hex};
use codecrab::ids::id_text;
use codecrab::numbers::{parse_i32, parse_unsigned};
use codecrab::paths::{file_name, is_absolute, is_below, join, relative, single_name, stem, Platform};
use codecrab::table::Table;
use codecrab::text::{
    contains, ends_with, less, lines_of, same_ignoring_ascii_case, split, starts_with,
    take_chars, to_ascii_lowercase, to_decimal, trim, trim_end, trim_start, white, words_of,
};

const TEXTS: [&str; 16] = [
    "",
    " ",
    "a",
    "one two",
    "  padded\t\n",
    "\u{a0}wide\u{3000}",
    "a\nb\n",
    "a\r\nb\r",
    "\n\n",
    "Größe ÄÖÜ",
    "x--y",
    "\r",
    "tab\tand\u{85}more",
    "😀 smile",
    "A-B_C",
    "\u{2028}line\u{2029}",
];

#[test]
fn white_space_is_what_the_standard_says() {
    for c in '\0'..=char::MAX {
        assert_eq!(white(c), c.is_whitespace(), "{c:?}");
    }
}

#[test]
fn texts_are_cut_as_the_standard_cuts_them() {
    for text in TEXTS {
        assert_eq!(trim(text), text.trim());
        assert_eq!(trim_start(text), text.trim_start());
        assert_eq!(trim_end(text), text.trim_end());
        assert_eq!(lines_of(text), text.lines().map(str::to_owned).collect::<Vec<_>>());
        assert_eq!(
            words_of(text),
            text.split_whitespace().map(str::to_owned).collect::<Vec<_>>()
        );
        assert_eq!(split(text, '-'), text.split('-').map(str::to_owned).collect::<Vec<_>>());
        assert_eq!(to_ascii_lowercase(text), text.to_ascii_lowercase());
        assert_eq!(take_chars(text, 3), text.chars().take(3).collect::<String>());
    }
}

#[test]
fn texts_are_compared_as_the_standard_compares_them() {
    for a in TEXTS {
        for b in TEXTS {
            assert_eq!(less(a, b), a < b, "{a:?} {b:?}");
            assert_eq!(starts_with(a, b), a.starts_with(b));
            assert_eq!(ends_with(a, b), a.ends_with(b));
            assert_eq!(contains(a, b), a.contains(b));
            assert_eq!(same_ignoring_ascii_case(a, b), a.eq_ignore_ascii_case(b));
        }
    }
}

#[test]
fn paths_are_taken_apart_as_the_standard_does() {
    let paths = [
        "/", "/a", "/a/", "a", "a/b", "/a/b.txt", "..", "a/..", ".", "./a", "a/.", "/a//b",
        ".hidden", "a.b.c", "a.",
    ];
    for path in paths {
        let name = Path::new(path).file_name().map(|name| name.to_str().unwrap().to_owned());
        assert_eq!(file_name(Platform::Linux, path), name, "{path}");
        if let Some(name) = &name {
            let expected = Path::new(name).file_stem().unwrap().to_str().unwrap();
            assert_eq!(stem(name), expected, "{path}");
        }
        let joined = Path::new("/base").join(path);
        assert_eq!(join(Platform::Linux, "/base", path), joined.to_str().unwrap(), "{path}");
    }
    assert_eq!(relative(Platform::Linux, "/root", "/root/src/a.rs"), "src/a.rs");
    assert_eq!(relative(Platform::Linux, "/root", "/rootless/a"), "/rootless/a");
    assert!(is_below(Platform::Linux, "/a/b", "/a/b/c"));
    assert!(is_below(Platform::Linux, "/a/b/", "/a//b"));
    assert!(!is_below(Platform::Linux, "/a/b", "/a/bc"));
    assert!(single_name(Platform::Linux, "a b") && !single_name(Platform::Linux, "a/b") && !single_name(Platform::Linux, ".."));
}

#[test]
fn decimals_are_written_and_read_back() {
    for n in [0, 7, 10, 99, 12_345, u64::MAX] {
        assert_eq!(to_decimal(n), n.to_string());
        assert_eq!(parse_unsigned(&to_decimal(n), u64::MAX), Some(n));
    }
    let texts = [
        "", "+", "-", "+7", "-7", "007", " 7", "7a", "18446744073709551616", "2147483647",
        "2147483648", "-2147483648", "-2147483649", "٣",
    ];
    for text in texts {
        assert_eq!(parse_unsigned(text, u64::MAX), text.parse::<u64>().ok(), "{text}");
        assert_eq!(parse_i32(text), text.parse::<i32>().ok(), "{text}");
    }
    assert_eq!(parse_unsigned("256", 255), None);
}

#[test]
fn ids_and_digests_are_written_in_hexadecimal() {
    let id = uuid::Uuid::from_u128(0x0123_4567_89ab_cdef_0011_2233_4455_6677);
    assert_eq!(id_text(id.as_u128()), id.to_string());
    assert_ne!(id_text(1), id_text(2));
    assert_eq!(to_hex(&[0, 171, 255]), "00abff");
    assert_eq!(
        digest_hex(b"abc"),
        "ba7816bf8f01cfea414140de5dae2223b00361a396177a9cb410ff61f20015ad"
    );
}

#[test]
fn tables_hold_one_value_for_a_name() {
    let mut table = Table::new();
    assert_eq!(table.insert("b", 1), None);
    assert_eq!(table.insert("a", 2), None);
    assert_eq!(table.insert("b", 3), Some(1));
    assert_eq!(table.len(), 2);
    assert_eq!((table.name_at(0), table.name_at(1)), ("a", "b"));
    assert_eq!((table.get("b"), table.get("c")), (Some(&3), None));
    assert_eq!(table.remove("a"), Some(2));
    assert!(!table.contains("a"));
}

#[test]
fn paths_of_windows_lie_on_drives_and_shares() {
    let on = Platform::Windows;
    for path in ["C:\\x", "c:/x", "\\\\server\\share", "\\\\server\\share\\x", "\\\\?\\C:\\x"] {
        assert!(is_absolute(on, path), "{path}");
    }
    for path in ["x", "C:", "C:x", "\\x", "/x", "", "\\\\server"] {
        assert!(!is_absolute(on, path), "{path}");
    }
    assert_eq!(join(on, "C:\\a", "b"), "C:\\a\\b");
    assert_eq!(join(on, "C:\\a\\", "b"), "C:\\a\\b");
    assert_eq!(join(on, "C:/a/", "b"), "C:/a/b");
    assert_eq!(join(on, "C:", "b"), "C:b");
    assert_eq!(join(on, "C:\\a", "\\b"), "C:\\b");
    assert_eq!(join(on, "C:\\a", "D:b"), "D:b");
    assert_eq!(join(on, "\\\\server\\share", "b"), "\\\\server\\share\\b");
    assert_eq!(join(on, "\\\\?\\C:\\a\\b", "../c/./d"), "\\\\?\\C:\\a\\c\\d");
    assert_eq!(join(on, "\\\\?\\C:\\a", ".."), "\\\\?\\C:\\");
    assert_eq!(join(on, "\\\\?\\C:\\a", "\\b"), "\\\\?\\C:\\b");
    assert_eq!(join(on, "\\\\?\\UNC\\s\\t\\a", "b"), "\\\\?\\UNC\\s\\t\\a\\b");
    assert_eq!(file_name(on, "C:\\tools\\pwsh.exe").as_deref(), Some("pwsh.exe"));
    assert_eq!(file_name(on, "C:").as_deref(), None);
    assert_eq!(relative(on, "C:\\root", "C:\\root\\src\\a.rs"), "src/a.rs");
    assert!(is_below(on, "C:\\a", "c:/a/b") && !is_below(on, "C:\\a", "D:\\a\\b"));
    assert!(single_name(on, "a b") && !single_name(on, "a\\b") && !single_name(on, "C:a"));
    assert_eq!(file_name(Platform::Linux, "a\\b").as_deref(), Some("a\\b"));
}
