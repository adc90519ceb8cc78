use std::path::Path;

use omnect_os_init::number::{
    decimal_text, parse_number, signed_decimal_text, trailing_digits_of, NumberFault,
};
use omnect_os_init::path::{extension, file_name, join, parent, same_path, strip_prefix};
use omnect_os_init::text::{
    chars_of, concat2, concat3, concat4, concat5, copy_of, field_of, find_char, first_word_of,
    has_text, join_with, lines_of, same_text, strip_text_prefix, text_between,
    trim_leading_slashes, white_space,
};

const TEXTS: [&str; 12] = [
    "",
    " ",
    "one",
    "one two",
    "  lead and trail  ",
    "a\nb",
    "a\r\nb\r\n",
    "\n\n",
    "a\rb\n\r\n",
    "x:y:z",
    "::",
    "\u{2003}wide \u{a0}space\u{85}",
];

const PATHS: [&str; 40] = [
    "",
    "/",
    "//",
    ".",
    "..",
    "./",
    "../",
    "/.",
    "/..",
    "a",
    "a/",
    "a//",
    "a/.",
    "a/./",
    "a/..",
    "/a",
    "/a/",
    "/a/b",
    "/a//b",
    "/a/./b",
    "/a/../b",
    "a/b",
    "a/b/",
    "a/b/.",
    "./a",
    "./a/b",
    ".//a",
    "././a",
    "/./a",
    "//a/b//c",
    "a.json",
    "/x/a.b.json",
    ".json",
    "/x/.json",
    "/x/a.",
    "/x/a..",
    "/x/...",
    "/rootfs",
    "/rootfs/etc/hostname",
    "/rootfs/./etc",
];

#[test]
fn white_space_is_that_of_unicode() {
    for n in 0..=0x10ffffu32 {
        if let Some(c) = char::from_u32(n) {
            assert_eq!(white_space(c), c.is_whitespace(), "{n:#x}");
        }
    }
}

#[test]
fn characters_and_pieces() {
    let chars = chars_of("häuser");
    assert_eq!(chars.len(), 6);
    assert_eq!(text_between(&chars, 1, 3), "äu");
    assert_eq!(find_char(&chars, 's', 0), 3);
    assert_eq!(find_char(&chars, 'h', 1), 6);
    assert!(same_text("ä", "ä"));
    assert!(!same_text("ä", "a"));
}

#[test]
fn concatenation_and_copies() {
    assert_eq!(concat2("a", "b"), "ab");
    assert_eq!(concat3("a", "b", "c"), "abc");
    assert_eq!(concat4("a", "b", "c", "d"), "abcd");
    assert_eq!(concat5("a", "b", "c", "d", "e"), "abcde");
    let list = vec!["x".to_string(), "".to_string()];
    assert_eq!(copy_of(&list), list);
}

#[test]
fn lines_are_those_of_the_standard_library() {
    for text in TEXTS {
        let expected: Vec<String> = text.lines().map(|l| l.to_string()).collect();
        assert_eq!(lines_of(text), expected, "{text:?}");
    }
}

#[test]
fn first_words_are_those_of_the_standard_library() {
    for text in TEXTS {
        let expected = text.split_whitespace().next().map(|w| w.to_string());
        assert_eq!(first_word_of(text), expected, "{text:?}");
    }
}

#[test]
fn fields_are_those_of_the_standard_library() {
    for text in TEXTS {
        for k in 0..4usize {
            let expected = text.split(':').nth(k).map(|f| f.to_string());
            assert_eq!(field_of(text, ':', k), expected, "{text:?} {k}");
        }
    }
}

#[test]
fn searches_are_those_of_the_standard_library() {
    for text in TEXTS {
        for pattern in ["", "a", "one", "two", "trail ", "\n", "y:z", "absent"] {
            assert_eq!(has_text(text, pattern), text.contains(pattern), "{text:?} {pattern:?}");
            let expected = text.strip_prefix(pattern).map(|r| r.to_string());
            assert_eq!(strip_text_prefix(text, pattern), expected, "{text:?} {pattern:?}");
        }
    }
}

#[test]
fn leading_slashes_are_removed() {
    for path in PATHS {
        assert_eq!(trim_leading_slashes(path), path.trim_start_matches('/'));
    }
}

#[test]
fn parts_are_joined() {
    let none: Vec<String> = Vec::new();
    assert_eq!(join_with(";", &none), "");
    assert_eq!(join_with(";", &vec!["a".to_string()]), "a");
    assert_eq!(join_with("; ", &vec!["a".to_string(), "".to_string(), "c".to_string()]), "a; ; c");
}

#[test]
fn numbers_are_written_in_decimal() {
    for n in [0u32, 1, 9, 10, 99, 100, 4294967295] {
        assert_eq!(decimal_text(n), n.to_string());
    }
    for n in [0i32, 7, -1, -10, i32::MAX, i32::MIN] {
        assert_eq!(signed_decimal_text(n), n.to_string());
    }
}

#[test]
fn what_is_written_in_decimal_reads_back() {
    for n in [0u32, 5, 10, 4294967295] {
        assert_eq!(parse_number(&decimal_text(n)), Ok(n));
    }
}

#[test]
fn numbers_are_read_as_the_standard_library_reads_them() {
    let texts = [
        "", "0", "007", "42", "+42", "+", "-", "-1", " 1", "1 ", "4294967295", "4294967296",
        "99999999999x", "12x", "x12", "٣", "1:2",
    ];
    for text in texts {
        match (parse_number(text), text.parse::<u32>()) {
            (Ok(n), Ok(m)) => assert_eq!(n, m),
            (Err(fault), Err(e)) => assert_eq!(fault.message(), e.to_string(), "{text:?}"),
            (ours, theirs) => panic!("{text:?}: {ours:?} and {theirs:?}"),
        }
    }
}

#[test]
fn each_fault_of_a_number_has_its_words() {
    assert_eq!(parse_number(""), Err(NumberFault::Empty));
    assert_eq!(parse_number("x"), Err(NumberFault::InvalidDigit));
    assert_eq!(parse_number("4294967296"), Err(NumberFault::TooLarge));
    assert_eq!(NumberFault::Empty.message(), "cannot parse integer from empty string");
    assert_eq!(NumberFault::InvalidDigit.message(), "invalid digit found in string");
    assert_eq!(NumberFault::TooLarge.message(), "number too large to fit in target type");
}

#[test]
fn trailing_digits_are_taken() {
    assert_eq!(trailing_digits_of("sda8"), "8");
    assert_eq!(trailing_digits_of("nvme0n1p17"), "17");
    assert_eq!(trailing_digits_of("007"), "007");
    assert_eq!(trailing_digits_of("sda"), "");
    assert_eq!(trailing_digits_of(""), "");
}

fn text_of(path: &Path) -> String {
    path.to_str().unwrap().to_string()
}

#[test]
fn paths_are_joined_as_the_standard_library_joins_them() {
    for base in PATHS {
        for rest in PATHS {
            assert_eq!(join(base, rest), text_of(&Path::new(base).join(rest)));
        }
    }
}

#[test]
fn parents_and_names_are_those_of_the_standard_library() {
    for text in PATHS {
        let path = Path::new(text);
        assert_eq!(parent(text), path.parent().map(text_of), "{text:?}");
        let name = path.file_name().map(|n| n.to_str().unwrap().to_string());
        assert_eq!(file_name(text), name, "{text:?}");
        let suffix = path.extension().map(|e| e.to_str().unwrap().to_string());
        assert_eq!(extension(text), suffix, "{text:?}");
    }
}

#[test]
fn paths_are_compared_as_the_standard_library_compares_them() {
    for p in PATHS {
        for q in PATHS {
            assert_eq!(same_path(p, q), Path::new(p) == Path::new(q), "{p:?} {q:?}");
        }
    }
}

#[test]
fn prefixes_are_stripped_as_the_standard_library_strips_them() {
    for p in PATHS {
        for base in PATHS {
            let expected = Path::new(p).strip_prefix(base).ok().map(text_of);
            assert_eq!(strip_prefix(p, base), expected, "{p:?} {base:?}");
        }
    }
}
