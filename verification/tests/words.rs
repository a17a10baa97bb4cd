use standup::paths::{
    comes_first, file_name, is_absolute, is_inside, is_same_place, join, parent, push_unique,
    tidied,
};
use standup::strings::{
    contains, leading_bytes, lowercase, number, parse_signed, parse_unsigned, signed_number, split,
    split_lines, split_once, split_words, trim, NumberError,
};

#[test]
fn a_written_number_reads_back() {
    for n in [0, 7, 10, 86_400, u64::MAX] {
        assert_eq!(number(n), format!("{n}"));
        assert_eq!(parse_unsigned(&number(n), u64::MAX), Ok(n));
    }
    for n in [0, -1, 42, i64::MIN, i64::MAX] {
        assert_eq!(signed_number(n), format!("{n}"));
        assert_eq!(parse_signed(&signed_number(n)), Ok(n));
    }
}

#[test]
fn what_is_no_number_says_why() {
    assert_eq!(parse_unsigned("", 9), Err(NumberError::Empty));
    assert_eq!(parse_unsigned("x", 9), Err(NumberError::InvalidDigit));
    assert_eq!(parse_unsigned("10", 9), Err(NumberError::TooLarge));
    assert_eq!(parse_unsigned("+7", 9), Ok(7));
    assert_eq!(
        parse_signed("-9223372036854775809"),
        Err(NumberError::TooSmall)
    );
    for (error, said) in [
        (NumberError::Empty, "".parse::<i64>()),
        (NumberError::InvalidDigit, "x".parse()),
        (NumberError::TooLarge, "9223372036854775808".parse()),
        (NumberError::TooSmall, "-9223372036854775809".parse()),
    ] {
        assert_eq!(error.message(), format!("{}", said.unwrap_err()));
    }
}

#[test]
fn text_is_cut_as_std_cuts_it() {
    for s in ["", "a", " a b\tc\u{a0}", "x\u{2003}y\n", "a,b,,c", "one\ntwo\r\nthree\n"] {
        assert_eq!(trim(s), s.trim());
        assert_eq!(split_words(s), s.split_whitespace().collect::<Vec<_>>());
        assert_eq!(split(s, ','), s.split(',').collect::<Vec<_>>());
        assert_eq!(split_lines(s), s.lines().collect::<Vec<_>>());
        assert_eq!(
            split_once(s, ','),
            s.split_once(',').map(|(a, b)| (a.to_string(), b.to_string()))
        );
        assert_eq!(contains(s, "b,"), s.contains("b,"));
    }
    assert_eq!(lowercase("MarkDown"), "markdown");
    assert_eq!(leading_bytes("0123456789", 8), "01234567");
}

#[test]
fn paths_are_compared_by_component() {
    assert!(is_same_place("/a/b/", "/a/./b"));
    assert!(!is_same_place("/a/b", "/a/c"));
    assert!(is_inside("/a/b", "/a"));
    assert!(!is_inside("/ab", "/a"));
    assert!(comes_first("/a/z", "/a-b"));
    assert!(is_absolute("/a") && !is_absolute("a"));
    assert_eq!(file_name("/a/b/"), Some("b".to_string()));
    assert_eq!(file_name("/"), None);
    assert_eq!(join("/a", "b"), "/a/b");
    assert_eq!(join("/a/", "b"), "/a/b");
    assert_eq!(join("/a", "/b"), "/b");
    assert_eq!(parent("/a/b"), Some("/a".to_string()));
    assert_eq!(parent("/"), None);
    assert_eq!(tidied("/a/./b/"), "/a/b");
    let mut list = vec!["/a".to_string()];
    push_unique(&mut list, "/a/");
    push_unique(&mut list, "/b");
    assert_eq!(list, ["/a", "/b"]);
}
