use probe::{decimal_string, filename_numeric, is_utf8, parse_usize, IntError, ProbeError};
use std::num::IntErrorKind;
use std::path::Path;

fn number(path: &str) -> usize {
    match filename_numeric(path.as_bytes()) {
        Ok(n) => n,
        Err(e) => panic!("{path}: {e:?}"),
    }
}

fn int_error(path: &[u8]) -> IntError {
    match filename_numeric(path) {
        Err(ProbeError::ParseIntError(e)) => e,
        other => panic!("{other:?}"),
    }
}

#[test]
fn names_of_directories_and_arena_files() {
    assert_eq!(number("1234"), 1234);
    assert_eq!(number("/tmp/record/pids/77/"), 77);
    assert_eq!(number("record/77/0/78/data/3.dat"), 3);
    assert_eq!(number("007"), 7);
    assert_eq!(number("+5.dat"), 5);
    assert_eq!(number("a/12/."), 12);
    assert_eq!(number("a/12//./"), 12);
}

#[test]
fn only_the_last_extension_is_cut() {
    assert_eq!(int_error(b"1.2.dat"), IntError::InvalidDigit);
    assert_eq!(int_error(b".5"), IntError::InvalidDigit);
    assert_eq!(number("5."), 5);
}

#[test]
fn paths_without_a_stem() {
    for path in ["", "/", ".", "..", "a/..", "./.", "//"] {
        assert!(
            matches!(
                filename_numeric(path.as_bytes()),
                Err(ProbeError::MissingValue("File has no stem"))
            ),
            "{path}"
        );
    }
}

#[test]
fn stems_that_are_not_unicode() {
    match filename_numeric(b"12\xff.dat") {
        Err(ProbeError::Context { context, inner }) => {
            assert_eq!(context, "Failed to parse filename to integer");
            assert!(matches!(*inner, ProbeError::MissingValue("Unable to parse as Unicode")));
        }
        other => panic!("{other:?}"),
    }
}

#[test]
fn stems_that_are_no_numbers() {
    assert_eq!(int_error(b"main"), IntError::InvalidDigit);
    assert_eq!(int_error(b"-1"), IntError::InvalidDigit);
    assert_eq!(int_error(b"+"), IntError::InvalidDigit);
    assert_eq!(int_error("１".as_bytes()), IntError::InvalidDigit);
    assert_eq!(int_error(b"99999999999999999999999999"), IntError::PosOverflow);
    assert_eq!(int_error(b"99999999999999999999999999x"), IntError::PosOverflow);
    assert_eq!(int_error(b"9x99999999999999999999999999"), IntError::InvalidDigit);
    assert_eq!(parse_usize(b""), Err(IntError::Empty));
}

#[test]
fn numbers_agree_with_the_standard_library() {
    let max = usize::MAX.to_string();
    let over = format!("{}0", max);
    let next = format!("{}6", &max[..max.len() - 1]);
    for s in [
        "", "+", "-", "0", "+0", "-0", "00", "12", "1 2", "+12", "++12", "12+", "1a", "a1", "é",
        max.as_str(), over.as_str(), next.as_str(),
    ] {
        let expected = s.parse::<usize>().map_err(|e| match e.kind() {
            IntErrorKind::Empty => IntError::Empty,
            IntErrorKind::InvalidDigit => IntError::InvalidDigit,
            _ => IntError::PosOverflow,
        });
        assert_eq!(parse_usize(s.as_bytes()), expected, "{s}");
    }
}

#[test]
fn stems_agree_with_the_standard_library() {
    for s in [
        "7", "7.dat", "7.8.dat", ".7", "..7", "...", "7.", "a/7", "a/7/", "a//7", "/7", "a/./7",
        "7/.", "7/./.", "7/..", "..", ".", "", "/", "//", "./7", "./", "7/../8.x", ".7/9", "a.b/3",
    ] {
        let expected = Path::new(s)
            .file_stem()
            .map(|stem| stem.to_str().unwrap().parse::<usize>().ok());
        let got = match filename_numeric(s.as_bytes()) {
            Ok(n) => Some(Some(n)),
            Err(ProbeError::MissingValue(_)) => None,
            Err(_) => Some(None),
        };
        assert_eq!(got, expected, "{s}");
    }
}

#[test]
fn decimal_names_parse_back() {
    for n in [0, 1, 9, 10, 11, 99, 100, 65535, usize::MAX - 1, usize::MAX] {
        let name = decimal_string(n);
        assert_eq!(name, n.to_string());
        assert_eq!(number(&name), n);
        assert_eq!(number(&format!("out/{name}")), n);
        assert_eq!(number(&format!("out/{name}.dat")), n);
    }
}

#[test]
fn utf8_agrees_with_the_standard_library() {
    let samples: [&[u8]; 22] = [
        b"",
        b"abc",
        "äöü".as_bytes(),
        "€".as_bytes(),
        "😀".as_bytes(),
        b"\x80",
        b"\xc0\x80",
        b"\xc1\xbf",
        b"\xc2\x80",
        b"\xc2",
        b"\xe0\x9f\xbf",
        b"\xe0\xa0\x80",
        b"\xed\x9f\xbf",
        b"\xed\xa0\x80",
        b"\xef\xbf\xbf",
        b"\xe2\x82",
        b"\xf0\x8f\xbf\xbf",
        b"\xf0\x90\x80\x80",
        b"\xf4\x8f\xbf\xbf",
        b"\xf4\x90\x80\x80",
        b"\xf5\x80\x80\x80",
        b"a\xf0\x9f\x98\x80b\xff",
    ];
    for bytes in samples {
        assert_eq!(is_utf8(bytes), std::str::from_utf8(bytes).is_ok(), "{bytes:?}");
    }
}
