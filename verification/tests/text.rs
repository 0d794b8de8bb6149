//! Numbers and splitting, held against the standard library.

use reptyr::list;
use reptyr::text::{
    chars_of, copy_text, last_part, parse_i32, parse_i64, parse_u32, parse_u64, push_decimal,
    push_signed, same_text, split, split_fields, tail_after, white_space,
};

fn v(s: &str) -> Vec<char> {
    s.chars().collect()
}

const SAMPLES: &[&str] = &[
    "", "0", "+", "-", "+0", "-0", "7", "007", "+12", "-12", "++1", "--1", "+-1", "1 ", " 1", "1a",
    "a1", "4294967295", "4294967296", "2147483647", "2147483648", "-2147483648", "-2147483649",
    "18446744073709551615", "18446744073709551616", "9223372036854775807", "9223372036854775808",
    "-9223372036854775808", "-9223372036854775809", "99999999999999999999999", "１", "1_000", "0x10",
    "00000000000000000000000000000001",
];

#[test]
fn numbers_read_as_in_the_standard_library() {
    for s in SAMPLES {
        assert_eq!(parse_u64(&v(s)), s.parse::<u64>().ok(), "{}", s);
        assert_eq!(parse_u32(&v(s)), s.parse::<u32>().ok(), "{}", s);
        assert_eq!(parse_i64(&v(s)), s.parse::<i64>().ok(), "{}", s);
        assert_eq!(parse_i32(&v(s)), s.parse::<i32>().ok(), "{}", s);
    }
}

#[test]
fn numbers_are_written_in_decimal() {
    for n in [0u64, 1, 9, 10, 99, 100, 12345, u64::MAX] {
        let mut s = copy_text("n=");
        push_decimal(&mut s, n);
        assert_eq!(s, format!("n={}", n));
    }
    for n in [0i64, -1, 7, -10, i64::MAX, i64::MIN] {
        let mut s = String::new();
        push_signed(&mut s, n);
        assert_eq!(s, format!("{}", n));
        assert_eq!(parse_i64(&v(&s)), Some(n));
    }
}

#[test]
fn white_space_is_that_of_unicode() {
    for u in 0..=0x10ffffu32 {
        if let Some(c) = char::from_u32(u) {
            assert_eq!(white_space(c), c.is_whitespace(), "{:x}", u);
        }
    }
}

#[test]
fn splitting_is_that_of_the_standard_library() {
    for s in ["", "|", "a", "a|b", "|a", "a|", "a||b", "stdin|stdout|stderr", "ä|ö"] {
        let expected: Vec<&str> = s.split('|').collect();
        assert_eq!(split(s, '|'), expected, "{}", s);
    }
    for s in ["", " ", "a", " a ", "a b", "a\t b\u{a0}c\n", "  S  1  2 "] {
        let expected: Vec<Vec<char>> = s.split_whitespace().map(v).collect();
        assert_eq!(split_fields(&v(s), 0), expected, "{}", s);
    }
    assert_eq!(split_fields(&v("x y z"), 1), vec![v("y"), v("z")]);
}

#[test]
fn the_last_part_is_that_of_the_standard_library() {
    for s in ["", "/", "a", "a/b", "/a/", "/dev/pts/4", "//"] {
        let expected = s.rsplit('/').next().unwrap();
        let chars = v(s);
        assert_eq!(tail_after(&chars, '/'), v(expected), "{}", s);
        assert_eq!(&chars[last_part(&chars, '/')..], &v(expected)[..], "{}", s);
    }
}

#[test]
fn text_is_compared_by_its_characters() {
    assert!(same_text("stdin", "stdin"));
    assert!(!same_text("stdin", "stdout"));
    assert!(!same_text("std", "stdin"));
    assert!(same_text("", ""));
    assert_eq!(chars_of("äb"), vec!['ä', 'b']);
}

#[test]
fn lists_are_put_in_order() {
    let v = vec![7, 3, 9, -1, 3, 5];
    let mut expected = v.clone();
    expected.sort_unstable();
    assert_eq!(list::sort(&v, None), expected);
    let mut led = v.clone();
    led.sort_by_key(|&t| (t != 5, t));
    assert_eq!(list::sort(&v, Some(5)), led);
    assert_eq!(led[0], 5);
    let mut w = v.clone();
    list::remove_all(&mut w, 3);
    assert_eq!(w, vec![7, 9, -1, 5]);
    assert!(list::contains(&v, 9));
    assert!(!list::contains(&v, 4));
    assert_eq!(list::copy(&v), v);
}
