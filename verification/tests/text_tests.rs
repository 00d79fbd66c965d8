use ingest_api::text::{
    contains_chars, contains_text, decimal_chars, eq_ignore_ascii_case_chars, find_char, join_strings, lines_chars,
    parse_i64_chars, parse_unsigned_chars, signed_decimal_chars, split_chars, split_once_chars, starts_with_chars,
    trim_str, u64_text,
};

fn c(s: &str) -> Vec<char> {
    s.chars().collect()
}

fn strs(v: Vec<Vec<char>>) -> Vec<String> {
    v.into_iter().map(|x| x.into_iter().collect()).collect()
}

#[test]
fn trim_matches_std() {
    for s in ["  a b \t", "\u{3000}x\u{a0}\u{2028}", "", "   ", "\u{85}y\u{200a}", "z"] {
        assert_eq!(trim_str(s), s.trim(), "{s:?}");
    }
}

#[test]
fn split_and_lines_match_std() {
    for s in ["a,b,,c", ",", "", "abc", "a,"] {
        let want: Vec<String> = s.split(',').map(String::from).collect();
        assert_eq!(strs(split_chars(&c(s), ',')), want, "{s:?}");
    }
    for s in ["a\r\nb\n", "a\n\nb", "", "\n", "x", "a\r\n\r\n", "one\ntwo"] {
        let want: Vec<String> = s.lines().map(String::from).collect();
        assert_eq!(strs(lines_chars(&c(s))), want, "{s:?}");
    }
}

#[test]
fn numbers_print_and_parse() {
    assert_eq!(u64_text(0), "0");
    assert_eq!(u64_text(u64::MAX), u64::MAX.to_string());
    assert_eq!(decimal_chars(1234), c("1234"));
    assert_eq!(signed_decimal_chars(-42), c("-42"));
    assert_eq!(signed_decimal_chars(i64::MIN), c(&i64::MIN.to_string()));
    assert_eq!(parse_unsigned_chars(&c("+17"), 100), Some(17));
    assert_eq!(parse_unsigned_chars(&c("101"), 100), None);
    assert_eq!(parse_unsigned_chars(&c(""), 100), None);
    assert_eq!(parse_unsigned_chars(&c("1a"), 100), None);
    assert_eq!(parse_unsigned_chars(&c("18446744073709551615"), u64::MAX), Some(u64::MAX));
    assert_eq!(parse_unsigned_chars(&c("18446744073709551616"), u64::MAX), None);
    assert_eq!(parse_i64_chars(&c("-9223372036854775808")), Some(i64::MIN));
    assert_eq!(parse_i64_chars(&c("-9223372036854775809")), None);
    assert_eq!(parse_i64_chars(&c("9223372036854775807")), Some(i64::MAX));
    assert_eq!(parse_i64_chars(&c("-")), None);
    assert_eq!(parse_i64_chars(&c("+5")), Some(5));
}

#[test]
fn searching() {
    assert_eq!(find_char(&c("a:b:c"), ':'), Some(1));
    assert_eq!(find_char(&c("abc"), ':'), None);
    assert_eq!(split_once_chars(&c("12:ab:cd"), ':'), Some((c("12"), c("ab:cd"))));
    assert_eq!(split_once_chars(&c("12"), ':'), None);
    assert!(contains_chars(&c("Code: 60. UNKNOWN_TABLE"), &c("UNKNOWN_TABLE")));
    assert!(contains_chars(&c("abc"), &c("")));
    assert!(!contains_chars(&c("ab"), &c("abc")));
    assert!(starts_with_chars(&c("Bearer x"), &c("Bearer ")));
    assert!(!starts_with_chars(&c("Bear"), &c("Bearer ")));
    assert!(eq_ignore_ascii_case_chars(&c("NoW"), &c("now")));
    assert!(!eq_ignore_ascii_case_chars(&c("nów"), &c("now")));
}

#[test]
fn joining() {
    let v = vec!["a".to_string(), "b".to_string(), "c".to_string()];
    assert_eq!(join_strings(&v, " AND "), "a AND b AND c");
    assert_eq!(join_strings(&Vec::new(), ", "), "");
    assert_eq!(join_strings(&vec!["x".to_string()], ", "), "x");
}

#[test]
fn membership() {
    let v = vec!["acme".to_string(), "beta".to_string()];
    assert!(contains_text(&v, "beta"));
    assert!(!contains_text(&v, "bet"));
    assert!(!contains_text(&Vec::new(), "acme"));
}
