use fractals::text::{parse_u8, split_whitespace_tokens, u64_to_dec};

#[test]
fn tokens_split_on_runs_of_whitespace() {
    assert_eq!(split_whitespace_tokens("  a\tbb  c "), vec!["a", "bb", "c"]);
    assert_eq!(split_whitespace_tokens("one"), vec!["one"]);
    assert_eq!(split_whitespace_tokens(""), Vec::<String>::new());
    assert_eq!(split_whitespace_tokens(" \t \r\n"), Vec::<String>::new());
    assert_eq!(split_whitespace_tokens("0.5\u{a0}1.0"), vec!["0.5", "1.0"]);
}

#[test]
fn byte_tokens_parse_like_std() {
    for s in ["0", "255", "+17", "007", "+007"] {
        assert_eq!(parse_u8(s), s.parse::<u8>().ok(), "token {:?}", s);
    }
    for s in ["", "+", "256", "999", "12a", "-1", " 1", "1 ", "1.0"] {
        assert_eq!(parse_u8(s), None, "token {:?}", s);
        assert!(s.parse::<u8>().is_err(), "token {:?}", s);
    }
}

#[test]
fn decimal_rendering() {
    assert_eq!(u64_to_dec(0), "0");
    assert_eq!(u64_to_dec(9), "9");
    assert_eq!(u64_to_dec(10), "10");
    assert_eq!(u64_to_dec(31), "31");
    assert_eq!(u64_to_dec(1_000_000), "1000000");
    assert_eq!(u64_to_dec(u64::MAX), "18446744073709551615");
}
