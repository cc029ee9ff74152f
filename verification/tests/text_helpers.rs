use catapult::text::{join_strings, parse_u32, split_on, u32_to_decimal};

#[test]
fn parse_u32_accepts_what_str_parse_accepts() {
    assert_eq!(parse_u32("6667"), Some(6667));
    assert_eq!(parse_u32("+5"), Some(5));
    assert_eq!(parse_u32("007"), Some(7));
    assert_eq!(parse_u32("4294967295"), Some(4294967295));
    for s in ["6667", "+5", "007", "4294967295", "0"] {
        assert_eq!(parse_u32(s), s.parse::<u32>().ok());
    }
}

#[test]
fn parse_u32_rejects_what_str_parse_rejects() {
    for s in ["", "+", "-1", "-0", "4294967296", "12a", " 1", "1 ", "99999999999999999999", "++1"] {
        assert_eq!(parse_u32(s), None, "{}", s);
        assert_eq!(s.parse::<u32>().ok(), None, "{}", s);
    }
}

#[test]
fn decimal_writes_like_display() {
    for n in [0u32, 7, 10, 6667, 4294967295] {
        assert_eq!(u32_to_decimal(n), n.to_string());
        assert_eq!(parse_u32(&u32_to_decimal(n)), Some(n));
    }
}

#[test]
fn split_like_str_split() {
    for (s, sep) in [("a,b", ','), ("", ','), ("a,", ','), (",,", ','), ("name:string", ':'), ("é:ü", ':')] {
        let expected: Vec<String> = s.split(sep).map(|p| p.to_string()).collect();
        assert_eq!(split_on(s, sep), expected);
    }
}

#[test]
fn join_like_slice_join() {
    let parts = vec!["a".to_string(), "b".to_string(), "c".to_string()];
    assert_eq!(join_strings(&parts, "\t"), "a\tb\tc");
    assert_eq!(join_strings(&Vec::new(), "\t"), "");
    assert_eq!(join_strings(&vec!["x".to_string()], ", "), "x");
}
