use uninstall::number::parse_usize;
use uninstall::text::chars_of;

fn parse(s: &str) -> Option<usize> {
    parse_usize(&chars_of(s))
}

#[test]
fn parses_like_str_parse() {
    for s in ["42", "+7", "", "+", "-1", "007", "1 2", "\u{663}", "0", "+0", "++1", "12a"] {
        assert_eq!(parse(s), s.parse::<usize>().ok(), "input {:?}", s);
    }
    assert_eq!(parse("42"), Some(42));
    assert_eq!(parse("+7"), Some(7));
    assert_eq!(parse("-1"), None);
    assert_eq!(parse(""), None);
}

#[test]
fn overflow_is_refused() {
    let max = usize::MAX.to_string();
    assert_eq!(parse(&max), Some(usize::MAX));
    let over = format!("{}0", max);
    assert_eq!(parse(&over), None);
}

#[test]
fn decimal_round_trip() {
    for n in [0usize, 9, 10, 12345, usize::MAX] {
        assert_eq!(parse(&n.to_string()), Some(n));
        assert_eq!(parse(&format!("+{}", n)), Some(n));
    }
}
