use benford_crawl::canon::treat_number;
use benford_crawl::tokens::find_numeric_tokens;

#[test]
fn treat_number_test() {
    assert_eq!("123", treat_number("123".to_string()));
    assert_eq!("123", treat_number("12300".to_string()));
    assert_eq!("123", treat_number("12.3".to_string()));
    assert_eq!("123", treat_number("123.0".to_string()));
    assert_eq!("123", treat_number(".123".to_string()));
    assert_eq!("123", treat_number("0.123".to_string()));
    assert_eq!("123", treat_number("00.123".to_string()));
    assert_eq!("123", treat_number("0.0123".to_string()));
    assert_eq!("123", treat_number("00123".to_string()));
}

#[test]
fn treat_number_can_empty() {
    assert_eq!("", treat_number("0.0".to_string()));
    assert_eq!("", treat_number("000".to_string()));
    assert_eq!("", treat_number("0".to_string()));
}

#[test]
fn treat_number_idempotent_samples() {
    for raw in ["123", "12300", "0.123", "10.01", "900.009", "0.0", "5"] {
        let once = treat_number(raw.to_string());
        let twice = treat_number(once.clone());
        assert_eq!(once, twice);
    }
}

#[test]
fn treat_number_no_edge_zeros() {
    for raw in ["10", "0.10", "100.100", "010", "000.1", "20.02"] {
        let c = treat_number(raw.to_string());
        assert!(!c.starts_with('0'));
        assert!(!c.ends_with('0'));
        assert!(!c.contains('.'));
    }
}

#[test]
fn tokens_of_plain_text() {
    let toks = find_numeric_tokens("Order 12300 of 0.123 units");
    assert_eq!(toks, vec!["12300".to_string(), "0.123".to_string()]);
}

#[test]
fn tokens_no_thousands_separator() {
    let toks = find_numeric_tokens("1,234");
    assert_eq!(toks, vec!["1".to_string(), "234".to_string()]);
}

#[test]
fn tokens_greedy_with_single_dot() {
    assert_eq!(
        find_numeric_tokens("12.3.4"),
        vec!["12.3".to_string(), ".4".to_string()]
    );
    assert_eq!(
        find_numeric_tokens("1..2"),
        vec!["1".to_string(), ".2".to_string()]
    );
    assert_eq!(find_numeric_tokens("a.b."), Vec::<String>::new());
    assert_eq!(find_numeric_tokens(""), Vec::<String>::new());
    assert_eq!(find_numeric_tokens(".5"), vec![".5".to_string()]);
}
