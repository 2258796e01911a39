use parameter_estimation::equations::{
    bytes_equal, find_name, parse_equations, parse_line, split_bytes, trim_bytes,
};

fn b(s: &str) -> Vec<u8> {
    s.as_bytes().to_vec()
}

fn parsed(input: &str) -> Vec<(String, String)> {
    parse_equations(&b(input))
        .into_iter()
        .map(|(n, r)| (String::from_utf8(n).unwrap(), String::from_utf8(r).unwrap()))
        .collect()
}

#[test]
fn trims_ascii_whitespace() {
    assert_eq!(trim_bytes(&b("  a b\t\r\n")), b("a b"));
    assert_eq!(trim_bytes(&b(" \t ")), b(""));
    assert_eq!(trim_bytes(&b("")), b(""));
    assert_eq!(trim_bytes(&b("x")), b("x"));
}

#[test]
fn splits_into_one_more_piece_than_separators() {
    assert_eq!(split_bytes(&b("a=b=c"), b'='), vec![b("a"), b("b"), b("c")]);
    assert_eq!(split_bytes(&b("=x="), b'='), vec![b(""), b("x"), b("")]);
    assert_eq!(split_bytes(&b(""), b'='), vec![b("")]);
}

#[test]
fn parses_one_equation_per_line() {
    let input = "S = -b*S*I\nI = b*S*I - g*I\n\n  R=g*I \r\nnot an equation\na = b = c\n=x\n";
    assert_eq!(
        parsed(input),
        vec![
            ("S".to_string(), "-b*S*I".to_string()),
            ("I".to_string(), "b*S*I - g*I".to_string()),
            ("R".to_string(), "g*I".to_string()),
        ]
    );
}

#[test]
fn empty_pieces_between_equals_are_dropped() {
    assert_eq!(parsed("x == y"), vec![("x".to_string(), "y".to_string())]);
    assert_eq!(parse_line(&b("= y =")), None);
    assert_eq!(parse_line(&b(" N = r*N*(1 - N/k) ")), Some((b("N"), b("r*N*(1 - N/k)"))));
}

#[test]
fn empty_description_has_no_equations() {
    assert!(parsed("").is_empty());
    assert!(parsed("\n\n").is_empty());
}

#[test]
fn finds_first_name() {
    let names = vec![b("N"), b("r"), b("k"), b("r")];
    assert_eq!(find_name(&names, &b("r")), Some(1));
    assert_eq!(find_name(&names, &b("k")), Some(2));
    assert_eq!(find_name(&names, &b("z")), None);
    assert_eq!(find_name(&vec![], &b("z")), None);
    assert!(bytes_equal(&b("ab"), &b("ab")));
    assert!(!bytes_equal(&b("ab"), &b("abc")));
}

#[test]
fn trims_unicode_whitespace() {
    assert_eq!(trim_bytes(&b("\u{a0}x\u{3000}")), b("x"));
    assert_eq!(trim_bytes(&b("\u{2009}\u{85} a\u{2028}\u{1680}")), b("a"));
    assert_eq!(trim_bytes(&b("\u{a0}")), b(""));
    // a non-space character of the same lead byte stays
    assert_eq!(trim_bytes(&b("\u{a9}x\u{2010}")), b("\u{a9}x\u{2010}"));
    assert_eq!(parsed("\u{a0}x = y\u{a0}"), vec![("x".to_string(), "y".to_string())]);
    for s in ["\u{a0} x\t= y \u{3000}", "  \u{205f}n=m\u{202f}"] {
        let (name, rhs) = parse_line(&b(s)).unwrap();
        assert_eq!(String::from_utf8(name).unwrap().trim(), s.split('=').next().unwrap().trim());
        assert_eq!(String::from_utf8(rhs).unwrap(), s.split('=').nth(1).unwrap().trim());
    }
}
