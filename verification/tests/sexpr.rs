use copperleaf::kicad::sexpr::{kv, parse, ParseError, Sexpr};
use copperleaf::kicad6::sexpr::{deterministic_uuid, Sexpr as Sexpr6};

#[test]
fn parse_simple_list() {
    let s = parse("(foo bar)").unwrap();
    assert_eq!(s, Sexpr::list(vec![Sexpr::atom("foo"), Sexpr::atom("bar")]));
}

#[test]
fn parse_quoted_string() {
    let s = parse("(name \"VDD\")").unwrap();
    assert_eq!(s, Sexpr::list(vec![Sexpr::atom("name"), Sexpr::str("VDD")]));
}

#[test]
fn pretty_print_nested_list() {
    let s = Sexpr6::list(vec![
        Sexpr6::atom("export"),
        Sexpr6::list(vec![Sexpr6::atom("version"), Sexpr6::str("E")]),
        Sexpr6::list(vec![
            Sexpr6::atom("design"),
            Sexpr6::list(vec![Sexpr6::atom("source"), Sexpr6::str("copperleaf")]),
        ]),
    ]);
    let out = s.to_string();
    assert!(out.starts_with("(export\n"));
    assert!(out.contains("  (version \"E\")"));
    assert!(out.contains("  (design\n    (source \"copperleaf\")"));
    assert!(out.ends_with(")"));
}

#[test]
fn deterministic_uuid_stable() {
    let a = deterministic_uuid("sch:U1");
    let b = deterministic_uuid("sch:U1");
    assert_eq!(a, b);
    assert_eq!(a.len(), 36);
    assert_eq!(a.matches('-').count(), 4);
}

#[test]
fn deterministic_uuid_distinct() {
    let a = deterministic_uuid("sch:U1");
    let b = deterministic_uuid("sch:U2");
    assert_ne!(a, b);
}

#[test]
fn parse_reports_unmatched_paren() {
    assert_eq!(parse("(a))"), Err(ParseError::UnmatchedParen { pos: 3 }));
    assert_eq!(parse(")"), Err(ParseError::UnmatchedParen { pos: 0 }));
}

#[test]
fn parse_reports_eof_and_bad_escape() {
    assert_eq!(parse("(a"), Err(ParseError::UnexpectedEof));
    assert_eq!(parse("\"abc"), Err(ParseError::UnexpectedEof));
    assert_eq!(parse(""), Err(ParseError::UnexpectedEof));
    // the escape byte position counts UTF-8 bytes: 'é' takes two
    assert_eq!(parse("(é \"\\q\")"), Err(ParseError::BadEscape { pos: 6 }));
}

#[test]
fn parse_skips_comments_and_whitespace() {
    let s = parse("# header\n(a\t# note\n b)").unwrap();
    assert_eq!(s, Sexpr::list(vec![Sexpr::atom("a"), Sexpr::atom("b")]));
}

#[test]
fn escapes_round_trip_through_parser() {
    let tree = Sexpr::list(vec![
        Sexpr::atom("property"),
        Sexpr::str("a \"quoted\" \\ line\nnext\ttab\r"),
        Sexpr::list(vec![Sexpr::atom("at"), Sexpr::atom("1.27"), Sexpr::atom("-2")]),
    ]);
    let text = tree.to_string();
    assert_eq!(parse(&text).unwrap(), tree);
}

#[test]
fn printer_puts_leaves_first() {
    let s = Sexpr::list(vec![
        Sexpr::atom("a"),
        Sexpr::list(vec![Sexpr::atom("b")]),
        Sexpr::atom("c"),
    ]);
    assert_eq!(s.to_string(), "(a c\n  (b))");
    assert_eq!(Sexpr::list(vec![]).to_string(), "()");
}

#[test]
fn as_string_unquotes() {
    assert_eq!(Sexpr::str("a\"b\\c").as_string(), "a\"b\\c");
    assert_eq!(Sexpr::atom("plain").as_string(), "plain");
    assert_eq!(Sexpr::list(vec![]).as_string(), "");
    assert_eq!(kv("name", "VDD").to_string(), "(name \"VDD\")");
}

#[test]
fn quoted_string_reads_back() {
    for s in ["plain", "say \"hi\"", "back\\slash", "\\\"", "", "tab\tkept", "line\nbreak\r\n", "\\n"] {
        assert_eq!(Sexpr::str(s).as_string(), s);
    }
}

#[test]
fn as_string_keeps_unknown_escapes() {
    assert_eq!(Sexpr::atom("\"a\\qb\"").as_string(), "a\\qb");
    assert_eq!(Sexpr::atom("\"a\\\"").as_string(), "a\\");
    assert_eq!(Sexpr::atom("\"x\\ty\"").as_string(), "x\ty");
}
