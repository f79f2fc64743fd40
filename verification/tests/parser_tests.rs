use grpcurl::JsonRequestParser;
use grpcurl::normalize_json_floats;
use grpcurl::ParseError;
use grpcurl::TextRequestParser;

#[test]
fn parse_single_json_message() {
    let mut parser = JsonRequestParser::new(Some(r#"{"name": "world", "count": 42}"#));
    let text = parser.next().unwrap();
    assert_eq!(text, r#"{"name": "world", "count": 42}"#);
    assert_eq!(parser.num_requests(), 1);
    assert!(matches!(parser.next(), Err(ParseError::Eof)));
}

#[test]
fn parse_multiple_json_messages() {
    let mut parser = JsonRequestParser::new(Some(r#"{"name": "first"} {"name": "second"}"#));
    let first = parser.next().unwrap();
    assert_eq!(first, r#"{"name": "first"}"#);
    let second = parser.next().unwrap();
    assert_eq!(second, r#"{"name": "second"}"#);
    assert!(matches!(parser.next(), Err(ParseError::Eof)));
    assert_eq!(parser.num_requests(), 2);
}

#[test]
fn parse_empty_input() {
    let mut parser = JsonRequestParser::new(None);
    assert!(matches!(parser.next(), Err(ParseError::Eof)));
    assert_eq!(parser.num_requests(), 0);
}

#[test]
fn parse_invalid_json_reports_error() {
    let mut parser = JsonRequestParser::new(Some("{not json"));
    match parser.next() {
        Err(ParseError::Error(e)) => {
            assert!(e.message().contains("invalid JSON"));
        },
        _ => panic!("expected a parse error"),
    }
    assert_eq!(parser.num_requests(), 0);
}

#[test]
fn json_parser_counting_matches_yields() {
    // Parser counting: after draining the input, the count equals the
    // number of messages yielded, and it matched at every step.
    let mut parser = JsonRequestParser::new(Some(r#"1 "two" {"three": 3} [4]"#));
    let mut yielded = 0;
    loop {
        match parser.next() {
            Ok(_) => {
                yielded += 1;
                assert_eq!(parser.num_requests(), yielded);
            },
            Err(ParseError::Eof) => break,
            Err(ParseError::Error(e)) => panic!("unexpected error: {}", e.message()),
        }
    }
    assert_eq!(yielded, 4);
    assert_eq!(parser.num_requests(), 4);
}

#[test]
fn parse_text_format_single_message() {
    let mut parser = TextRequestParser::new(Some("name: \"world\" count: 42"));
    let text = parser.next().unwrap();
    assert_eq!(text, "name: \"world\" count: 42");
    assert_eq!(parser.num_requests(), 1);
    assert!(matches!(parser.next(), Err(ParseError::Eof)));
}

#[test]
fn parse_text_format_multiple_with_separator() {
    let mut parser = TextRequestParser::new(Some("name: \"first\"\x1ename: \"second\""));
    let first = parser.next().unwrap();
    assert_eq!(first, "name: \"first\"");
    let second = parser.next().unwrap();
    assert_eq!(second, "name: \"second\"");
    assert!(matches!(parser.next(), Err(ParseError::Eof)));
    assert_eq!(parser.num_requests(), 2);
}

#[test]
fn parse_text_format_empty_input() {
    let mut parser = TextRequestParser::new(None);
    // The very first call with empty input yields one empty message.
    let text = parser.next().unwrap();
    assert_eq!(text, "");
    assert_eq!(parser.num_requests(), 1);
    // The second call reports end of input.
    assert!(matches!(parser.next(), Err(ParseError::Eof)));
    assert_eq!(parser.num_requests(), 1);
}

#[test]
fn text_parser_counting_matches_yields() {
    let mut parser = TextRequestParser::new(Some("a: 1\x1eb: 2\x1ec: 3"));
    let mut yielded = 0;
    loop {
        match parser.next() {
            Ok(_) => {
                yielded += 1;
                assert_eq!(parser.num_requests(), yielded);
            },
            Err(ParseError::Eof) => break,
            Err(ParseError::Error(e)) => panic!("unexpected error: {}", e.message()),
        }
    }
    assert_eq!(yielded, 3);
    assert_eq!(parser.num_requests(), 3);
}

#[test]
fn normalize_whole_floats() {
    assert_eq!(normalize_json_floats("\"x\": 42.0\n"), "\"x\": 42\n");
    assert_eq!(normalize_json_floats("\"x\": 42.0,"), "\"x\": 42,");
    assert_eq!(normalize_json_floats("\"x\": 42.0"), "\"x\": 42");
    // Fractions other than .0, and text inside strings, are untouched.
    assert_eq!(normalize_json_floats("\"x\": 42.5\n"), "\"x\": 42.5\n");
    assert_eq!(normalize_json_floats("\"note\": \"v: 1.0\""), "\"note\": \"v: 1.0\"");
    assert_eq!(normalize_json_floats("\"y\": 3.0}"), "\"y\": 3}");
}
