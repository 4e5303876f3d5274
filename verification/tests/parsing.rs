use bumpalo::Bump;
use rustc_log_viewer::list::LinkedList;
use rustc_log_viewer::parser::{custom_parse, custom_parse2, parse_dict, parse_number, parse_string_after_quote, CharCursor, parse_string, expect, InnerParseError};

fn pairs(list: &LinkedList<(&str, &str)>) -> Vec<(String, String)> {
    let mut out = vec![];
    let mut it = list.iter();
    while let Some((k, v)) = it.next() {
        out.push((k.to_string(), v.to_string()));
    }
    out
}

const LINE: &str = "{\"timestamp\":\"2024-05-01T10:00:00.123456Z\",\"level\":\"DEBUG\",\"fields\":{\"message\":\"hello\"},\"target\":\"rustc_middle::ty\",\"filename\":\"compiler/rustc_middle/src/ty/mod.rs\",\"line_number\":42,\"span\":{\"def_id\":\"DefId(0:3)\",\"name\":\"type_of\"},\"spans\":[{\"name\":\"outer\",\"a\":\"1\"},{\"def_id\":\"x\",\"name\":\"type_of\"}]}\n";

#[test]
fn parses_a_full_line() {
    let bump = Bump::new();
    let m = custom_parse(&bump, LINE).unwrap();
    assert_eq!(m.timestamp, "2024-05-01T10:00:00.123456Z");
    assert_eq!(m.level, "DEBUG");
    assert_eq!(m.target, "rustc_middle::ty");
    assert_eq!(m.filename, "compiler/rustc_middle/src/ty/mod.rs");
    assert_eq!(m.line_number, "42");
    assert_eq!(pairs(m.fields), vec![("message".to_string(), "hello".to_string())]);
    assert_eq!(m.span.name, Some("type_of"));
    assert_eq!(pairs(m.span.map), vec![("def_id".to_string(), "DefId(0:3)".to_string())]);
    // spans are kept newest first
    let mut it = m.spans.iter();
    let first = it.next().unwrap();
    assert_eq!(first.name, Some("type_of"));
    assert_eq!(pairs(first.map), vec![("def_id".to_string(), "x".to_string())]);
    let second = it.next().unwrap();
    assert_eq!(second.name, Some("outer"));
    assert_eq!(pairs(second.map), vec![("a".to_string(), "1".to_string())]);
    assert!(it.next().is_none());
}

#[test]
fn trailing_text_after_the_closing_brace_is_ignored() {
    let bump = Bump::new();
    let a = custom_parse(&bump, "{\"level\":\"INFO\"}").unwrap();
    let b = custom_parse(&bump, "{\"level\":\"INFO\"} trailing garbage").unwrap();
    assert_eq!(a.level, b.level);
    assert_eq!(b.level, "INFO");
}

#[test]
fn missing_fields_stay_empty() {
    let bump = Bump::new();
    let m = custom_parse(&bump, "{\"level\":\"WARN\"}").unwrap();
    assert_eq!(m.timestamp, "");
    assert_eq!(m.target, "");
    assert!(m.span.name.is_none());
    assert!(matches!(m.fields, LinkedList::Empty));
    assert!(matches!(m.spans, LinkedList::Empty));
}

#[test]
fn escapes_drop_the_backslash() {
    let bump = Bump::new();
    let m = custom_parse(&bump, "{\"target\":\"a\\\"b\\\\c\\n\"}").unwrap();
    assert_eq!(m.target, "a\"b\\cn");
}

#[test]
fn unicode_is_kept() {
    let bump = Bump::new();
    let m = custom_parse(&bump, "{\"target\":\"héllo → wörld\"}").unwrap();
    assert_eq!(m.target, "héllo → wörld");
}

#[test]
fn dict_values_true_false_numbers() {
    let bump = Bump::new();
    let m = custom_parse(&bump, "{\"fields\":{\"a\":true,\"b\":false,\"c\":1234}}").unwrap();
    assert_eq!(
        pairs(m.fields),
        vec![
            ("c".to_string(), "1234".to_string()),
            ("b".to_string(), "false".to_string()),
            ("a".to_string(), "true".to_string()),
        ]
    );
}

#[test]
fn repeated_fields_accumulate_or_overwrite() {
    let bump = Bump::new();
    let m = custom_parse(
        &bump,
        "{\"level\":\"INFO\",\"level\":\"WARN\",\"fields\":{\"a\":\"1\"},\"fields\":{\"b\":\"2\"}}",
    )
    .unwrap();
    assert_eq!(m.level, "WARN");
    assert_eq!(
        pairs(m.fields),
        vec![("b".to_string(), "2".to_string()), ("a".to_string(), "1".to_string())]
    );
}

#[test]
fn empty_span_array() {
    let bump = Bump::new();
    let m = custom_parse(&bump, "{\"spans\":[],\"level\":\"INFO\"}").unwrap();
    assert!(matches!(m.spans, LinkedList::Empty));
    assert_eq!(m.level, "INFO");
}

fn error_of(line: &str) -> (String, String) {
    let bump = Bump::new();
    match custom_parse(&bump, line) {
        Ok(_) => panic!("expected an error"),
        Err(e) => (e.line.clone(), e.message.clone()),
    }
}

#[test]
fn unknown_field_error() {
    let (line, message) = error_of("{\"foo\":\"x\"}");
    assert_eq!(line, "{\"foo\":\"x\"}");
    assert_eq!(message, "unknown field foo");
}

#[test]
fn parse_error_text() {
    let bump = Bump::new();
    let e = custom_parse(&bump, "{\"foo\":1}").err().unwrap();
    assert_eq!(e.to_string(), "parse error: unknown field foo -- on line {\"foo\":1}");
}

#[test]
fn eof_in_string_error() {
    assert_eq!(error_of("{\"timestamp\":\"abc").1, "unexpected eof parsing string");
}

#[test]
fn eof_after_backslash_error() {
    assert_eq!(error_of("{\"timestamp\":\"abc\\").1, "unexpected eof parsing string backslash");
}

#[test]
fn eof_after_field_error() {
    assert_eq!(error_of("{\"timestamp\":\"abc\"").1, "unexpected eof parsing message");
}

#[test]
fn eof_in_dict_errors() {
    assert_eq!(error_of("{\"fields\":{\"a\":").1, "unexpected eof parsing dict key");
    assert_eq!(error_of("{\"fields\":{\"a\":\"b\"").1, "unexpected eof parsing dict");
    assert_eq!(error_of("{\"spans\":[{\"a\":\"b\"}").1, "unexpected eof parsing dict array");
    assert_eq!(error_of("{\"line_number\":").1, "unexpected eof parsing number");
}

#[test]
fn unexpected_char_errors() {
    assert_eq!(
        error_of("{\"timestamp\":\"a\";").1,
        "unexpected character ';' (expected one of ['}', ','])"
    );
    assert_eq!(
        error_of("{\"spans\":[{\"a\":\"b\"};").1,
        "unexpected character ';' (expected one of [']', ','])"
    );
    assert_eq!(
        error_of("{\"fields\":{\"a\":x}}").1,
        "unexpected character 'x' (expected one of ['\"', 't', 'f', '0'])"
    );
    assert_eq!(
        error_of("{\"line_number\":x}").1,
        "unexpected character 'x' (expected one of ['0'])"
    );
}

#[test]
fn unexpected_single_char_errors() {
    assert_eq!(error_of("[").1, "unexpected character '[' (expected '{')");
    assert_eq!(error_of("").1, "unexpected character '\0' (expected '{')");
    assert_eq!(error_of("{\"fields\":{\"a\":tru}}").1, "unexpected character '}' (expected 'e')");
    assert_eq!(error_of("{}").1, "unexpected character '}' (expected '\"')");
}

#[test]
fn cursor_level_functions() {
    let bump = Bump::new();
    let mut c = CharCursor::new("\"ab\"x");
    assert_eq!(parse_string(&bump, &mut c).ok(), Some("ab"));
    assert_eq!(c.pos, 4);
    assert!(expect(&mut c, 'x').is_ok());
    match expect(&mut c, 'y') {
        Err(InnerParseError::UnexpectedCharSingle('y', '\0')) => {}
        _ => panic!("expected an end-of-line error"),
    }
}

#[test]
fn written_strings_read_back() {
    let bump = Bump::new();
    let value = "say \"hi\" \\ bye";
    let escaped: String = value
        .chars()
        .flat_map(|c| if c == '"' || c == '\\' { vec!['\\', c] } else { vec![c] })
        .collect();
    let line = format!("{{\"target\":\"{}\"}}", escaped);
    let m = custom_parse(&bump, &line).unwrap();
    assert_eq!(m.target, value);
}

#[test]
fn cursor_after_failures() {
    let bump = Bump::new();
    // a wrong character is read; at the end of the line nothing is
    let mut c = CharCursor::new("x");
    assert!(expect(&mut c, '{').is_err());
    assert_eq!(c.pos, 1);
    let mut c = CharCursor::new("");
    assert!(expect(&mut c, '{').is_err());
    assert_eq!(c.pos, 0);
    // a string that does not end leaves the cursor where it was
    let mut c = CharCursor::new("abc");
    assert!(matches!(parse_string_after_quote(&bump, &mut c), Err(InnerParseError::UnexpectedEof("string"))));
    assert_eq!(c.pos, 0);
    let mut c = CharCursor::new("ab\\");
    assert!(matches!(
        parse_string_after_quote(&bump, &mut c),
        Err(InnerParseError::UnexpectedEof("string backslash"))
    ));
    assert_eq!(c.pos, 0);
    // numbers
    let mut c = CharCursor::new("17}");
    assert_eq!(parse_number(&bump, &mut c).ok(), Some("17"));
    assert_eq!(c.pos, 2);
    let mut c = CharCursor::new("-1");
    assert!(matches!(parse_number(&bump, &mut c), Err(InnerParseError::UnexpectedChar(_, '-'))));
    assert_eq!(c.pos, 1);
    let mut c = CharCursor::new("");
    assert!(matches!(parse_number(&bump, &mut c), Err(InnerParseError::UnexpectedEof("number"))));
    assert_eq!(c.pos, 0);
}

#[test]
fn dict_keeps_pairs_read_before_a_failure() {
    let bump = Bump::new();
    let mut c = CharCursor::new("{\"a\":\"1\",\"b\":2;");
    let mut map: &LinkedList<(&str, &str)> = Default::default();
    let mut name = None;
    assert!(parse_dict(&bump, &mut c, &mut map, &mut name, false).is_err());
    assert_eq!(
        pairs(map),
        vec![("b".to_string(), "2".to_string()), ("a".to_string(), "1".to_string())]
    );
    assert_eq!(c.pos, 15);
}

#[test]
fn line_reader_stops_after_the_closing_brace() {
    let bump = Bump::new();
    let mut c = CharCursor::new("{\"level\":\"INFO\",\"line_number\":42}\n");
    let m = custom_parse2(&bump, &mut c).ok().unwrap();
    assert_eq!(m.level, "INFO");
    assert_eq!(m.line_number, "42");
    assert_eq!(m.timestamp, "");
    assert_eq!(c.pos, 33);
    assert_eq!(c.chars.len(), 34);
}

#[test]
fn dict_keeps_the_given_list_behind_what_it_reads() {
    let bump = Bump::new();
    let tail: LinkedList<(&str, &str)> = LinkedList::Empty;
    let start: LinkedList<(&str, &str)> = LinkedList::Cons { next: &tail, item: ("old", "0") };

    let mut c = CharCursor::new("{\"a\":\"1\",\"b\":true}rest");
    let mut map: &LinkedList<(&str, &str)> = &start;
    let mut name = None;
    assert!(parse_dict(&bump, &mut c, &mut map, &mut name, false).is_ok());
    assert_eq!(
        pairs(map),
        vec![
            ("b".to_string(), "true".to_string()),
            ("a".to_string(), "1".to_string()),
            ("old".to_string(), "0".to_string()),
        ]
    );
    assert_eq!(c.pos, 18);

    let mut c = CharCursor::new("{\"a\":\"1\",\"b\"}");
    let mut map: &LinkedList<(&str, &str)> = &start;
    let mut name = None;
    assert!(parse_dict(&bump, &mut c, &mut map, &mut name, false).is_err());
    assert_eq!(
        pairs(map),
        vec![("a".to_string(), "1".to_string()), ("old".to_string(), "0".to_string())]
    );
}
