//! Basic (non-spec) mode: single-buffer parsing, budgets and resumption,
//! numbers, strings, and error positions.

use juicy_native::basic::{parse, parse_iter_with_budget, parse_with_budget, ParseOutcome};
use juicy_native::input::SingleBinaryProvider;
use juicy_native::parser::Unexpected;
use juicy_native::value::Value;

fn provider(s: &str) -> SingleBinaryProvider {
    SingleBinaryProvider::new(s.as_bytes().to_vec())
}

fn run_to_end(s: &str, budget: usize) -> ParseOutcome {
    let input = provider(s);
    let mut outcome = parse_with_budget(&input, budget);
    loop {
        match outcome {
            ParseOutcome::Iter(stack, state) => {
                outcome = parse_iter_with_budget(&input, stack, state, budget);
            },
            other => return other,
        }
    }
}

fn complete(s: &str) -> Value {
    match run_to_end(s, 40000) {
        ParseOutcome::Complete(v) => v,
        other => panic!("expected completion for {:?}, got {:?}", s, kind_of(&other)),
    }
}

fn error_of(s: &str) -> (usize, Unexpected) {
    match run_to_end(s, 40000) {
        ParseOutcome::Failed(pos, why) => (pos, why),
        _ => panic!("expected an error for {:?}", s),
    }
}

fn kind_of(o: &ParseOutcome) -> &'static str {
    match o {
        ParseOutcome::Complete(_) => "complete",
        ParseOutcome::Iter(_, _) => "iter",
        ParseOutcome::Failed(_, _) => "failed",
    }
}

fn bin(s: &str) -> Value {
    Value::Binary(s.as_bytes().to_vec())
}

fn float_of(v: &Value) -> f64 {
    match v {
        Value::Float(text) => std::str::from_utf8(text).unwrap().parse::<f64>().unwrap(),
        other => panic!("expected a float, got {:?}", other),
    }
}

#[test]
fn scenario_basic_document() {
    // {"a":1,"b":[true,null,-2.5e2]} => %{"a" => 1, "b" => [true, nil, -250.0]}
    let v = complete("{\"a\":1,\"b\":[true,null,-2.5e2]}");
    match v {
        Value::Object(pairs) => {
            assert_eq!(pairs.len(), 2);
            assert_eq!(pairs[0].0, bin("a"));
            assert_eq!(pairs[0].1, Value::Int(1));
            assert_eq!(pairs[1].0, bin("b"));
            match &pairs[1].1 {
                Value::List(items) => {
                    assert_eq!(items.len(), 3);
                    assert_eq!(items[0], Value::Bool(true));
                    assert_eq!(items[1], Value::Null);
                    assert_eq!(float_of(&items[2]), -250.0);
                    assert_eq!(items[2], Value::Float(b"-2.5e2".to_vec()));
                },
                other => panic!("expected a list, got {:?}", other),
            }
        },
        other => panic!("expected a map, got {:?}", other),
    }
}

#[test]
fn scenario_bignum() {
    // A 30-digit integer goes through the arbitrary-precision path.
    let v = complete("123456789012345678901234567890");
    let expected_le: Vec<u8> = vec![210, 10, 63, 78, 238, 224, 115, 195, 246, 15, 233, 142, 1];
    assert_eq!(v, Value::BigInt { negative: false, magnitude_le: expected_le });
}

#[test]
fn scenario_trailing_comma_error() {
    // {"a":1,} => {error, {unexpected, 7, _}}
    let (pos, _) = error_of("{\"a\":1,}");
    assert_eq!(pos, 7);
}

#[test]
fn budget_invariance() {
    let doc = "{\"a\":1,\"b\":[true,null,-2.5e2]}";
    let reference = complete(doc);
    for budget in [1usize, 64, 4096, 40000, doc.len() + 1] {
        match run_to_end(doc, budget) {
            ParseOutcome::Complete(v) => assert_eq!(v, reference),
            other => panic!("budget {} gave {:?}", budget, kind_of(&other)),
        }
    }
}

#[test]
fn budget_one_suspends() {
    let input = provider("[1,2]");
    match parse_with_budget(&input, 1) {
        ParseOutcome::Iter(stack, state) => {
            assert_eq!(state.position(), 1);
            match parse_iter_with_budget(&input, stack, state, 40000) {
                ParseOutcome::Complete(v) => {
                    assert_eq!(v, Value::List(vec![Value::Int(1), Value::Int(2)]));
                },
                other => panic!("expected completion, got {:?}", kind_of(&other)),
            }
        },
        other => panic!("expected iter, got {:?}", kind_of(&other)),
    }
}

#[test]
fn scalars_at_root() {
    assert_eq!(complete("null"), Value::Null);
    assert_eq!(complete("true"), Value::Bool(true));
    assert_eq!(complete("false"), Value::Bool(false));
    assert_eq!(complete("42"), Value::Int(42));
    assert_eq!(complete("-7"), Value::Int(-7));
    assert_eq!(complete("0"), Value::Int(0));
    assert_eq!(complete("-0"), Value::Int(0));
    assert_eq!(complete("\"hi\""), bin("hi"));
    assert_eq!(complete("\"\""), bin(""));
}

#[test]
fn empty_containers() {
    assert_eq!(complete("{}"), Value::Object(vec![]));
    assert_eq!(complete("[]"), Value::List(vec![]));
    assert_eq!(
        complete("[[],{}]"),
        Value::List(vec![Value::List(vec![]), Value::Object(vec![])])
    );
}

#[test]
fn whitespace_everywhere() {
    let v = complete(" { \"a\" :\t[ 1 ,\n 2 ] } ");
    assert_eq!(
        v,
        Value::Object(vec![(bin("a"), Value::List(vec![Value::Int(1), Value::Int(2)]))])
    );
}

#[test]
fn nesting_depth() {
    let mut doc = String::new();
    for _ in 0..200 {
        doc.push('[');
    }
    doc.push('1');
    for _ in 0..200 {
        doc.push(']');
    }
    let mut v = complete(&doc);
    for _ in 0..200 {
        match v {
            Value::List(mut items) => {
                assert_eq!(items.len(), 1);
                v = items.pop().unwrap();
            },
            other => panic!("expected a list, got {:?}", other),
        }
    }
    assert_eq!(v, Value::Int(1));
}

#[test]
fn integer_boundaries() {
    assert_eq!(complete("9223372036854775807"), Value::Int(i64::MAX));
    assert_eq!(complete("-9223372036854775808"), Value::Int(i64::MIN));
    match complete("9223372036854775808") {
        Value::BigInt { negative, magnitude_le } => {
            assert!(!negative);
            assert_eq!(magnitude_le, vec![0, 0, 0, 0, 0, 0, 0, 0x80]);
        },
        other => panic!("expected a bignum, got {:?}", other),
    }
    match complete("-9223372036854775809") {
        Value::BigInt { negative, magnitude_le } => {
            assert!(negative);
            assert_eq!(magnitude_le, vec![1, 0, 0, 0, 0, 0, 0, 0x80]);
        },
        other => panic!("expected a bignum, got {:?}", other),
    }
}

#[test]
fn float_texts() {
    assert_eq!(complete("1.5"), Value::Float(b"1.5".to_vec()));
    assert_eq!(complete("1e3"), Value::Float(b"1e3".to_vec()));
    assert_eq!(complete("2E-4"), Value::Float(b"2e-4".to_vec()));
    assert_eq!(complete("-0.5e+2"), Value::Float(b"-0.5e2".to_vec()));
    assert_eq!(float_of(&complete("2E-4")), 2e-4);
}

#[test]
fn string_escapes() {
    assert_eq!(complete("\"a\\nb\""), bin("a\nb"));
    assert_eq!(complete("\"\\\"\\\\\\/\""), bin("\"\\/"));
    assert_eq!(complete("\"\\b\\f\\r\\t\""), Value::Binary(vec![8, 12, 13, 9]));
}

#[test]
fn unicode_escapes() {
    assert_eq!(complete("\"\\u00e9\""), Value::Binary(vec![0xC3, 0xA9]));
    assert_eq!(complete("\"\\u0041\""), bin("A"));
    assert_eq!(complete("\"\\u20ac\""), Value::Binary(vec![0xE2, 0x82, 0xAC]));
    // A surrogate pair combines into one supplementary codepoint.
    assert_eq!(
        complete("\"\\ud83d\\ude00\""),
        Value::Binary(vec![0xF0, 0x9F, 0x98, 0x80])
    );
    assert_eq!(complete("\"x\\u00e9y\""), Value::Binary(vec![120, 0xC3, 0xA9, 121]));
}

#[test]
fn raw_utf8_passes_through() {
    let v = complete("\"caf\u{e9}\"");
    assert_eq!(v, Value::Binary("caf\u{e9}".as_bytes().to_vec()));
}

#[test]
fn duplicate_keys_replace() {
    let v = complete("{\"a\":1,\"a\":2}");
    assert_eq!(v, Value::Object(vec![(bin("a"), Value::Int(2))]));
}

#[test]
fn error_positions_localize_mutations() {
    // Inserting an invalid byte into a valid document is reported at its
    // offset, or at the first byte of the token that cannot complete.
    assert_eq!(error_of("[x1]").0, 1);
    assert_eq!(error_of("{\"a\"!1}").0, 4);
    assert_eq!(error_of("[1!2]").0, 2);
    assert_eq!(error_of("tru!e").0, 3);
    assert_eq!(error_of("\"a\u{1}b\"").0, 2);
}

#[test]
fn error_variants() {
    assert_eq!(error_of("[,"), (1, Unexpected::ExpectedValue));
    assert_eq!(error_of("{1}"), (1, Unexpected::ExpectedKey));
    assert_eq!(error_of("{\"a\"1}"), (4, Unexpected::ExpectedColon));
    assert_eq!(error_of("[1 2]"), (3, Unexpected::ExpectedCommaOrClose));
    assert_eq!(error_of("[-a]"), (2, Unexpected::ExpectedDigit));
    assert_eq!(error_of("\"\\q\""), (2, Unexpected::InvalidEscape));
    assert_eq!(error_of("\"\\uZZZZ\""), (3, Unexpected::InvalidUnicodeEscape));
    assert_eq!(error_of("\"a\u{1}b\""), (2, Unexpected::InvalidStringByte));
    assert_eq!(error_of("[1"), (2, Unexpected::UnexpectedEnd));
    assert_eq!(error_of("{"), (1, Unexpected::UnexpectedEnd));
    assert_eq!(error_of(""), (0, Unexpected::UnexpectedEnd));
    assert!(Unexpected::ExpectedValue.explain().contains("value"));
}

#[test]
fn lone_surrogates_are_rejected() {
    assert!(matches!(
        run_to_end("\"\\ude00\"", 40000),
        ParseOutcome::Failed(_, Unexpected::InvalidUnicodeEscape)
    ));
    assert!(matches!(
        run_to_end("\"\\ud83dx\"", 40000),
        ParseOutcome::Failed(_, Unexpected::InvalidUnicodeEscape)
    ));
}

#[test]
fn number_terminated_by_eof() {
    assert_eq!(complete("123"), Value::Int(123));
    assert_eq!(complete("1.25"), Value::Float(b"1.25".to_vec()));
}

#[test]
fn single_byte_budget_over_every_token_kind() {
    // A budget of one byte suspends inside every token; resuming from the
    // continuation must reassemble strings, escapes, surrogate pairs,
    // numbers and bignums exactly.
    let doc = "{\"k\\u00e9y\":[-1.5e-3,\"\\ud83d\\ude00\",123456789012345678901234567890,{\"x\":null}]}";
    let reference = complete(doc);
    match run_to_end(doc, 1) {
        ParseOutcome::Complete(v) => assert_eq!(v, reference),
        other => panic!("budget 1 gave {:?}", kind_of(&other)),
    }
    match reference {
        Value::Object(pairs) => {
            assert_eq!(pairs[0].0, Value::Binary(vec![107, 0xC3, 0xA9, 121]));
        },
        other => panic!("expected a map, got {:?}", other),
    }
}
