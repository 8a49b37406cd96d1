//! Round-trip checks: rendering a host value as JSON and decoding it gives
//! the value back (modulo map ordering, which these documents avoid, and
//! the integer/float boundary, which the float text preserves).

use juicy_native::basic::{parse, ParseOutcome};
use juicy_native::input::SingleBinaryProvider;
use juicy_native::value::Value;

/// Render a host value as JSON text the decoder accepts.
fn render(v: &Value, out: &mut Vec<u8>) {
    match v {
        Value::Null => out.extend_from_slice(b"null"),
        Value::Bool(true) => out.extend_from_slice(b"true"),
        Value::Bool(false) => out.extend_from_slice(b"false"),
        Value::Int(i) => out.extend_from_slice(i.to_string().as_bytes()),
        Value::BigInt { negative, magnitude_le } => {
            if *negative {
                out.push(b'-');
            }
            let n = num_bigint::BigUint::from_bytes_le(magnitude_le);
            out.extend_from_slice(n.to_string().as_bytes());
        },
        Value::Float(text) => out.extend_from_slice(text),
        Value::Binary(bytes) => {
            out.push(b'"');
            for &b in bytes {
                match b {
                    b'"' => out.extend_from_slice(b"\\\""),
                    b'\\' => out.extend_from_slice(b"\\\\"),
                    0x08 => out.extend_from_slice(b"\\b"),
                    0x0C => out.extend_from_slice(b"\\f"),
                    b'\n' => out.extend_from_slice(b"\\n"),
                    b'\r' => out.extend_from_slice(b"\\r"),
                    b'\t' => out.extend_from_slice(b"\\t"),
                    c if c < 0x20 => {
                        out.extend_from_slice(format!("\\u{:04x}", c).as_bytes());
                    },
                    c => out.push(c),
                }
            }
            out.push(b'"');
        },
        Value::List(items) => {
            out.push(b'[');
            for (i, item) in items.iter().enumerate() {
                if i > 0 {
                    out.push(b',');
                }
                render(item, out);
            }
            out.push(b']');
        },
        Value::Object(pairs) => {
            out.push(b'{');
            for (i, (k, v)) in pairs.iter().enumerate() {
                if i > 0 {
                    out.push(b',');
                }
                render(k, out);
                out.push(b':');
                render(v, out);
            }
            out.push(b'}');
        },
        other => panic!("not renderable as JSON: {:?}", other),
    }
}

fn round_trip(v: Value) {
    let mut text: Vec<u8> = Vec::new();
    render(&v, &mut text);
    match parse(&SingleBinaryProvider::new(text.clone())) {
        ParseOutcome::Complete(back) => assert_eq!(
            back,
            v,
            "round trip changed the value; rendered text was {:?}",
            String::from_utf8_lossy(&text)
        ),
        _ => panic!(
            "round trip did not complete; rendered text was {:?}",
            String::from_utf8_lossy(&text)
        ),
    }
}

fn bin(s: &str) -> Value {
    Value::Binary(s.as_bytes().to_vec())
}

#[test]
fn round_trip_scalars() {
    round_trip(Value::Null);
    round_trip(Value::Bool(true));
    round_trip(Value::Bool(false));
    round_trip(Value::Int(0));
    round_trip(Value::Int(-1));
    round_trip(Value::Int(i64::MAX));
    round_trip(Value::Int(i64::MIN));
    round_trip(Value::Float(b"1.5".to_vec()));
    round_trip(Value::Float(b"-2.5e2".to_vec()));
    round_trip(bin(""));
    round_trip(bin("hello"));
}

#[test]
fn round_trip_bignum() {
    round_trip(Value::BigInt {
        negative: false,
        magnitude_le: vec![210, 10, 63, 78, 238, 224, 115, 195, 246, 15, 233, 142, 1],
    });
    round_trip(Value::BigInt { negative: true, magnitude_le: vec![0, 0, 0, 0, 0, 0, 0, 0x80, 1] });
}

#[test]
fn round_trip_strings_with_escapes() {
    round_trip(bin("a\"b"));
    round_trip(bin("back\\slash"));
    round_trip(bin("line\nbreak\tand\rmore"));
    round_trip(Value::Binary(vec![1, 2, 3, 31]));
    round_trip(bin("caf\u{e9} \u{20ac} \u{1f600}"));
}

#[test]
fn round_trip_containers() {
    round_trip(Value::List(vec![]));
    round_trip(Value::Object(vec![]));
    round_trip(Value::List(vec![Value::Int(1), Value::Null, Value::Bool(false)]));
    round_trip(Value::Object(vec![
        (bin("a"), Value::Int(1)),
        (bin("b"), Value::List(vec![Value::Bool(true), Value::Null, Value::Float(b"-2.5e2".to_vec())])),
        (
            bin("c"),
            Value::Object(vec![(bin("deep"), Value::List(vec![Value::Object(vec![])]))]),
        ),
    ]));
}
