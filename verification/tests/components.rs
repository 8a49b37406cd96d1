//! Component-level checks: the external-term bignum layout, map folding,
//! the string builder, spec-node operations, and path entries.

use juicy_native::input::{InputProvider, Range, SingleBinaryProvider, StreamingInputProvider, StreamingInputResult};
use juicy_native::numbers::bignum_external_term;
use juicy_native::strings::BuildString;
use juicy_native::tree_spec::{NodeId, NodeVariant, ValueType};
use juicy_native::value::{key_eq, map_put, Value};
use juicy_native::walker::PathEntry;

#[test]
fn bignum_external_term_layout() {
    // 131 (magic), 111 (large bignum), 32-bit big-endian length, sign
    // byte, little-endian magnitude.
    let mag: Vec<u8> = vec![210, 10, 63, 78, 238, 224, 115, 195, 246, 15, 233, 142, 1];
    let term = bignum_external_term(false, &mag);
    let mut expected: Vec<u8> = vec![131, 111, 0, 0, 0, 13, 0];
    expected.extend_from_slice(&mag);
    assert_eq!(term, expected);

    let neg = bignum_external_term(true, &vec![5]);
    assert_eq!(neg, vec![131, 111, 0, 0, 0, 1, 1, 5]);
}

#[test]
fn map_put_replaces_first_match() {
    let mut pairs: Vec<(Value, Value)> = vec![
        (Value::Binary(b"a".to_vec()), Value::Int(1)),
        (Value::Binary(b"b".to_vec()), Value::Int(2)),
    ];
    map_put(&mut pairs, Value::Binary(b"a".to_vec()), Value::Int(9));
    assert_eq!(pairs.len(), 2);
    assert_eq!(pairs[0], (Value::Binary(b"a".to_vec()), Value::Int(9)));
    map_put(&mut pairs, Value::Binary(b"c".to_vec()), Value::Int(3));
    assert_eq!(pairs.len(), 3);
    assert_eq!(pairs[2], (Value::Binary(b"c".to_vec()), Value::Int(3)));
}

#[test]
fn key_equality_is_scalar_only() {
    assert!(key_eq(&Value::Binary(b"a".to_vec()), &Value::Binary(b"a".to_vec())));
    assert!(!key_eq(&Value::Binary(b"a".to_vec()), &Value::Atom(b"a".to_vec())));
    assert!(key_eq(&Value::Int(3), &Value::Int(3)));
    assert!(!key_eq(&Value::List(vec![]), &Value::List(vec![])));
}

#[test]
fn build_string_states() {
    let input = SingleBinaryProvider::new(b"hello world".to_vec());
    // Empty finalizes to the empty binary.
    let s = BuildString::new();
    assert_eq!(s.finalize(&input), Value::Binary(vec![]));
    // One contiguous range stays borrowed and materializes its bytes.
    let mut s = BuildString::new();
    s.append_range(Range { start: 0, end: 5 }, &input);
    assert!(matches!(s, BuildString::Borrowed(_)));
    assert_eq!(s.finalize(&input), Value::Binary(b"hello".to_vec()));
    // A second range forces the owned state.
    let mut s = BuildString::new();
    s.append_range(Range { start: 0, end: 5 }, &input);
    s.append_range(Range { start: 6, end: 11 }, &input);
    assert!(matches!(s, BuildString::Owned(_)));
    assert_eq!(s.finalize(&input), Value::Binary(b"helloworld".to_vec()));
    // Single decoded bytes divert from the raw input.
    let mut s = BuildString::new();
    s.append_range(Range { start: 0, end: 5 }, &input);
    s.append_single(33, &input);
    assert_eq!(s.finalize(&input), Value::Binary(b"hello!".to_vec()));
}

#[test]
fn providers_serve_bytes_and_ranges() {
    let single = SingleBinaryProvider::new(b"abc".to_vec());
    assert_eq!(single.byte(0), StreamingInputResult::Got(b'a'));
    assert_eq!(single.byte(3), StreamingInputResult::Eof);
    let streaming = StreamingInputProvider::new(vec![
        (0, b"ab".to_vec()),
        (5, b"fg".to_vec()),
    ]);
    assert_eq!(streaming.byte(1), StreamingInputResult::Got(b'b'));
    assert_eq!(streaming.byte(3), StreamingInputResult::AwaitInput);
    assert_eq!(streaming.byte(5), StreamingInputResult::Got(b'f'));
    // Ranges extending into undelivered territory are clipped.
    let mut buf: Vec<u8> = Vec::new();
    streaming.push_range(Range { start: 0, end: 7 }, &mut buf);
    assert_eq!(buf, b"abfg".to_vec());
    assert_eq!(
        streaming.materialize(Range { start: 5, end: 7 }),
        Value::Binary(b"fg".to_vec())
    );
}

#[test]
fn node_variant_children() {
    let any = NodeVariant::Any;
    assert!(any.matches(ValueType::Object));
    assert!(any.matches(ValueType::Null));
    assert_eq!(any.child_key(&b"x".to_vec()), None);
    assert_eq!(any.child_index(0), None);
    assert_eq!(any.child_root(), None);

    let sentinel = NodeVariant::Sentinel;
    assert!(!sentinel.matches(ValueType::Object));
    assert_eq!(sentinel.child_root(), Some(NodeId(1)));

    let arr = NodeVariant::Array { child: NodeId(2) };
    assert!(arr.matches(ValueType::Array));
    assert!(!arr.matches(ValueType::Object));
    assert_eq!(arr.child_index(7), Some(NodeId(2)));
    assert_eq!(arr.child_key(&b"x".to_vec()), None);

    let map_values = NodeVariant::MapValues { child: NodeId(3) };
    assert!(map_values.matches(ValueType::Object));
    assert_eq!(map_values.child_key(&b"anything".to_vec()), Some(NodeId(3)));

    let map_keys = NodeVariant::MapKeys {
        children: vec![(b"a".to_vec(), NodeId(4)), (b"b".to_vec(), NodeId(5))],
    };
    assert!(map_keys.matches(ValueType::Object));
    assert_eq!(map_keys.child_key(&b"b".to_vec()), Some(NodeId(5)));
    assert_eq!(map_keys.child_key(&b"z".to_vec()), None);
    assert_eq!(map_keys.child_index(0), None);
}

#[test]
fn path_entry_accessors() {
    let key = PathEntry::Key(b"name".to_vec());
    assert_eq!(key.key(), &b"name".to_vec());
    let idx = PathEntry::Index(4);
    assert_eq!(idx.index(), 4);
}
