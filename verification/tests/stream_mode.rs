//! Spec mode over chunks: streaming yields, atom mappings, struct tagging,
//! chunk and budget invariance, chunk release, and input starvation.

use juicy_native::basic::{parse, ParseOutcome};
use juicy_native::from_term::{spec_from_term, validate_spec, Term};
use juicy_native::input::SingleBinaryProvider;
use juicy_native::parser::Unexpected;
use juicy_native::streaming::{
    stream_parse_init, stream_parse_iter_with_budget, StreamStatus, StreamStep, YieldItem,
};
use juicy_native::tree_spec::Spec;
use juicy_native::value::Value;
use juicy_native::walker::PathEntry;

fn atom(s: &str) -> Term {
    Term::Atom(s.as_bytes().to_vec())
}

fn binary(s: &str) -> Term {
    Term::Binary(s.as_bytes().to_vec())
}

fn no_opts() -> Term {
    Term::List(vec![])
}

fn any_node() -> Term {
    Term::Tuple(vec![atom("any"), no_opts()])
}

fn spec_of(term: &Term) -> Spec {
    spec_from_term(term).expect("the spec term should be accepted")
}

fn bin(s: &str) -> Value {
    Value::Binary(s.as_bytes().to_vec())
}

fn vatom(s: &str) -> Value {
    Value::Atom(s.as_bytes().to_vec())
}

fn chunks_of(parts: &[(usize, &str)]) -> Vec<(usize, Vec<u8>)> {
    parts.iter().map(|(start, s)| (*start, s.as_bytes().to_vec())).collect()
}

/// Drive a spec-mode parse over a fixed set of chunks until it finishes,
/// collecting all yields; panics if it starves.
fn run_stream(spec_term: &Term, chunks: Vec<(usize, Vec<u8>)>, budget: usize) -> (Vec<YieldItem>, Vec<Value>) {
    let mut state = stream_parse_init(spec_of(spec_term));
    let mut stack: Vec<Value> = Vec::new();
    let mut yields: Vec<YieldItem> = Vec::new();
    let mut current = chunks;
    loop {
        let step = stream_parse_iter_with_budget(current, stack, state, budget);
        yields.extend(step.yields);
        stack = step.stack;
        state = step.state;
        current = step.remaining_chunks;
        match step.status {
            StreamStatus::Finished => return (yields, stack),
            StreamStatus::Iter => {},
            StreamStatus::AwaitInput => panic!("starved for input at {}", state.position()),
        }
    }
}

#[test]
fn scenario_streamed_array() {
    // ("[1,2,", "3,4,5]") with spec (array, [stream=true], (any,[])):
    // every element yields with its 0-based index; the terminal value is
    // an array of five streamed sentinels.
    let spec_term = Term::Tuple(vec![
        atom("array"),
        Term::List(vec![Term::Tuple(vec![atom("stream"), atom("true")])]),
        any_node(),
    ]);
    let spec = spec_of(&spec_term);
    let mut state = stream_parse_init(spec);
    let mut stack: Vec<Value> = Vec::new();
    let mut yields: Vec<YieldItem> = Vec::new();

    let step = stream_parse_iter_with_budget(chunks_of(&[(0, "[1,2,")]), stack, state, 40000);
    assert_eq!(step.status, StreamStatus::AwaitInput);
    yields.extend(step.yields);
    stack = step.stack;
    state = step.state;

    let mut chunks = step.remaining_chunks;
    chunks.push((5, "3,4,5]".as_bytes().to_vec()));
    let step = stream_parse_iter_with_budget(chunks, stack, state, 40000);
    assert_eq!(step.status, StreamStatus::Finished);
    yields.extend(step.yields);

    let expected: Vec<YieldItem> = vec![
        YieldItem::Streamed(vec![PathEntry::Index(0)], Value::Int(1)),
        YieldItem::Streamed(vec![PathEntry::Index(1)], Value::Int(2)),
        YieldItem::Streamed(vec![PathEntry::Index(2)], Value::Int(3)),
        YieldItem::Streamed(vec![PathEntry::Index(3)], Value::Int(4)),
        YieldItem::Streamed(vec![PathEntry::Index(4)], Value::Int(5)),
        YieldItem::Finished,
    ];
    assert_eq!(yields, expected);

    let mut stack = step.stack;
    assert_eq!(stack.len(), 1);
    let root = stack.pop().unwrap();
    assert_eq!(
        root,
        Value::List(vec![
            Value::Streamed,
            Value::Streamed,
            Value::Streamed,
            Value::Streamed,
            Value::Streamed,
        ])
    );
}

#[test]
fn scenario_projected_map() {
    // (map_keys, [struct_atom=user, atom_mappings={"a"=>id}],
    //  {"a"=>(any,[]), "b"=>(array,[],(any,[]))}) turns {"a":1,...} into
    // %{id => 1, "b" => [...], __struct__ => user}.
    let spec_term = Term::Tuple(vec![
        atom("map_keys"),
        Term::List(vec![
            Term::Tuple(vec![atom("struct_atom"), atom("user")]),
            Term::Tuple(vec![
                atom("atom_mappings"),
                Term::MapPairs(vec![(binary("a"), atom("id"))]),
            ]),
        ]),
        Term::MapPairs(vec![
            (binary("a"), any_node()),
            (binary("b"), Term::Tuple(vec![atom("array"), no_opts(), any_node()])),
        ]),
    ]);
    let doc = "{\"a\":1,\"b\":[true,null,-2.5e2]}";
    let (yields, mut stack) = run_stream(&spec_term, chunks_of(&[(0, doc)]), 40000);
    assert_eq!(yields, vec![YieldItem::Finished]);
    assert_eq!(stack.len(), 1);
    match stack.pop().unwrap() {
        Value::Object(pairs) => {
            assert_eq!(pairs.len(), 3);
            assert_eq!(pairs[0].0, vatom("id"));
            assert_eq!(pairs[0].1, Value::Int(1));
            assert_eq!(pairs[1].0, bin("b"));
            assert_eq!(
                pairs[1].1,
                Value::List(vec![
                    Value::Bool(true),
                    Value::Null,
                    Value::Float(b"-2.5e2".to_vec()),
                ])
            );
            assert_eq!(pairs[2].0, vatom("__struct__"));
            assert_eq!(pairs[2].1, vatom("user"));
        },
        other => panic!("expected a map, got {:?}", other),
    }
}

#[test]
fn scenario_await_then_complete() {
    // "{" then end-of-input: await_input; providing "}" completes with the
    // empty map.
    let mut state = stream_parse_init(spec_of(&any_node()));
    let step = stream_parse_iter_with_budget(chunks_of(&[(0, "{")]), Vec::new(), state, 40000);
    assert_eq!(step.status, StreamStatus::AwaitInput);
    assert!(step.yields.is_empty());
    state = step.state;
    let mut chunks = step.remaining_chunks;
    chunks.push((1, "}".as_bytes().to_vec()));
    let step = stream_parse_iter_with_budget(chunks, step.stack, state, 40000);
    assert_eq!(step.status, StreamStatus::Finished);
    let mut stack = step.stack;
    assert_eq!(stack.pop().unwrap(), Value::Object(vec![]));
}

#[test]
fn reschedule_idempotence() {
    // Re-entering a starved continuation without new input is a no-op: it
    // reports await_input again with the same first_needed and no yields.
    let state = stream_parse_init(spec_of(&any_node()));
    let step = stream_parse_iter_with_budget(
        chunks_of(&[(0, "[1,2,")]),
        Vec::new(),
        state,
        40000,
    );
    assert_eq!(step.status, StreamStatus::AwaitInput);
    let first_needed = step.state.first_needed();
    let position = step.state.position();
    let stack_len = step.stack.len();
    let again = stream_parse_iter_with_budget(
        step.remaining_chunks,
        step.stack,
        step.state,
        40000,
    );
    assert_eq!(again.status, StreamStatus::AwaitInput);
    assert!(again.yields.is_empty());
    assert_eq!(again.state.first_needed(), first_needed);
    assert_eq!(again.state.position(), position);
    assert_eq!(again.stack.len(), stack_len);
}

#[test]
fn chunk_invariance() {
    // Any chunking of a document gives the same terminal value and yields.
    let doc = "{\"a\":[1,2,3],\"b\":{\"c\":null}}";
    let whole = run_stream(&any_node(), chunks_of(&[(0, doc)]), 40000);
    for cut in [1usize, 3, 7, 13, doc.len() - 1] {
        let parts = chunks_of(&[(0, &doc[..cut]), (cut, &doc[cut..])]);
        let split = run_stream(&any_node(), parts, 40000);
        assert_eq!(split.0, whole.0);
        assert_eq!(split.1, whole.1);
    }
    // Byte-by-byte chunking.
    let tiny: Vec<(usize, Vec<u8>)> =
        doc.bytes().enumerate().map(|(i, b)| (i, vec![b])).collect();
    let split = run_stream(&any_node(), tiny, 40000);
    assert_eq!(split.0, whole.0);
    assert_eq!(split.1, whole.1);
}

#[test]
fn budget_invariance_streaming() {
    let doc = "{\"a\":[1,2,3],\"b\":{\"c\":null}}";
    let reference = run_stream(&any_node(), chunks_of(&[(0, doc)]), 40000);
    for budget in [1usize, 64, 4096, 40000, doc.len() + 1] {
        let got = run_stream(&any_node(), chunks_of(&[(0, doc)]), budget);
        assert_eq!(got.0, reference.0);
        assert_eq!(got.1, reference.1);
    }
}

#[test]
fn chunk_release_safety() {
    // Feeding only the chunks the step reported as still needed does not
    // change the outcome. run_stream already passes remaining_chunks back;
    // here we check chunks actually get released along the way.
    let doc = "[\"aaaaaaaa\",\"bbbbbbbb\",\"cccccccc\"]";
    let spec_term = Term::Tuple(vec![
        atom("array"),
        Term::List(vec![Term::Tuple(vec![atom("stream"), atom("true")])]),
        any_node(),
    ]);
    let mut state = stream_parse_init(spec_of(&spec_term));
    let mut stack: Vec<Value> = Vec::new();
    let mut yields: Vec<YieldItem> = Vec::new();
    let mut held: Vec<(usize, Vec<u8>)> = Vec::new();
    let mut released = false;
    for (i, b) in doc.bytes().enumerate() {
        held.push((i, vec![b]));
        let step = stream_parse_iter_with_budget(held, stack, state, 40000);
        yields.extend(step.yields);
        stack = step.stack;
        state = step.state;
        held = step.remaining_chunks;
        if held.len() < i + 1 {
            released = true;
        }
        if step.status == StreamStatus::Finished {
            break;
        }
    }
    assert!(released, "no chunk was ever released");
    let whole = run_stream(&spec_term, chunks_of(&[(0, doc)]), 40000);
    assert_eq!(yields, whole.0);
    assert_eq!(stack, whole.1);
}

#[test]
fn spec_projection_matches_basic_mode() {
    // A spec whose every node is `any` with defaulted options produces
    // exactly the basic-mode result.
    let doc = "{\"a\":1,\"b\":[true,null,-2.5e2]}";
    let (yields, mut stack) = run_stream(&any_node(), chunks_of(&[(0, doc)]), 40000);
    assert_eq!(yields, vec![YieldItem::Finished]);
    let streamed = stack.pop().unwrap();
    let basic = match parse(&SingleBinaryProvider::new(doc.as_bytes().to_vec())) {
        ParseOutcome::Complete(v) => v,
        _ => panic!("basic parse should complete"),
    };
    assert_eq!(streamed, basic);
}

#[test]
fn streaming_error_is_final_yield() {
    let (yields, _) = run_stream(&any_node(), chunks_of(&[(0, "{\"a\":1,}")]), 40000);
    assert_eq!(yields.len(), 1);
    match &yields[0] {
        YieldItem::Failed(pos, _) => assert_eq!(*pos, 7),
        other => panic!("expected the error yield, got {:?}", other),
    }
}

#[test]
fn dropped_bytes_are_reported() {
    // Dropping chunks the parse still needs (violating the first_needed
    // contract) is reported as an error, not a crash.
    let state = stream_parse_init(spec_of(&any_node()));
    let step = stream_parse_iter_with_budget(chunks_of(&[(0, "123")]), Vec::new(), state, 40000);
    assert_eq!(step.status, StreamStatus::AwaitInput);
    // Hand back only a later chunk: the number can now terminate, but its
    // digits are gone.
    let step = stream_parse_iter_with_budget(
        chunks_of(&[(3, " ")]),
        step.stack,
        step.state,
        40000,
    );
    assert_eq!(step.status, StreamStatus::Finished);
    match &step.yields[0] {
        YieldItem::Failed(_, why) => assert_eq!(*why, Unexpected::MissingBytes),
        other => panic!("expected the error yield, got {:?}", other),
    }
}

#[test]
fn validate_spec_accepts_and_rejects() {
    assert!(validate_spec(&any_node()));
    let full = Term::Tuple(vec![
        atom("map"),
        Term::List(vec![
            Term::Tuple(vec![atom("stream"), atom("false")]),
            Term::Tuple(vec![atom("ignore_not_mapped"), atom("true")]),
            Term::Tuple(vec![atom("something_else"), Term::Int(3)]),
        ]),
        any_node(),
    ]);
    assert!(validate_spec(&full));
    // Wrong head atom.
    assert!(!validate_spec(&Term::Tuple(vec![atom("nope"), no_opts()])));
    // An arity-3 `any` is not grammatical.
    assert!(!validate_spec(&Term::Tuple(vec![atom("any"), no_opts(), any_node()])));
    // Options must be a list.
    assert!(!validate_spec(&Term::Tuple(vec![atom("any"), Term::Int(1)])));
    // A stream flag must be a boolean atom.
    assert!(!validate_spec(&Term::Tuple(vec![
        atom("any"),
        Term::List(vec![Term::Tuple(vec![atom("stream"), Term::Int(1)])]),
    ])));
    // Mapping keys must be binaries.
    assert!(!validate_spec(&Term::Tuple(vec![
        atom("any"),
        Term::List(vec![Term::Tuple(vec![
            atom("atom_mappings"),
            Term::MapPairs(vec![(atom("a"), atom("b"))]),
        ])]),
    ])));
    // A bare atom is not a node.
    assert!(!validate_spec(&atom("any")));
}

#[test]
fn unmatched_regions_still_collect() {
    // A spec deeper than the document matches nothing below the frontier;
    // the values still collect normally.
    let spec_term = Term::Tuple(vec![
        atom("map_keys"),
        no_opts(),
        Term::MapPairs(vec![(binary("a"), any_node())]),
    ]);
    let doc = "{\"a\":{\"x\":[1,2]},\"b\":3}";
    let (yields, mut stack) = run_stream(&spec_term, chunks_of(&[(0, doc)]), 40000);
    assert_eq!(yields, vec![YieldItem::Finished]);
    match stack.pop().unwrap() {
        Value::Object(pairs) => {
            assert_eq!(pairs.len(), 2);
            assert_eq!(
                pairs[0].1,
                Value::Object(vec![(
                    bin("x"),
                    Value::List(vec![Value::Int(1), Value::Int(2)]),
                )])
            );
            assert_eq!(pairs[1].1, Value::Int(3));
        },
        other => panic!("expected a map, got {:?}", other),
    }
}

#[test]
fn streamed_map_yields_entries() {
    // A streamed map yields each entry's value under its key path and
    // leaves sentinels for the collected parent.
    let spec_term = Term::Tuple(vec![
        atom("map"),
        Term::List(vec![Term::Tuple(vec![atom("stream"), atom("true")])]),
        any_node(),
    ]);
    let doc = "{\"a\":1,\"b\":2}";
    let (yields, mut stack) = run_stream(&spec_term, chunks_of(&[(0, doc)]), 40000);
    let expected: Vec<YieldItem> = vec![
        YieldItem::Streamed(vec![PathEntry::Key(b"a".to_vec())], Value::Int(1)),
        YieldItem::Streamed(vec![PathEntry::Key(b"b".to_vec())], Value::Int(2)),
        YieldItem::Finished,
    ];
    assert_eq!(yields, expected);
    match stack.pop().unwrap() {
        Value::Object(pairs) => {
            assert_eq!(pairs[0], (bin("a"), Value::Streamed));
            assert_eq!(pairs[1], (bin("b"), Value::Streamed));
        },
        other => panic!("expected a map, got {:?}", other),
    }
}
