//! Spec mode over chunked input: the orchestrating source/sink adapter.
//!
//! Each step consumes up to a byte budget from the delivered chunks,
//! applies the spec-directed projections (atom-mapped keys, `__struct__`
//! tagging, subtree streaming via yields), and suspends as `Iter` (budget
//! exhausted) or `AwaitInput` (input starved). `first_needed` tells the
//! caller which chunks may be released: those ending at or before it are
//! no longer referred to.

use vstd::prelude::*;

use vstd::pervasive::unreached;

use crate::basic::RunStatus;
use crate::input::{chunk_model, chunks_model, InputProvider, StreamingInputProvider, StreamingInputResult};
use crate::numbers::number_data_to_value;
use crate::parser::{
    event_shape_ok, nc_rank, BailType, Event, Feed, Parser, ShapeTok, StepResult, StringPosition,
    Unexpected,
};
use crate::path_tracker::PathTracker;
use crate::sink::{
    fold_into_array, fold_into_map, lemma_stack_fold, lemma_stack_push, reverse_top_list,
    stack_matches, utf8_encode,
};
use crate::strings::BuildString;
use crate::tree_spec::{assoc_lookup, Spec, ValueType};
use crate::value::{bytes_eq, copy_bytes, map_put, map_put_spec, Value};
use crate::walker::{PathEntry, PathPosition, SpecWalker};

verus! {

/// The atom `__struct__`.
pub open spec fn kw_struct_key_name() -> Seq<u8> {
    seq![95u8, 95u8, 115u8, 116u8, 114u8, 117u8, 99u8, 116u8, 95u8, 95u8]
}

fn kw_struct_key() -> (r: Vec<u8>)
    ensures
        r@ == kw_struct_key_name(),
{
    let mut v: Vec<u8> = Vec::new();
    v.push(95);
    v.push(95);
    v.push(115);
    v.push(116);
    v.push(114);
    v.push(117);
    v.push(99);
    v.push(116);
    v.push(95);
    v.push(95);
    proof {
        assert(v@ =~= kw_struct_key_name());
    }
    v
}

/// One element of a step's yield list: a streamed `(path, value)`
/// fragment, the final completion mark, or the error ending the parse.
#[derive(Debug, PartialEq, Eq)]
pub enum YieldItem {
    Streamed(Vec<PathEntry>, Value),
    Finished,
    Failed(usize, Unexpected),
}

/// How a step ended toward the host.
#[derive(Debug, Clone, Copy, PartialEq, Eq, Structural)]
pub enum StreamStatus {
    /// The document completed, or the parse ended in an error (which is
    /// then the last yield).
    Finished,
    /// The byte budget was exhausted; re-enter to continue.
    Iter,
    /// The next byte has not been delivered yet.
    AwaitInput,
}

/// The suspended continuation of a spec-mode parse.
pub struct StreamState {
    parser: Parser,
    tracker: PathTracker,
    first_needed: usize,
    string: BuildString,
}

impl StreamState {
    /// The continuation is internally consistent.
    pub closed spec fn inv(&self) -> bool {
        &&& self.parser.wf()
        &&& self.tracker.wf()
        &&& self.tracker.walker.depth + self.tracker.walker.height_off_current
            == self.parser.frames@.len()
        &&& self.first_needed <= self.parser.pos
    }

    /// The given output stack fits this continuation.
    pub closed spec fn compatible(&self, stack: Seq<Value>) -> bool {
        stack_matches(self.parser.shape(), stack)
    }

    /// The continuation is starved: it needs a byte the chunks do not
    /// hold.
    pub closed spec fn awaiting(&self, chunks: Seq<(usize, Vec<u8>)>) -> bool {
        self.parser.wants_input_spec() && !chunks_model(chunks).dom().contains(
            self.parser.pos as int,
        )
    }

    /// The lowest absolute offset the parse may still refer back to.
    pub closed spec fn first_needed_spec(&self) -> usize {
        self.first_needed
    }

    /// The lowest absolute offset the parse may still refer back to;
    /// chunks ending at or before it may be released.
    pub fn first_needed(&self) -> (r: usize)
        ensures
            r == self.first_needed_spec(),
    {
        self.first_needed
    }

    /// The continuation's absolute position in the input.
    pub closed spec fn position_spec(&self) -> usize {
        self.parser.pos
    }

    /// The continuation's absolute position in the input.
    pub fn position(&self) -> (r: usize)
        ensures
            r == self.position_spec(),
    {
        self.parser.pos
    }
}

/// One spec-mode step's answer: the status, the yields produced during the
/// step, the output stack, the chunks still needed, and the continuation.
pub struct StreamStep {
    pub status: StreamStatus,
    pub yields: Vec<YieldItem>,
    pub stack: Vec<Value>,
    pub remaining_chunks: Vec<(usize, Vec<u8>)>,
    pub state: StreamState,
}

/// Look a key up in an atom mapping, handing back a copy of the atom.
fn lookup_mapping(pairs: &Vec<(Vec<u8>, Vec<u8>)>, key: &Vec<u8>) -> (r: Option<Vec<u8>>)
    ensures
        match assoc_lookup(pairs@, key@) {
            Some(v) => r matches Some(a) && a@ == v@,
            None => r is None,
        },
{
    let n = pairs.len();
    proof {
        assert(pairs@.skip(0) =~= pairs@);
    }
    let mut i: usize = 0;
    while i < n
        invariant
            n == pairs@.len(),
            0 <= i <= n,
            assoc_lookup(pairs@, key@) == assoc_lookup(pairs@.skip(i as int), key@),
        decreases n - i,
    {
        proof {
            assert(pairs@.skip(i as int)[0] == pairs@[i as int]);
            assert(pairs@.skip(i as int).drop_first() =~= pairs@.skip(i as int + 1));
        }
        if bytes_eq(&pairs[i].0, key) {
            proof {
                assert(pairs@.skip(i as int)[0].0@ == key@);
            }
            return Some(copy_bytes(&pairs[i].1));
        }
        i += 1;
    }
    proof {
        assert(pairs@.skip(n as int) =~= Seq::<(Vec<u8>, Vec<u8>)>::empty());
    }
    None
}

/// Two path entries denote the same path step.
pub open spec fn entry_like(a: PathEntry, b: PathEntry) -> bool {
    match (a, b) {
        (PathEntry::Key(x), PathEntry::Key(y)) => x@ == y@,
        (PathEntry::Index(i), PathEntry::Index(j)) => i == j,
        _ => false,
    }
}

/// Two paths denote the same location, entry by entry.
pub open spec fn path_like(a: Seq<PathEntry>, b: Seq<PathEntry>) -> bool {
    a.len() == b.len() && forall|i: int| 0 <= i < a.len() ==> entry_like(#[trigger] a[i], b[i])
}

/// Snapshot the path, optionally without its last entry (used when an
/// array's own index entry has just been closed).
fn clone_path(path: &Vec<PathEntry>, drop_last: bool) -> (r: Vec<PathEntry>)
    ensures
        path_like(
            r@,
            if drop_last && path@.len() > 0 {
                path@.drop_last()
            } else {
                path@
            },
        ),
{
    let n = path.len();
    let upto = if drop_last && n > 0 {
        n - 1
    } else {
        n
    };
    let mut out: Vec<PathEntry> = Vec::new();
    let mut i: usize = 0;
    while i < upto
        invariant
            upto <= n == path@.len(),
            0 <= i <= upto,
            out@.len() == i,
            forall|j: int| 0 <= j < i ==> entry_like(#[trigger] out@[j], path@[j]),
        decreases upto - i,
    {
        let entry = match &path[i] {
            PathEntry::Key(k) => PathEntry::Key(copy_bytes(k)),
            PathEntry::Index(idx) => PathEntry::Index(*idx),
        };
        out.push(entry);
        i += 1;
    }
    out
}

/// The value a finalized key with bytes `kb` becomes: the mapped atom
/// when the governing node (the walker's current node, on the spec
/// frontier) maps those bytes, else the key as a binary.
pub open spec fn mapped_key_like(v: Value, t: PathTracker, kb: Seq<u8>) -> bool {
    if t.walker.height_off_current == 0 {
        match t.walker.tree.nodes_view()[t.walker.current.0 as int].options.atom_mappings {
            Some(m) => match assoc_lookup(m@, kb) {
                Some(a) => v matches Value::Atom(x) && x@ == a@,
                None => v matches Value::Binary(x) && x@ == kb,
            },
            None => v matches Value::Binary(x) && x@ == kb,
        }
    } else {
        v matches Value::Binary(x) && x@ == kb
    }
}

/// The node whose options govern a container being exited: the walker's
/// current node, when the cursor is on the spec frontier.
pub open spec fn exit_node(t: PathTracker) -> Option<crate::tree_spec::NodeId> {
    if t.walker.height_off_current == 0 {
        Some(t.walker.current)
    } else {
        None
    }
}

/// The walker's answer when a container is exited, as a function of the
/// tracker before the exit.
pub open spec fn exit_resp(t: PathTracker) -> PathPosition {
    if t.walker.height_off_current == 0 {
        PathPosition {
            current: Some(t.walker.current),
            parent: t.walker.tree.nodes_view()[t.walker.current.0 as int].parent,
        }
    } else if t.walker.height_off_current == 1 {
        PathPosition { current: None, parent: Some(t.walker.current) }
    } else {
        PathPosition { current: None, parent: None }
    }
}

/// The map value a map exit leaves: when the governing node carries a
/// struct atom, the completed map with that atom put under the
/// `__struct__` key; else the completed map untouched.
pub open spec fn struct_tagged_like(v: Value, t: PathTracker, pre_top: Value) -> bool {
    match exit_node(t) {
        Some(nid) => match t.walker.tree.nodes_view()[nid.0 as int].options.struct_atom {
            Some(a) => exists|kk: Value, vv: Value|
                #![trigger map_put_spec(pre_top->Object_0@, kk, vv)]
                (v matches Value::Object(p2) && pre_top matches Value::Object(p1) && p2@
                    == map_put_spec(p1@, kk, vv)) && (kk matches Value::Atom(x) && x@
                    == kw_struct_key_name()) && (vv matches Value::Atom(y) && y@ == a@),
            None => v == pre_top,
        },
        None => v == pre_top,
    }
}

/// A completed value yields when the enclosing matched spec node lies in
/// a streamed region.
pub open spec fn yields_here(tree: Spec, resp: PathPosition) -> bool {
    match resp.parent {
        Some(p) => tree.nodes_view()[p.0 as int].options.stream_collect,
        None => false,
    }
}

/// Emit a yield for a completed value if the enclosing matched spec node
/// lies in a streamed region: the just-built value is popped off the
/// stack, a `Streamed` sentinel takes its place, and the `(path, value)`
/// pair is appended to the yields.
fn do_stream(
    resp: PathPosition,
    tree: &Spec,
    stack: &mut Vec<Value>,
    yields: &mut Vec<YieldItem>,
    path_snapshot: Vec<PathEntry>,
    Ghost(shape): Ghost<Seq<ShapeTok>>,
)
    requires
        tree.wf(),
        resp.parent matches Some(p) ==> p.0 < tree.nodes_view().len(),
        stack_matches(shape, old(stack)@),
        shape.len() >= 1,
        shape.last() == ShapeTok::TVal,
    ensures
        stack_matches(shape, final(stack)@),
        yields_here(*tree, resp) ==> final(stack)@ == old(stack)@.update(
            old(stack)@.len() - 1,
            Value::Streamed,
        ) && final(yields)@ == old(yields)@.push(
            YieldItem::Streamed(path_snapshot, old(stack)@.last()),
        ),
        !yields_here(*tree, resp) ==> final(stack)@ == old(stack)@ && final(yields)@ == old(
            yields,
        )@,
{
    let parent = match resp.parent {
        Some(p) => p,
        None => {
            return ;
        },
    };
    let node = tree.get(parent);
    if node.options.stream_collect {
        let ghost s0 = stack@;
        let v = match stack.pop() {
            Some(v) => v,
            None => unreached(),
        };
        yields.push(YieldItem::Streamed(path_snapshot, v));
        stack.push(Value::Streamed);
        proof {
            assert(stack@ =~= s0.update(s0.len() - 1, Value::Streamed));
        }
    }
}

/// Apply one structural event: build values, keep the walker and path in
/// step, apply the node options, and record `first_needed`. Returns false
/// only when the digits of a number were no longer held by the provider.
#[verifier::rlimit(30)]
fn apply_event_stream<P: InputProvider>(
    e: Event,
    input: &P,
    stack: &mut Vec<Value>,
    string: &mut BuildString,
    tracker: &mut PathTracker,
    yields: &mut Vec<YieldItem>,
    first_needed: &mut usize,
    Ghost(pre): Ghost<Seq<ShapeTok>>,
    Ghost(post): Ghost<Seq<ShapeTok>>,
    Ghost(pre_frames): Ghost<Seq<crate::parser::Frame>>,
    Ghost(post_frames): Ghost<Seq<crate::parser::Frame>>,
    Ghost(pos): Ghost<usize>,
) -> (ok: bool)
    requires
        stack_matches(pre, old(stack)@),
        event_shape_ok(e, pre, post),
        crate::parser::event_frames_ok(e, pre_frames, post_frames),
        crate::parser::event_pos_ok(e, pos),
        old(tracker).wf(),
        old(tracker).walker.depth + old(tracker).walker.height_off_current == pre_frames.len(),
        post_frames.len() <= usize::MAX,
        *old(first_needed) <= pos,
    ensures
        ok ==> stack_matches(post, final(stack)@),
        final(tracker).wf(),
        final(tracker).walker.depth + final(tracker).walker.height_off_current
            == post_frames.len(),
        *old(first_needed) <= *final(first_needed) <= pos,
        old(yields)@.is_prefix_of(final(yields)@),
        forall|i: int|
            old(yields)@.len() <= i < final(yields)@.len()
                ==> (#[trigger] final(yields)@[i]) is Streamed,
        e == Event::FinalizeString(StringPosition::MapKey)
            ==> final(stack)@.len() == old(stack)@.len() + 1
            && final(stack)@.take(old(stack)@.len() as int) == old(stack)@
            && mapped_key_like(
            final(stack)@.last(),
            *old(tracker),
            crate::strings::build_string_bytes(*old(string), input.model()),
        ),
        e matches Event::FinalizeMap(q) ==> (exists|tagged: Value|
            #![trigger struct_tagged_like(tagged, *old(tracker), old(stack)@.last())]
            struct_tagged_like(tagged, *old(tracker), old(stack)@.last()) && (if yields_here(
                old(tracker).walker.tree,
                exit_resp(*old(tracker)),
            ) {
                &&& final(stack)@ == old(stack)@.update(old(stack)@.len() - 1, Value::Streamed)
                &&& final(yields)@.len() == old(yields)@.len() + 1
                &&& (final(yields)@.last() matches YieldItem::Streamed(pth, vv) && vv == tagged)
            } else {
                &&& final(stack)@ == old(stack)@.update(old(stack)@.len() - 1, tagged)
                &&& final(yields)@ == old(yields)@
            })),
{
    match e {
        Event::PushMap(p) => {
            let ghost s0 = stack@;
            stack.push(Value::empty_map());
            proof {
                lemma_stack_push(pre, s0, ShapeTok::TMap, stack@.last());
            }
            *first_needed = p;
            tracker.enter_map();
            true
        },
        Event::PushArray(p) => {
            let ghost s0 = stack@;
            stack.push(Value::empty_list());
            proof {
                lemma_stack_push(pre, s0, ShapeTok::TList, stack@.last());
            }
            *first_needed = p;
            tracker.enter_array();
            true
        },
        Event::PushNumber(p, data) => {
            match number_data_to_value(input, &data) {
                Some(v) => {
                    let ghost s0 = stack@;
                    stack.push(v);
                    proof {
                        lemma_stack_push(pre, s0, ShapeTok::TVal, stack@.last());
                    }
                    *first_needed = p;
                    let snapshot = clone_path(&tracker.path, false);
                    let resp = tracker.visit_terminal(ValueType::Number);
                    do_stream(resp, &tracker.walker.tree, stack, yields, snapshot, Ghost(post));
                    true
                },
                None => false,
            }
        },
        Event::PushBool(p, b) => {
            let ghost s0 = stack@;
            stack.push(Value::Bool(b));
            proof {
                lemma_stack_push(pre, s0, ShapeTok::TVal, stack@.last());
            }
            *first_needed = p;
            let snapshot = clone_path(&tracker.path, false);
            let resp = tracker.visit_terminal(ValueType::Boolean);
            do_stream(resp, &tracker.walker.tree, stack, yields, snapshot, Ghost(post));
            true
        },
        Event::PushNull(p) => {
            let ghost s0 = stack@;
            stack.push(Value::Null);
            proof {
                lemma_stack_push(pre, s0, ShapeTok::TVal, stack@.last());
            }
            *first_needed = p;
            let snapshot = clone_path(&tracker.path, false);
            let resp = tracker.visit_terminal(ValueType::Null);
            do_stream(resp, &tracker.walker.tree, stack, yields, snapshot, Ghost(post));
            true
        },
        Event::StartString(spos) => {
            if matches!(spos, StringPosition::MapKey) {
                *string = BuildString::new_owned();
            } else {
                *string = BuildString::new();
            }
            true
        },
        Event::AppendStringRange(r) => {
            string.append_range(r, input);
            true
        },
        Event::AppendStringSingle(b) => {
            string.append_single(b, input);
            true
        },
        Event::AppendStringCodepoint(cp) => {
            let bytes = utf8_encode(cp);
            string.append_bytes(&bytes, input);
            true
        },
        Event::FinalizeString(spos) => {
            if matches!(spos, StringPosition::MapKey) {
                let s = string.take();
                let key = s.take_bytes(input);
                let key_for_path = copy_bytes(&key);
                let node_id = tracker.enter_key(key_for_path);
                let mut mapped: Option<Vec<u8>> = None;
                match node_id {
                    Some(nid) => {
                        let node = tracker.walker.tree.get(nid);
                        match &node.options.atom_mappings {
                            Some(mappings) => {
                                mapped = lookup_mapping(mappings, &key);
                            },
                            None => {},
                        }
                    },
                    None => {},
                }
                let ghost s0 = stack@;
                match mapped {
                    Some(atom) => {
                        stack.push(Value::Atom(atom));
                    },
                    None => {
                        stack.push(Value::Binary(key));
                    },
                }
                proof {
                    lemma_stack_push(pre, s0, ShapeTok::TVal, stack@.last());
                }
                true
            } else {
                let s = string.take();
                let v = s.finalize(input);
                let ghost s0 = stack@;
                stack.push(v);
                proof {
                    lemma_stack_push(pre, s0, ShapeTok::TVal, stack@.last());
                }
                let snapshot = clone_path(&tracker.path, false);
                let resp = tracker.visit_terminal(ValueType::String);
                do_stream(resp, &tracker.walker.tree, stack, yields, snapshot, Ghost(post));
                true
            }
        },
        Event::FinalizeMap(p) => {
            let ghost t0 = *tracker;
            let ghost top0 = stack@.last();
            let snapshot = clone_path(&tracker.path, false);
            let resp = tracker.exit_map();
            *first_needed = p;
            proof {
                assert(resp == exit_resp(t0));
                assert(stack@.take(stack@.len() - 1) =~= stack@.take(stack@.len() - 1));
                lemma_stack_fold(pre, stack@, stack@, 1, ShapeTok::TVal);
                assert(post =~= pre.take(pre.len() - 1).push(ShapeTok::TVal));
            }
            match resp.current {
                Some(nid) => {
                    let has_struct = {
                        let node = tracker.walker.tree.get(nid);
                        node.options.struct_atom.is_some()
                    };
                    if has_struct {
                        let atom = {
                            let node = tracker.walker.tree.get(nid);
                            match &node.options.struct_atom {
                                Some(a) => copy_bytes(a),
                                None => unreached(),
                            }
                        };
                        let key_atom = Value::Atom(kw_struct_key());
                        let val_atom = Value::Atom(atom);
                        let ghost kkg = key_atom;
                        let ghost vvg = val_atom;
                        let ghost s0 = stack@;
                        let m = match stack.pop() {
                            Some(m) => m,
                            None => unreached(),
                        };
                        let mut pairs = match m {
                            Value::Object(pairs) => pairs,
                            _ => unreached(),
                        };
                        map_put(&mut pairs, key_atom, val_atom);
                        stack.push(Value::Object(pairs));
                        proof {
                            assert(stack@ =~= s0.update(s0.len() - 1, stack@.last()));
                            assert(map_put_spec(top0->Object_0@, kkg, vvg) == stack@.last()->Object_0@);
                            assert(struct_tagged_like(stack@.last(), t0, top0));
                        }
                    } else {
                        proof {
                            assert(struct_tagged_like(stack@.last(), t0, top0));
                        }
                    }
                },
                None => {
                    proof {
                        assert(struct_tagged_like(stack@.last(), t0, top0));
                    }
                },
            }
            let ghost tagged_v = stack@.last();
            do_stream(resp, &tracker.walker.tree, stack, yields, snapshot, Ghost(post));
            proof {
                assert(tracker.walker.tree == t0.walker.tree);
                if yields_here(t0.walker.tree, resp) {
                    assert(stack@ =~= old(stack)@.update(old(stack)@.len() - 1, Value::Streamed));
                } else {
                    assert(stack@ =~= old(stack)@.update(old(stack)@.len() - 1, tagged_v));
                }
            }
            true
        },
        Event::FinalizeArray(p) => {
            let ghost s0 = stack@;
            reverse_top_list(stack);
            proof {
                lemma_stack_fold(pre, s0, stack@, 1, ShapeTok::TVal);
                assert(post =~= pre.take(pre.len() - 1).push(ShapeTok::TVal));
            }
            let snapshot = clone_path(&tracker.path, true);
            let resp = tracker.exit_array();
            *first_needed = p;
            do_stream(resp, &tracker.walker.tree, stack, yields, snapshot, Ghost(post));
            true
        },
        Event::PopIntoMap => {
            let ghost s0 = stack@;
            fold_into_map(stack);
            proof {
                lemma_stack_fold(pre, s0, stack@, 3, ShapeTok::TMap);
            }
            true
        },
        Event::PopIntoArray => {
            let ghost s0 = stack@;
            fold_into_array(stack);
            proof {
                lemma_stack_fold(pre, s0, stack@, 2, ShapeTok::TList);
            }
            true
        },
    }
}

/// Begin a spec-mode parse: no input yet, an empty output stack, position
/// and `first_needed` at zero.
pub fn stream_parse_init(tree: Spec) -> (r: StreamState)
    requires
        tree.wf(),
    ensures
        r.inv(),
        r.compatible(Seq::<Value>::empty()),
        r.awaiting(Seq::<(usize, Vec<u8>)>::empty()),
        r.position_spec() == 0,
        r.first_needed_spec() == 0,
{
    let parser = Parser::new();
    let walker = SpecWalker::new(tree);
    let tracker = PathTracker::new(walker);
    proof {
        assert(chunks_model(Seq::<(usize, Vec<u8>)>::empty()) =~= Map::<int, u8>::empty());
    }
    StreamState { parser, tracker, first_needed: 0, string: BuildString::new() }
}

/// The chunks whose end lies at or after `first_needed`, in order.
pub open spec fn retained_chunks(chunks: Seq<(usize, Vec<u8>)>, first_needed: usize) -> Seq<
    (usize, Vec<u8>),
>
    decreases chunks.len(),
{
    if chunks.len() == 0 {
        Seq::empty()
    } else {
        retained_chunks(chunks.drop_last(), first_needed) + (if chunks.last().0
            + chunks.last().1@.len() >= first_needed {
            seq![chunks.last()]
        } else {
            Seq::<(usize, Vec<u8>)>::empty()
        })
    }
}

/// A position some chunk of the list covers is in the list's model.
proof fn lemma_chunk_in_model(chunks: Seq<(usize, Vec<u8>)>, k: int, p: int)
    requires
        0 <= k < chunks.len(),
        chunk_model(chunks[k]).dom().contains(p),
    ensures
        chunks_model(chunks).dom().contains(p),
    decreases chunks.len(),
{
    if k == 0 {
    } else {
        lemma_chunk_in_model(chunks.drop_first(), k - 1, p);
    }
}

/// Chunks still needed after a step: those ending at or after
/// `first_needed`. Dropping the others loses no position the kept chunks
/// hold.
fn retain_chunks(chunks: Vec<(usize, Vec<u8>)>, first_needed: usize) -> (r: Vec<
    (usize, Vec<u8>),
>)
    ensures
        r@ == retained_chunks(chunks@, first_needed),
        forall|p: int|
            chunks_model(r@).dom().contains(p) ==> chunks_model(chunks@).dom().contains(p),
{
    let ghost orig = chunks@;
    let mut source = chunks;
    let mut out: Vec<(usize, Vec<u8>)> = Vec::new();
    while source.len() > 0
        invariant
            source@.len() <= orig.len(),
            source@ == orig.skip(orig.len() - source@.len()),
            out@ == retained_chunks(orig.take(orig.len() - source@.len()), first_needed),
            forall|k: int|
                0 <= k < out@.len() ==> exists|k2: int|
                    0 <= k2 < orig.len() && #[trigger] out@[k] == orig[k2],
        decreases source@.len(),
    {
        let ghost i = orig.len() - source@.len();
        proof {
            assert(source@[0] == orig[i]);
            assert(orig.take(i + 1).drop_last() =~= orig.take(i));
            assert(orig.take(i + 1).last() == orig[i]);
            assert(orig.skip(i).remove(0) =~= orig.skip(i + 1));
        }
        let start = source[0].0;
        let len = source[0].1.len();
        let keep = start >= first_needed || len >= first_needed - start;
        let c = source.remove(0);
        if keep {
            let ghost o0 = out@;
            out.push(c);
            proof {
                assert(out@ =~= o0.push(orig[i]));
            }
        }
    }
    proof {
        assert(orig.take(orig.len() as int) =~= orig);
    }
    proof {
        assert forall|p: int|
            chunks_model(out@).dom().contains(p) implies chunks_model(orig).dom().contains(
            p,
        ) by {
            lemma_model_dom(out@, p);
            let k = choose|k: int|
                0 <= k < out@.len() && chunk_model(#[trigger] out@[k]).dom().contains(p);
            let k2 = choose|k2: int| 0 <= k2 < orig.len() && out@[k] == orig[k2];
            lemma_chunk_in_model(orig, k2, p);
        }
    }
    out
}

/// A position in a chunk list's model is covered by one of its chunks.
proof fn lemma_model_dom(chunks: Seq<(usize, Vec<u8>)>, p: int)
    requires
        chunks_model(chunks).dom().contains(p),
    ensures
        exists|k: int| 0 <= k < chunks.len() && chunk_model(#[trigger] chunks[k]).dom().contains(p),
    decreases chunks.len(),
{
    if chunks.len() > 0 {
        if chunk_model(chunks[0]).dom().contains(p) {
        } else {
            lemma_model_dom(chunks.drop_first(), p);
            let k = choose|k: int|
                0 <= k < chunks.drop_first().len() && chunk_model(
                    #[trigger] chunks.drop_first()[k],
                ).dom().contains(p);
            assert(chunks[k + 1] == chunks.drop_first()[k]);
        }
    }
}

/// Chaining two yield extensions: the prefix relation and the
/// fragments-only discipline compose.
proof fn lemma_yields_chain(a: Seq<YieldItem>, b: Seq<YieldItem>, c: Seq<YieldItem>)
    requires
        a.is_prefix_of(b),
        forall|i: int| a.len() <= i < b.len() ==> (#[trigger] b[i]) is Streamed,
        b.is_prefix_of(c),
        forall|i: int| b.len() <= i < c.len() ==> (#[trigger] c[i]) is Streamed,
    ensures
        a.is_prefix_of(c),
        forall|i: int| a.len() <= i < c.len() ==> (#[trigger] c[i]) is Streamed,
{
    assert(a =~= c.subrange(0, a.len() as int));
    assert forall|i: int| a.len() <= i < c.len() implies (#[trigger] c[i]) is Streamed by {
        if i < b.len() {
            assert(b[i] == c[i]);
        }
    }
}

/// Drive a spec-mode run until the document completes, the budget is
/// reached, the input is starved, or the grammar is violated.
fn run_stream(
    parser: &mut Parser,
    tracker: &mut PathTracker,
    string: &mut BuildString,
    stack: &mut Vec<Value>,
    yields: &mut Vec<YieldItem>,
    first_needed: &mut usize,
    input: &StreamingInputProvider,
    limit: usize,
) -> (r: RunStatus)
    requires
        old(parser).wf(),
        old(parser).pos <= limit,
        stack_matches(old(parser).shape(), old(stack)@),
        old(tracker).wf(),
        old(tracker).walker.depth + old(tracker).walker.height_off_current
            == old(parser).frames@.len(),
        *old(first_needed) <= old(parser).pos,
    ensures
        final(parser).wf(),
        final(tracker).wf(),
        old(parser).pos <= final(parser).pos <= limit,
        *old(first_needed) <= *final(first_needed) <= final(parser).pos,
        old(yields)@.is_prefix_of(final(yields)@),
        forall|i: int|
            old(yields)@.len() <= i < final(yields)@.len()
                ==> (#[trigger] final(yields)@[i]) is Streamed,
        !(r is Failed) ==> final(tracker).walker.depth + final(tracker).walker.height_off_current
            == final(parser).frames@.len(),
        !(r is Failed) ==> stack_matches(final(parser).shape(), final(stack)@),
        r is Finished ==> final(parser).shape() == seq![ShapeTok::TVal] && final(stack)@.len()
            == 1,
        r matches RunStatus::Failed(p, why) ==> p == final(parser).pos && why
            != Unexpected::UnexpectedEnd,
        r == RunStatus::Bail(BailType::Reschedule) ==> final(parser).pos >= limit,
        r == RunStatus::Bail(BailType::AwaitInput) ==> final(parser).wants_input_spec()
            && !input.model().dom().contains(final(parser).pos as int),
        (old(parser).wants_input_spec() && !input.model().dom().contains(old(parser).pos as int)
            && old(parser).pos < limit) ==> (r == RunStatus::Bail(BailType::AwaitInput)
            && *final(parser) == *old(parser) && final(stack)@ == old(stack)@
            && *final(string) == *old(string) && *final(tracker) == *old(tracker)
            && final(yields)@ == old(yields)@ && *final(first_needed) == *old(first_needed)),
{
    loop
        invariant
            parser.wf(),
            old(parser).pos <= parser.pos <= limit,
            stack_matches(parser.shape(), stack@),
            tracker.wf(),
            tracker.walker.depth + tracker.walker.height_off_current == parser.frames@.len(),
            *old(first_needed) <= *first_needed <= parser.pos,
            old(yields)@.is_prefix_of(yields@),
            forall|i: int|
                old(yields)@.len() <= i < yields@.len() ==> (#[trigger] yields@[i]) is Streamed,
            (old(parser).wants_input_spec() && !input.model().dom().contains(
                old(parser).pos as int,
            ) && old(parser).pos < limit) ==> (*parser == *old(parser) && stack@ == old(stack)@
                && *string == *old(string) && *tracker == *old(tracker) && yields@ == old(yields)@
                && *first_needed == *old(first_needed)),
        decreases limit - parser.pos, nc_rank(*parser),
    {
        let feed: Feed;
        if parser.wants_input() {
            if parser.pos >= limit {
                return RunStatus::Bail(BailType::Reschedule);
            }
            match input.byte(parser.pos) {
                StreamingInputResult::Got(b) => {
                    feed = Feed::Byte(b);
                },
                StreamingInputResult::AwaitInput => {
                    return RunStatus::Bail(BailType::AwaitInput);
                },
                StreamingInputResult::Eof => {
                    feed = Feed::End;
                },
            }
        } else {
            feed = Feed::NoInput;
        }
        let ghost pre = *parser;
        let res = parser.step(feed);
        // Binding the frame count pins it into machine range for the
        // walker's depth bookkeeping.
        let _n_frames = parser.frames.len();
        match res {
            StepResult::Consumed => {},
            StepResult::ConsumedEvent(e) | StepResult::Event(e) => {
                let ghost y_head = yields@;
                let ok = apply_event_stream(
                    e,
                    input,
                    stack,
                    string,
                    tracker,
                    yields,
                    first_needed,
                    Ghost(pre.shape()),
                    Ghost(parser.shape()),
                    Ghost(pre.frames@),
                    Ghost(parser.frames@),
                    Ghost(parser.pos),
                );
                proof {
                    lemma_yields_chain(old(yields)@, y_head, yields@);
                }
                if !ok {
                    return RunStatus::Failed(parser.pos, Unexpected::MissingBytes);
                }
            },
            StepResult::Done => {
                return RunStatus::Finished;
            },
            StepResult::Failed(p, why) => {
                return RunStatus::Failed(p, why);
            },
        }
    }
}

/// One spec-mode step: parse from the delivered chunks under the given
/// byte budget, deliver the yields, filter the chunks down to those still
/// needed, and package the continuation.
///
/// Re-entering a continuation that is starved for input, with chunks that
/// still do not hold the needed byte, is a no-op: it reports `AwaitInput`
/// again, with no yields, the same `first_needed`, and the state
/// untouched.
pub fn stream_parse_iter_with_budget(
    chunks: Vec<(usize, Vec<u8>)>,
    stack: Vec<Value>,
    state: StreamState,
    budget: usize,
) -> (r: StreamStep)
    requires
        state.inv(),
        state.compatible(stack@),
    ensures
        !(r.status is Finished) ==> r.state.inv() && r.state.compatible(r.stack@),
        r.status is AwaitInput ==> r.state.awaiting(r.remaining_chunks@),
        r.remaining_chunks@ == retained_chunks(chunks@, r.state.first_needed_spec()),
        state.position_spec() <= r.state.position_spec(),
        state.position_spec() + budget <= usize::MAX ==> r.state.position_spec()
            <= state.position_spec() + budget,
        state.first_needed_spec() <= r.state.first_needed_spec(),
        r.state.first_needed_spec() <= r.state.position_spec(),
        r.status is Finished ==> r.yields@.len() >= 1 && (r.yields@.last() is Finished
            || r.yields@.last() is Failed) && (forall|i: int|
            0 <= i < r.yields@.len() - 1 ==> (#[trigger] r.yields@[i]) is Streamed),
        (r.status is Finished && r.yields@.len() >= 1 && r.yields@.last() is Finished)
            ==> r.stack@.len() == 1,
        !(r.status is Finished) ==> (forall|i: int|
            0 <= i < r.yields@.len() ==> (#[trigger] r.yields@[i]) is Streamed),
        (state.awaiting(chunks@) && budget >= 1 && state.position_spec() < usize::MAX) ==> (
        r.status is AwaitInput && r.state == state && r.stack@ == stack@ && r.yields@ == Seq::<
            YieldItem,
        >::empty()),
{
    let StreamState { mut parser, mut tracker, mut first_needed, mut string } = state;
    let limit = if budget > usize::MAX - parser.pos {
        usize::MAX
    } else {
        parser.pos + budget
    };
    let input = StreamingInputProvider::new(chunks);
    let mut stack = stack;
    let mut yields: Vec<YieldItem> = Vec::new();
    let status = match run_stream(
        &mut parser,
        &mut tracker,
        &mut string,
        &mut stack,
        &mut yields,
        &mut first_needed,
        &input,
        limit,
    ) {
        RunStatus::Finished => {
            yields.push(YieldItem::Finished);
            StreamStatus::Finished
        },
        RunStatus::Bail(BailType::Reschedule) => StreamStatus::Iter,
        RunStatus::Bail(BailType::AwaitInput) => StreamStatus::AwaitInput,
        RunStatus::Failed(p, why) => {
            yields.push(YieldItem::Failed(p, why));
            StreamStatus::Finished
        },
    };
    let remaining_chunks = retain_chunks(input.chunks, first_needed);
    StreamStep {
        status,
        yields,
        stack,
        remaining_chunks,
        state: StreamState { parser, tracker, first_needed, string },
    }
}

/// One spec-mode step with the default budget.
pub fn stream_parse_iter(
    chunks: Vec<(usize, Vec<u8>)>,
    stack: Vec<Value>,
    state: StreamState,
) -> (r: StreamStep)
    requires
        state.inv(),
        state.compatible(stack@),
    ensures
        !(r.status is Finished) ==> r.state.inv() && r.state.compatible(r.stack@),
        r.status is AwaitInput ==> r.state.awaiting(r.remaining_chunks@),
        r.remaining_chunks@ == retained_chunks(chunks@, r.state.first_needed_spec()),
        state.position_spec() <= r.state.position_spec(),
        state.position_spec() + crate::basic::DEFAULT_BUDGET <= usize::MAX
            ==> r.state.position_spec() <= state.position_spec() + crate::basic::DEFAULT_BUDGET,
        state.first_needed_spec() <= r.state.first_needed_spec(),
        r.state.first_needed_spec() <= r.state.position_spec(),
        r.status is Finished ==> r.yields@.len() >= 1 && (r.yields@.last() is Finished
            || r.yields@.last() is Failed) && (forall|i: int|
            0 <= i < r.yields@.len() - 1 ==> (#[trigger] r.yields@[i]) is Streamed),
        (r.status is Finished && r.yields@.len() >= 1 && r.yields@.last() is Finished)
            ==> r.stack@.len() == 1,
        !(r.status is Finished) ==> (forall|i: int|
            0 <= i < r.yields@.len() ==> (#[trigger] r.yields@[i]) is Streamed),
        (state.awaiting(chunks@) && state.position_spec() < usize::MAX) ==> (r.status
            is AwaitInput && r.state == state && r.stack@ == stack@ && r.yields@ == Seq::<
            YieldItem,
        >::empty()),
{
    stream_parse_iter_with_budget(chunks, stack, state, crate::basic::DEFAULT_BUDGET)
}

} // verus!
