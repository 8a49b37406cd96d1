//! Reading a user-supplied spec term into the arena.
//!
//! A spec node is either an arity-2 tuple `(any, options)` or an arity-3
//! tuple `(type, options, payload)` with `type` one of `map`, `map_keys`,
//! `array`; `options` is a proper list of `(key, value)` pairs with the
//! recognized keys `stream`, `struct_atom`, `atom_mappings`,
//! `ignore_not_mapped` (unrecognized keys are ignored); `payload` is the
//! child node for `map` and `array`, or a key-to-node mapping for
//! `map_keys`.

use vstd::prelude::*;

use crate::tree_spec::{node_children_wf, Node, NodeId, NodeOptions, NodeVariant, Spec};
use crate::value::{bytes_eq, copy_bytes};

verus! {

/// A host term handed in by the embedding runtime, reduced to the shapes
/// the spec grammar can mention.
#[derive(Debug, PartialEq, Eq)]
pub enum Term {
    Atom(Vec<u8>),
    Int(i64),
    Binary(Vec<u8>),
    Tuple(Vec<Term>),
    List(Vec<Term>),
    MapPairs(Vec<(Term, Term)>),
}

/// The atom `any`.
pub open spec fn kw_any_name() -> Seq<u8> {
    seq![97u8, 110u8, 121u8]
}

/// The atom `map`.
pub open spec fn kw_map_name() -> Seq<u8> {
    seq![109u8, 97u8, 112u8]
}

/// The atom `map_keys`.
pub open spec fn kw_map_keys_name() -> Seq<u8> {
    seq![109u8, 97u8, 112u8, 95u8, 107u8, 101u8, 121u8, 115u8]
}

/// The atom `array`.
pub open spec fn kw_array_name() -> Seq<u8> {
    seq![97u8, 114u8, 114u8, 97u8, 121u8]
}

/// The atom `stream`.
pub open spec fn kw_stream_name() -> Seq<u8> {
    seq![115u8, 116u8, 114u8, 101u8, 97u8, 109u8]
}

/// The atom `struct_atom`.
pub open spec fn kw_struct_atom_name() -> Seq<u8> {
    seq![115u8, 116u8, 114u8, 117u8, 99u8, 116u8, 95u8, 97u8, 116u8, 111u8, 109u8]
}

/// The atom `atom_mappings`.
pub open spec fn kw_atom_mappings_name() -> Seq<u8> {
    seq![97u8, 116u8, 111u8, 109u8, 95u8, 109u8, 97u8, 112u8, 112u8, 105u8, 110u8, 103u8, 115u8]
}

/// The atom `ignore_not_mapped`.
pub open spec fn kw_ignore_name() -> Seq<u8> {
    seq![
        105u8,
        103u8,
        110u8,
        111u8,
        114u8,
        101u8,
        95u8,
        110u8,
        111u8,
        116u8,
        95u8,
        109u8,
        97u8,
        112u8,
        112u8,
        101u8,
        100u8,
    ]
}

/// The atom `true`.
pub open spec fn kw_true_name() -> Seq<u8> {
    seq![116u8, 114u8, 117u8, 101u8]
}

/// The atom `false`.
pub open spec fn kw_false_name() -> Seq<u8> {
    seq![102u8, 97u8, 108u8, 115u8, 101u8]
}

/// The boolean an atom term denotes, if it is `true` or `false`.
pub open spec fn term_bool_spec(t: Term) -> Option<bool> {
    match t {
        Term::Atom(name) => if name@ == kw_true_name() {
            Some(true)
        } else if name@ == kw_false_name() {
            Some(false)
        } else {
            None
        },
        _ => None,
    }
}

/// One entry of an options list is acceptable: an arity-2 tuple whose
/// value fits its recognized key (entries under other keys are ignored).
pub open spec fn opt_entry_wf(t: Term) -> bool {
    match t {
        Term::Tuple(kv) => kv@.len() == 2 && (match kv@[0] {
            Term::Atom(name) => {
                if name@ == kw_stream_name() || name@ == kw_ignore_name() {
                    term_bool_spec(kv@[1]) is Some
                } else if name@ == kw_struct_atom_name() {
                    kv@[1] is Atom
                } else if name@ == kw_atom_mappings_name() {
                    kv@[1] matches Term::MapPairs(pairs) && forall|j: int|
                        0 <= j < pairs@.len() ==> ((#[trigger] pairs@[j]).0 is Binary
                            && pairs@[j].1 is Atom)
                } else {
                    true
                }
            },
            _ => true,
        }),
        _ => false,
    }
}

/// An options term is acceptable: a list of acceptable entries.
pub open spec fn opts_term_wf(t: Term) -> bool {
    match t {
        Term::List(items) => forall|j: int|
            0 <= j < items@.len() ==> opt_entry_wf(#[trigger] items@[j]),
        _ => false,
    }
}

/// The abstract content of an options record, before the inherited
/// `stream_collect` flag is folded in.
#[verifier::ext_equal]
pub ghost struct OptsModel {
    pub stream: bool,
    pub struct_atom: Option<Seq<u8>>,
    pub atom_mappings: Option<Seq<(Seq<u8>, Seq<u8>)>>,
    pub ignore_not_mapped: bool,
}

/// All options off.
pub open spec fn default_opts_model() -> OptsModel {
    OptsModel { stream: false, struct_atom: None, atom_mappings: None, ignore_not_mapped: false }
}

/// The abstract value of an atom-mapping pair list.
pub open spec fn mapping_model(pairs: Seq<(Term, Term)>) -> Seq<(Seq<u8>, Seq<u8>)> {
    pairs.map_values(|p: (Term, Term)| (p.0->Binary_0@, p.1->Atom_0@))
}

/// What one options entry does to the accumulated record: recognized keys
/// set their field, unrecognized entries change nothing, ill-typed values
/// refuse the whole list.
pub open spec fn apply_opt_entry(m: OptsModel, e: Term) -> Option<OptsModel> {
    match e {
        Term::Tuple(kv) => if kv@.len() != 2 {
            None
        } else {
            match kv@[0] {
                Term::Atom(name) => {
                    if name@ == kw_stream_name() {
                        match term_bool_spec(kv@[1]) {
                            Some(b) => Some(OptsModel { stream: b, ..m }),
                            None => None,
                        }
                    } else if name@ == kw_struct_atom_name() {
                        match kv@[1] {
                            Term::Atom(a) => Some(OptsModel { struct_atom: Some(a@), ..m }),
                            _ => None,
                        }
                    } else if name@ == kw_atom_mappings_name() {
                        match kv@[1] {
                            Term::MapPairs(pairs) => if forall|j: int|
                                0 <= j < pairs@.len() ==> ((#[trigger] pairs@[j]).0 is Binary
                                    && pairs@[j].1 is Atom) {
                                Some(OptsModel { atom_mappings: Some(mapping_model(pairs@)), ..m })
                            } else {
                                None
                            },
                            _ => None,
                        }
                    } else if name@ == kw_ignore_name() {
                        match term_bool_spec(kv@[1]) {
                            Some(b) => Some(OptsModel { ignore_not_mapped: b, ..m }),
                            None => None,
                        }
                    } else {
                        Some(m)
                    }
                },
                _ => Some(m),
            }
        },
        _ => None,
    }
}

/// The record an options list folds to, entry by entry.
pub open spec fn fold_opts(items: Seq<Term>, m: OptsModel) -> Option<OptsModel>
    decreases items.len(),
{
    if items.len() == 0 {
        Some(m)
    } else {
        match apply_opt_entry(m, items[0]) {
            Some(m2) => fold_opts(items.drop_first(), m2),
            None => None,
        }
    }
}

/// The record an options term denotes.
pub open spec fn opts_model(t: Term) -> Option<OptsModel> {
    match t {
        Term::List(items) => fold_opts(items@, default_opts_model()),
        _ => None,
    }
}

/// The abstract content of a concrete options record.
pub open spec fn opts_view(o: NodeOptions) -> OptsModel {
    OptsModel {
        stream: o.stream,
        struct_atom: match o.struct_atom {
            Some(a) => Some(a@),
            None => None,
        },
        atom_mappings: match o.atom_mappings {
            Some(v) => Some(v@.map_values(|p: (Vec<u8>, Vec<u8>)| (p.0@, p.1@))),
            None => None,
        },
        ignore_not_mapped: o.ignore_not_mapped,
    }
}

/// A spec node term follows the grammar.
pub open spec fn spec_node_wf(t: Term) -> bool
    decreases t,
{
    match t {
        Term::Tuple(parts) => {
            if parts@.len() == 2 {
                (parts@[0] matches Term::Atom(n) && n@ == kw_any_name()) && opts_term_wf(
                    parts@[1],
                )
            } else if parts@.len() == 3 {
                opts_term_wf(parts@[1]) && match parts@[0] {
                    Term::Atom(n) => {
                        if n@ == kw_map_name() || n@ == kw_array_name() {
                            spec_node_wf(parts@[2])
                        } else if n@ == kw_map_keys_name() {
                            parts@[2] matches Term::MapPairs(pairs) && forall|j: int|
                                0 <= j < pairs@.len() ==> ((#[trigger] pairs@[j]).0 is Binary
                                    && spec_node_wf(pairs@[j].1))
                        } else {
                            false
                        }
                    },
                    _ => false,
                }
            } else {
                false
            }
        },
        _ => false,
    }
}

/// The node's options carry exactly what the options term says, with the
/// inherited `stream_collect` folded in.
pub open spec fn opts_fit(o: NodeOptions, t: Term, sc: bool) -> bool {
    opts_model(t) == Some(opts_view(o)) && o.stream_collect == (o.stream || sc)
}

/// The arena node at `id` is exactly what the spec node term describes,
/// with `sc` the `stream_collect` flag inherited from the ancestors. Child
/// edges point above their parent's index.
pub open spec fn node_corresponds(nodes: Seq<Node>, id: int, t: Term, sc: bool) -> bool
    decreases t,
{
    &&& 0 <= id < nodes.len()
    &&& match t {
        Term::Tuple(parts) => {
            if parts@.len() == 2 {
                nodes[id].variant is Any && opts_fit(nodes[id].options, parts@[1], sc)
            } else if parts@.len() == 3 {
                opts_fit(nodes[id].options, parts@[1], sc) && match parts@[0] {
                    Term::Atom(n) => {
                        if n@ == kw_map_name() {
                            nodes[id].variant matches NodeVariant::MapValues { child } && id
                                < child.0 && node_corresponds(
                                nodes,
                                child.0 as int,
                                parts@[2],
                                nodes[id].options.stream_collect,
                            )
                        } else if n@ == kw_array_name() {
                            nodes[id].variant matches NodeVariant::Array { child } && id < child.0
                                && node_corresponds(
                                nodes,
                                child.0 as int,
                                parts@[2],
                                nodes[id].options.stream_collect,
                            )
                        } else if n@ == kw_map_keys_name() {
                            &&& parts@[2] matches Term::MapPairs(pairs)
                            &&& nodes[id].variant matches NodeVariant::MapKeys { children }
                            &&& children@.len() == pairs@.len()
                            &&& forall|j: int|
                                0 <= j < pairs@.len() ==> ((#[trigger] children@[j]).0@
                                    == pairs@[j].0->Binary_0@ && id < children@[j].1.0
                                    && node_corresponds(
                                    nodes,
                                    children@[j].1.0 as int,
                                    pairs@[j].1,
                                    nodes[id].options.stream_collect,
                                ))
                        } else {
                            false
                        }
                    },
                    _ => false,
                }
            } else {
                false
            }
        },
        _ => false,
    }
}

/// Correspondence survives appending nodes behind the arena's end.
proof fn lemma_corresponds_extend(
    nodes1: Seq<Node>,
    nodes2: Seq<Node>,
    id: int,
    t: Term,
    sc: bool,
)
    requires
        node_corresponds(nodes1, id, t, sc),
        nodes2.len() >= nodes1.len(),
        nodes2.take(nodes1.len() as int) == nodes1,
    ensures
        node_corresponds(nodes2, id, t, sc),
    decreases t,
{
    assert(nodes2[id] == nodes2.take(nodes1.len() as int)[id]);
    match t {
        Term::Tuple(parts) => {
            if parts@.len() == 3 {
                match parts@[0] {
                    Term::Atom(n) => {
                        if n@ == kw_map_name() || n@ == kw_array_name() {
                            let child = match nodes1[id].variant {
                                NodeVariant::MapValues { child } => child,
                                NodeVariant::Array { child } => child,
                                _ => arbitrary(),
                            };
                            lemma_corresponds_extend(
                                nodes1,
                                nodes2,
                                child.0 as int,
                                parts@[2],
                                nodes1[id].options.stream_collect,
                            );
                        } else if n@ == kw_map_keys_name() {
                            let pairs = parts@[2]->MapPairs_0;
                            let children = nodes1[id].variant->MapKeys_children;
                            assert forall|j: int| 0 <= j < pairs@.len() implies ((
                            #[trigger] children@[j]).0@ == pairs@[j].0->Binary_0@ && id
                                < children@[j].1.0 && node_corresponds(
                                nodes2,
                                children@[j].1.0 as int,
                                pairs@[j].1,
                                nodes2[id].options.stream_collect,
                            )) by {
                                lemma_corresponds_extend(
                                    nodes1,
                                    nodes2,
                                    children@[j].1.0 as int,
                                    pairs@[j].1,
                                    nodes1[id].options.stream_collect,
                                );
                            }
                        }
                    },
                    _ => {},
                }
            }
        },
        _ => {},
    }
}

/// Correspondence survives replacing a node below the subtree it speaks
/// of: every index the derivation reads lies above `c`.
proof fn lemma_corresponds_update_below(
    nodes: Seq<Node>,
    c: int,
    x: Node,
    id: int,
    t: Term,
    sc: bool,
)
    requires
        node_corresponds(nodes, id, t, sc),
        0 <= c < id,
    ensures
        node_corresponds(nodes.update(c, x), id, t, sc),
    decreases t,
{
    let nodes2 = nodes.update(c, x);
    match t {
        Term::Tuple(parts) => {
            if parts@.len() == 3 {
                match parts@[0] {
                    Term::Atom(n) => {
                        if n@ == kw_map_name() || n@ == kw_array_name() {
                            let child = match nodes[id].variant {
                                NodeVariant::MapValues { child } => child,
                                NodeVariant::Array { child } => child,
                                _ => arbitrary(),
                            };
                            lemma_corresponds_update_below(
                                nodes,
                                c,
                                x,
                                child.0 as int,
                                parts@[2],
                                nodes[id].options.stream_collect,
                            );
                        } else if n@ == kw_map_keys_name() {
                            let pairs = parts@[2]->MapPairs_0;
                            let children = nodes[id].variant->MapKeys_children;
                            assert forall|j: int| 0 <= j < pairs@.len() implies ((
                            #[trigger] children@[j]).0@ == pairs@[j].0->Binary_0@ && id
                                < children@[j].1.0 && node_corresponds(
                                nodes2,
                                children@[j].1.0 as int,
                                pairs@[j].1,
                                nodes2[id].options.stream_collect,
                            )) by {
                                lemma_corresponds_update_below(
                                    nodes,
                                    c,
                                    x,
                                    children@[j].1.0 as int,
                                    pairs@[j].1,
                                    nodes[id].options.stream_collect,
                                );
                            }
                        }
                    },
                    _ => {},
                }
            }
        },
        _ => {},
    }
}

/// Every node from `lo` on has a parent below its own index and
/// well-formed child edges.
pub open spec fn arena_region_ok(nodes: Seq<Node>, lo: int) -> bool {
    forall|i: int|
        lo <= i < nodes.len() ==> (((#[trigger] nodes[i].parent) matches Some(p) && p.0 < i)
            && node_children_wf(nodes, i))
}

fn kw_stream() -> (r: Vec<u8>)
    ensures
        r@ == kw_stream_name(),
{
    let mut v: Vec<u8> = Vec::new();
    v.push(115);
    v.push(116);
    v.push(114);
    v.push(101);
    v.push(97);
    v.push(109);
    proof {
        assert(v@ =~= kw_stream_name());
    }
    v
}

fn kw_struct_atom() -> (r: Vec<u8>)
    ensures
        r@ == kw_struct_atom_name(),
{
    let mut v: Vec<u8> = Vec::new();
    v.push(115);
    v.push(116);
    v.push(114);
    v.push(117);
    v.push(99);
    v.push(116);
    v.push(95);
    v.push(97);
    v.push(116);
    v.push(111);
    v.push(109);
    proof {
        assert(v@ =~= kw_struct_atom_name());
    }
    v
}

fn kw_atom_mappings() -> (r: Vec<u8>)
    ensures
        r@ == kw_atom_mappings_name(),
{
    let mut v: Vec<u8> = Vec::new();
    v.push(97);
    v.push(116);
    v.push(111);
    v.push(109);
    v.push(95);
    v.push(109);
    v.push(97);
    v.push(112);
    v.push(112);
    v.push(105);
    v.push(110);
    v.push(103);
    v.push(115);
    proof {
        assert(v@ =~= kw_atom_mappings_name());
    }
    v
}

fn kw_ignore() -> (r: Vec<u8>)
    ensures
        r@ == kw_ignore_name(),
{
    let mut v: Vec<u8> = Vec::new();
    v.push(105);
    v.push(103);
    v.push(110);
    v.push(111);
    v.push(114);
    v.push(101);
    v.push(95);
    v.push(110);
    v.push(111);
    v.push(116);
    v.push(95);
    v.push(109);
    v.push(97);
    v.push(112);
    v.push(112);
    v.push(101);
    v.push(100);
    proof {
        assert(v@ =~= kw_ignore_name());
    }
    v
}

fn kw_any() -> (r: Vec<u8>)
    ensures
        r@ == kw_any_name(),
{
    let mut v: Vec<u8> = Vec::new();
    v.push(97);
    v.push(110);
    v.push(121);
    proof {
        assert(v@ =~= kw_any_name());
    }
    v
}

fn kw_map() -> (r: Vec<u8>)
    ensures
        r@ == kw_map_name(),
{
    let mut v: Vec<u8> = Vec::new();
    v.push(109);
    v.push(97);
    v.push(112);
    proof {
        assert(v@ =~= kw_map_name());
    }
    v
}

fn kw_map_keys() -> (r: Vec<u8>)
    ensures
        r@ == kw_map_keys_name(),
{
    let mut v: Vec<u8> = Vec::new();
    v.push(109);
    v.push(97);
    v.push(112);
    v.push(95);
    v.push(107);
    v.push(101);
    v.push(121);
    v.push(115);
    proof {
        assert(v@ =~= kw_map_keys_name());
    }
    v
}

fn kw_array() -> (r: Vec<u8>)
    ensures
        r@ == kw_array_name(),
{
    let mut v: Vec<u8> = Vec::new();
    v.push(97);
    v.push(114);
    v.push(114);
    v.push(97);
    v.push(121);
    proof {
        assert(v@ =~= kw_array_name());
    }
    v
}

fn kw_true() -> (r: Vec<u8>)
    ensures
        r@ == kw_true_name(),
{
    let mut v: Vec<u8> = Vec::new();
    v.push(116);
    v.push(114);
    v.push(117);
    v.push(101);
    proof {
        assert(v@ =~= kw_true_name());
    }
    v
}

fn kw_false() -> (r: Vec<u8>)
    ensures
        r@ == kw_false_name(),
{
    let mut v: Vec<u8> = Vec::new();
    v.push(102);
    v.push(97);
    v.push(108);
    v.push(115);
    v.push(101);
    proof {
        assert(v@ =~= kw_false_name());
    }
    v
}

/// Decode a boolean atom.
fn term_bool(t: &Term) -> (r: Option<bool>)
    ensures
        r == term_bool_spec(*t),
{
    match t {
        Term::Atom(name) => {
            if bytes_eq(name, &kw_true()) {
                Some(true)
            } else if bytes_eq(name, &kw_false()) {
                Some(false)
            } else {
                None
            }
        },
        _ => None,
    }
}

/// Read an options list, inheriting `stream_collect` from the ancestors.
fn read_opts(t: &Term, stream_collect: bool) -> (r: Option<NodeOptions>)
    ensures
        (r is Some) == opts_term_wf(*t),
        r matches Some(o) ==> opts_model(*t) == Some(opts_view(o)) && o.stream_collect == (
        o.stream || stream_collect),
{
    let items = match t {
        Term::List(items) => items,
        _ => {
            return None;
        },
    };
    let mut opts = NodeOptions::default();
    proof {
        assert(opts_view(opts) =~= default_opts_model());
        assert(items@.skip(0) =~= items@);
    }
    let n = items.len();
    let mut i: usize = 0;
    while i < n
        invariant
            n == items@.len(),
            0 <= i <= n,
            opts_term_wf(*t) == (forall|j: int|
                0 <= j < items@.len() ==> opt_entry_wf(#[trigger] items@[j])),
            forall|j: int| 0 <= j < i ==> opt_entry_wf(#[trigger] items@[j]),
            opts_model(*t) == fold_opts(items@.skip(i as int), opts_view(opts)),
            opts.stream_collect == false,
        decreases n - i,
    {
        let ghost m_pre = opts_view(opts);
        proof {
            assert(items@.skip(i as int)[0] == items@[i as int]);
            assert(items@.skip(i as int).drop_first() =~= items@.skip(i as int + 1));
        }
        let kv = match &items[i] {
            Term::Tuple(kv) => kv,
            _ => {
                assert(!opt_entry_wf(items@[i as int]));
                return None;
            },
        };
        if kv.len() != 2 {
            assert(!opt_entry_wf(items@[i as int]));
            return None;
        }
        match &kv[0] {
            Term::Atom(name) => {
                if bytes_eq(name, &kw_stream()) {
                    match term_bool(&kv[1]) {
                        Some(b) => {
                            opts.stream = b;
                            proof {
                                assert(opts_view(opts) =~= (OptsModel { stream: b, ..m_pre }));
                            }
                        },
                        None => {
                            assert(!opt_entry_wf(items@[i as int]));
                            return None;
                        },
                    }
                } else if bytes_eq(name, &kw_struct_atom()) {
                    match &kv[1] {
                        Term::Atom(a) => {
                            opts.struct_atom = Some(copy_bytes(a));
                            proof {
                                assert(opts_view(opts) =~= (OptsModel {
                                    struct_atom: Some(a@),
                                    ..m_pre
                                }));
                            }
                        },
                        _ => {
                            assert(!opt_entry_wf(items@[i as int]));
                            return None;
                        },
                    }
                } else if bytes_eq(name, &kw_atom_mappings()) {
                    match &kv[1] {
                        Term::MapPairs(pairs) => {
                            let mut mapping: Vec<(Vec<u8>, Vec<u8>)> = Vec::new();
                            let m = pairs.len();
                            proof {
                                assert(opt_entry_wf(items@[i as int]) == (forall|q: int|
                                    0 <= q < pairs@.len() ==> ((#[trigger] pairs@[q]).0 is Binary
                                        && pairs@[q].1 is Atom)));
                            }
                            let mut j: usize = 0;
                            while j < m
                                invariant
                                    m == pairs@.len(),
                                    0 <= j <= m,
                                    0 <= i < items@.len(),
                                    opts_term_wf(*t) == (forall|q: int|
                                        0 <= q < items@.len() ==> opt_entry_wf(
                                            #[trigger] items@[q],
                                        )),
                                    opt_entry_wf(items@[i as int]) == (forall|q: int|
                                        0 <= q < pairs@.len() ==> ((
                                        #[trigger] pairs@[q]).0 is Binary && pairs@[q].1 is Atom)),
                                    forall|q: int|
                                        0 <= q < j ==> ((#[trigger] pairs@[q]).0 is Binary
                                            && pairs@[q].1 is Atom),
                                    mapping@.len() == j,
                                    forall|q: int|
                                        0 <= q < j ==> ((#[trigger] mapping@[q]).0@
                                            == pairs@[q].0->Binary_0@ && mapping@[q].1@
                                            == pairs@[q].1->Atom_0@),
                                decreases m - j,
                            {
                                let kb = match &pairs[j].0 {
                                    Term::Binary(b) => copy_bytes(b),
                                    _ => {
                                        assert(!opt_entry_wf(items@[i as int]));
                                        return None;
                                    },
                                };
                                let vb = match &pairs[j].1 {
                                    Term::Atom(a) => copy_bytes(a),
                                    _ => {
                                        assert(!opt_entry_wf(items@[i as int]));
                                        return None;
                                    },
                                };
                                mapping.push((kb, vb));
                                j += 1;
                            }
                            proof {
                                assert(mapping@.map_values(
                                    |p: (Vec<u8>, Vec<u8>)| (p.0@, p.1@),
                                ) =~= mapping_model(pairs@));
                            }
                            opts.atom_mappings = Some(mapping);
                            proof {
                                assert(opts_view(opts) =~= (OptsModel {
                                    atom_mappings: Some(mapping_model(pairs@)),
                                    ..m_pre
                                }));
                            }
                        },
                        _ => {
                            assert(!opt_entry_wf(items@[i as int]));
                            return None;
                        },
                    }
                } else if bytes_eq(name, &kw_ignore()) {
                    match term_bool(&kv[1]) {
                        Some(b) => {
                            opts.ignore_not_mapped = b;
                            proof {
                                assert(opts_view(opts) =~= (OptsModel {
                                    ignore_not_mapped: b,
                                    ..m_pre
                                }));
                            }
                        },
                        None => {
                            assert(!opt_entry_wf(items@[i as int]));
                            return None;
                        },
                    }
                }
            },
            _ => {},
        }
        proof {
            assert(opt_entry_wf(items@[i as int]));
            assert(apply_opt_entry(m_pre, items@[i as int]) == Some(opts_view(opts)));
        }
        i += 1;
    }
    proof {
        assert(items@.skip(n as int) =~= Seq::<Term>::empty());
    }
    opts.stream_collect = opts.stream || stream_collect;
    Some(opts)
}

/// `node_children_wf` survives appending nodes behind the region it speaks
/// of.
proof fn lemma_children_wf_extend(nodes1: Seq<Node>, nodes2: Seq<Node>, i: int)
    requires
        0 <= i < nodes1.len(),
        node_children_wf(nodes1, i),
        nodes2.len() >= nodes1.len(),
        nodes2.take(nodes1.len() as int) == nodes1,
    ensures
        node_children_wf(nodes2, i),
{
    assert forall|j: int| 0 <= j < nodes1.len() implies nodes2[j] == nodes1[j] by {
        assert(nodes2.take(nodes1.len() as int)[j] == nodes2[j]);
    }
}

/// `node_children_wf` survives replacing a node below the one it speaks
/// of.
proof fn lemma_children_wf_update(nodes: Seq<Node>, c: int, x: Node, i: int)
    requires
        0 <= c < i < nodes.len(),
        node_children_wf(nodes, i),
    ensures
        node_children_wf(nodes.update(c, x), i),
{
}

/// Read one spec node term into the arena, returning its id. `None` means
/// the term does not follow the grammar; the arena is then abandoned.
pub fn read_node(node: &Term, nodes: &mut Vec<Node>, parent: NodeId, stream_collect: bool) -> (r:
    Option<NodeId>)
    requires
        old(nodes)@.len() >= 1,
        parent.0 < old(nodes)@.len(),
    ensures
        final(nodes)@.len() >= old(nodes)@.len(),
        final(nodes)@.take(old(nodes)@.len() as int) == old(nodes)@,
        (r is Some) == spec_node_wf(*node),
        r matches Some(id) ==> id.0 == old(nodes)@.len() && final(nodes)@.len() > old(
            nodes,
        )@.len() && final(nodes)@[id.0 as int].parent == Some(parent) && arena_region_ok(
            final(nodes)@,
            old(nodes)@.len() as int,
        ) && node_corresponds(final(nodes)@, id.0 as int, *node, stream_collect),
    decreases *node,
{
    let ghost base = nodes@;
    let parts = match node {
        Term::Tuple(parts) => parts,
        _ => {
            return None;
        },
    };
    if parts.len() == 2 {
        let head_ok = match &parts[0] {
            Term::Atom(n) => bytes_eq(n, &kw_any()),
            _ => false,
        };
        if !head_ok {
            return None;
        }
        let opts = match read_opts(&parts[1], stream_collect) {
            Some(o) => o,
            None => {
                return None;
            },
        };
        let id = nodes.len();
        nodes.push(Node { variant: NodeVariant::Any, options: opts, parent: Some(parent) });
        proof {
            assert(nodes@.take(base.len() as int) =~= base);
            assert(node_children_wf(nodes@, base.len() as int));
            assert(node_corresponds(nodes@, id as int, *node, stream_collect));
        }
        Some(NodeId(id))
    } else if parts.len() == 3 {
        let kind: u8 = match &parts[0] {
            Term::Atom(n) => {
                if bytes_eq(n, &kw_map()) {
                    1
                } else if bytes_eq(n, &kw_map_keys()) {
                    2
                } else if bytes_eq(n, &kw_array()) {
                    3
                } else {
                    0
                }
            },
            _ => 0,
        };
        if kind == 0 {
            return None;
        }
        let opts = match read_opts(&parts[1], stream_collect) {
            Some(o) => o,
            None => {
                return None;
            },
        };
        let child_sc = opts.stream_collect;
        let current = nodes.len();
        nodes.push(
            Node { variant: NodeVariant::Any, options: NodeOptions::default(), parent: Some(parent) },
        );
        proof {
            assert(nodes@.take(base.len() as int) =~= base);
        }
        if kind == 1 || kind == 3 {
            let ghost mid = nodes@;
            let child = match read_node(&parts[2], nodes, NodeId(current), child_sc) {
                Some(c) => c,
                None => {
                    proof {
                        assert(nodes@.take(base.len() as int) =~= nodes@.take(
                            mid.len() as int,
                        ).take(base.len() as int));
                    }
                    return None;
                },
            };
            let variant = if kind == 1 {
                NodeVariant::MapValues { child }
            } else {
                NodeVariant::Array { child }
            };
            let ghost before_set = nodes@;
            nodes.set(current, Node { variant, options: opts, parent: Some(parent) });
            proof {
                assert(nodes@.take(base.len() as int) =~= base);
                assert(node_children_wf(nodes@, current as int));
                assert forall|i: int| base.len() + 1 <= i < nodes@.len() implies ((
                (#[trigger] nodes@[i].parent) matches Some(p) && p.0 < i) && node_children_wf(
                    nodes@,
                    i,
                )) by {
                    assert(before_set[i].parent matches Some(p) && p.0 < i);
                    lemma_children_wf_update(before_set, current as int, nodes@[current as int], i);
                    assert(nodes@ =~= before_set.update(current as int, nodes@[current as int]));
                }
                assert(nodes@ =~= before_set.update(current as int, nodes@[current as int]));
                lemma_corresponds_update_below(
                    before_set,
                    current as int,
                    nodes@[current as int],
                    child.0 as int,
                    parts@[2],
                    child_sc,
                );
                assert(node_corresponds(nodes@, current as int, *node, stream_collect));
            }
            Some(NodeId(current))
        } else {
            let pairs = match &parts[2] {
                Term::MapPairs(pairs) => pairs,
                _ => {
                    return None;
                },
            };
            let mut children: Vec<(Vec<u8>, NodeId)> = Vec::new();
            let m = pairs.len();
            let mut j: usize = 0;
            while j < m
                invariant
                    base == old(nodes)@,
                    *node == Term::Tuple(*parts),
                    parts@.len() == 3,
                    parts@[0] is Atom && parts@[0]->Atom_0@ == kw_map_keys_name(),
                    parts@[2] == Term::MapPairs(*pairs),
                    opts_model(parts@[1]) == Some(opts_view(opts)),
                    opts.stream_collect == (opts.stream || stream_collect),
                    child_sc == opts.stream_collect,
                    m == pairs@.len(),
                    0 <= j <= m,
                    current == base.len(),
                    base.len() >= 1,
                    parent.0 < base.len(),
                    nodes@.len() > base.len(),
                    nodes@.take(base.len() as int) == base,
                    nodes@[current as int].parent == Some(parent),
                    spec_node_wf(*node) == (forall|q: int|
                        0 <= q < pairs@.len() ==> ((#[trigger] pairs@[q]).0 is Binary
                            && spec_node_wf(pairs@[q].1))),
                    forall|q: int|
                        0 <= q < j ==> ((#[trigger] pairs@[q]).0 is Binary && spec_node_wf(
                            pairs@[q].1,
                        )),
                    forall|q: int|
                        base.len() + 1 <= q < nodes@.len() ==> ((
                        (#[trigger] nodes@[q].parent) matches Some(p) && p.0 < q)
                            && node_children_wf(nodes@, q)),
                    children@.len() == j,
                    forall|q: int|
                        0 <= q < children@.len() ==> (current < (#[trigger] children@[q]).1.0
                            < nodes@.len() && nodes@[children@[q].1.0 as int].parent == Some(
                            NodeId(current),
                        )),
                    forall|q: int|
                        0 <= q < children@.len() ==> ((#[trigger] children@[q]).0@
                            == pairs@[q].0->Binary_0@ && node_corresponds(
                            nodes@,
                            children@[q].1.0 as int,
                            pairs@[q].1,
                            child_sc,
                        )),
                decreases m - j,
            {
                let kb = match &pairs[j].0 {
                    Term::Binary(b) => copy_bytes(b),
                    _ => {
                        assert(!spec_node_wf(*node));
                        return None;
                    },
                };
                let ghost before_child = nodes@;
                let cid = match read_node(&pairs[j].1, nodes, NodeId(current), child_sc) {
                    Some(c) => c,
                    None => {
                        proof {
                            assert(!spec_node_wf(*node));
                            assert(nodes@.take(base.len() as int) =~= nodes@.take(
                                before_child.len() as int,
                            ).take(base.len() as int));
                        }
                        return None;
                    },
                };
                proof {
                    assert(nodes@.take(base.len() as int) =~= nodes@.take(
                        before_child.len() as int,
                    ).take(base.len() as int));
                    assert(nodes@[current as int] == nodes@.take(
                        before_child.len() as int,
                    )[current as int]);
                    assert forall|q: int|
                        base.len() + 1 <= q < before_child.len() implies ((
                    (#[trigger] nodes@[q].parent) matches Some(p) && p.0 < q) && node_children_wf(
                        nodes@,
                        q,
                    )) by {
                        assert(nodes@[q] == nodes@.take(before_child.len() as int)[q]);
                        assert(nodes@[q] == before_child[q]);
                        lemma_children_wf_extend(before_child, nodes@, q);
                    }
                    assert forall|q: int|
                        0 <= q < children@.len() implies (current < (#[trigger] children@[q]).1.0
                        < nodes@.len() && nodes@[children@[q].1.0 as int].parent == Some(
                        NodeId(current),
                    )) by {
                        assert(nodes@[children@[q].1.0 as int] == nodes@.take(
                            before_child.len() as int,
                        )[children@[q].1.0 as int]);
                    }
                    assert forall|q: int|
                        0 <= q < children@.len() implies ((#[trigger] children@[q]).0@
                        == pairs@[q].0->Binary_0@ && node_corresponds(
                        nodes@,
                        children@[q].1.0 as int,
                        pairs@[q].1,
                        child_sc,
                    )) by {
                        lemma_corresponds_extend(
                            before_child,
                            nodes@,
                            children@[q].1.0 as int,
                            pairs@[q].1,
                            child_sc,
                        );
                    }
                }
                children.push((kb, cid));
                j += 1;
            }
            let ghost before_set = nodes@;
            let ghost children_snapshot = children@;
            nodes.set(current, Node { variant: NodeVariant::MapKeys { children }, options: opts, parent: Some(parent) });
            proof {
                assert(nodes@.take(base.len() as int) =~= base);
                assert(node_children_wf(nodes@, current as int));
                assert forall|i: int| base.len() + 1 <= i < nodes@.len() implies ((
                (#[trigger] nodes@[i].parent) matches Some(p) && p.0 < i) && node_children_wf(
                    nodes@,
                    i,
                )) by {
                    assert(before_set[i].parent matches Some(p) && p.0 < i);
                    lemma_children_wf_update(before_set, current as int, nodes@[current as int], i);
                    assert(nodes@ =~= before_set.update(current as int, nodes@[current as int]));
                }
                assert(nodes@ =~= before_set.update(current as int, nodes@[current as int]));
                assert forall|q: int|
                    0 <= q < children_snapshot.len() implies ((
                #[trigger] children_snapshot[q]).0@ == pairs@[q].0->Binary_0@ && current
                    < children_snapshot[q].1.0 && node_corresponds(
                    nodes@,
                    children_snapshot[q].1.0 as int,
                    pairs@[q].1,
                    child_sc,
                )) by {
                    lemma_corresponds_update_below(
                        before_set,
                        current as int,
                        nodes@[current as int],
                        children_snapshot[q].1.0 as int,
                        pairs@[q].1,
                        child_sc,
                    );
                }
                assert(node_corresponds(nodes@, current as int, *node, stream_collect));
            }
            Some(NodeId(current))
        }
    } else {
        None
    }
}

/// Decode a user-supplied spec term into a spec arena. `None` when the
/// term does not follow the grammar.
pub fn spec_from_term(root: &Term) -> (r: Option<Spec>)
    ensures
        (r is Some) == spec_node_wf(*root),
        r matches Some(s) ==> s.wf() && node_corresponds(s.nodes_view(), 1, *root, false),
{
    let mut nodes: Vec<Node> = Vec::new();
    nodes.push(
        Node { variant: NodeVariant::Sentinel, options: NodeOptions::default(), parent: None },
    );
    let ghost base = nodes@;
    match read_node(root, &mut nodes, NodeId(0), false) {
        Some(id) => {
            proof {
                assert(nodes@[0] == nodes@.take(1)[0]);
                assert(node_children_wf(nodes@, 0));
            }
            let s = Spec::from_nodes(nodes);
            proof {
                assert(s.wf());
            }
            Some(s)
        },
        None => None,
    }
}

/// Typecheck a user-provided spec term without starting a parse.
pub fn validate_spec(root: &Term) -> (r: bool)
    ensures
        r == spec_node_wf(*root),
{
    let mut nodes: Vec<Node> = Vec::new();
    nodes.push(
        Node { variant: NodeVariant::Sentinel, options: NodeOptions::default(), parent: None },
    );
    match read_node(root, &mut nodes, NodeId(0), false) {
        Some(_) => true,
        None => false,
    }
}

} // verus!
