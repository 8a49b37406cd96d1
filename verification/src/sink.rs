//! Output-stack primitives shared by the sinks: pushing fresh containers,
//! folding completed values into their parent container, and finishing an
//! array (which was built by prepending and is reversed on finalize).

use vstd::prelude::*;

use vstd::pervasive::unreached;

use crate::parser::ShapeTok;
use crate::value::{map_put, map_put_spec, Value};

verus! {

/// Whether a value satisfies one shape token: an open map must be an
/// `Object`, an open list a `List`; a completed value may be anything.
pub open spec fn tok_matches(t: ShapeTok, v: Value) -> bool {
    match t {
        ShapeTok::TMap => v is Object,
        ShapeTok::TList => v is List,
        ShapeTok::TVal => true,
    }
}

/// Whether the output stack has the shape the parser expects.
pub open spec fn stack_matches(toks: Seq<ShapeTok>, stack: Seq<Value>) -> bool {
    toks.len() == stack.len() && forall|i: int|
        0 <= i < toks.len() ==> tok_matches(#[trigger] toks[i], stack[i])
}

/// Pushing a matching value keeps the stack matching.
pub proof fn lemma_stack_push(toks: Seq<ShapeTok>, stack: Seq<Value>, t: ShapeTok, v: Value)
    requires
        stack_matches(toks, stack),
        tok_matches(t, v),
    ensures
        stack_matches(toks.push(t), stack.push(v)),
{
    assert forall|i: int| 0 <= i < toks.push(t).len() implies tok_matches(
        #[trigger] toks.push(t)[i],
        stack.push(v)[i],
    ) by {
        if i < toks.len() {
            assert(toks.push(t)[i] == toks[i]);
            assert(stack.push(v)[i] == stack[i]);
        }
    }
}

/// Replacing the top `k` entries of a matching stack by one value that
/// matches `t` yields a stack matching `toks.take(len - k).push(t)`.
pub proof fn lemma_stack_fold(
    toks: Seq<ShapeTok>,
    stack: Seq<Value>,
    new_stack: Seq<Value>,
    k: int,
    t: ShapeTok,
)
    requires
        stack_matches(toks, stack),
        1 <= k <= toks.len(),
        new_stack.len() == stack.len() - k + 1,
        new_stack.take(new_stack.len() - 1) == stack.take(stack.len() - k),
        tok_matches(t, new_stack.last()),
    ensures
        stack_matches(toks.take(toks.len() - k).push(t), new_stack),
{
    let post = toks.take(toks.len() - k).push(t);
    assert forall|i: int| 0 <= i < post.len() implies tok_matches(
        #[trigger] post[i],
        new_stack[i],
    ) by {
        if i < toks.len() - k {
            assert(post[i] == toks[i]);
            assert(new_stack[i] == new_stack.take(new_stack.len() - 1)[i]);
            assert(stack.take(stack.len() - k)[i] == stack[i]);
        } else {
            assert(post[i] == t);
            assert(new_stack[i] == new_stack.last());
        }
    }
}

/// UTF-8 bytes of a codepoint.
pub open spec fn utf8_bytes(cp: int) -> Seq<u8> {
    if cp < 0x80 {
        seq![cp as u8]
    } else if cp < 0x800 {
        seq![(0xC0 + cp / 64) as u8, (0x80 + cp % 64) as u8]
    } else if cp < 0x10000 {
        seq![(0xE0 + cp / 4096) as u8, (0x80 + (cp / 64) % 64) as u8, (0x80 + cp % 64) as u8]
    } else {
        seq![
            (0xF0 + cp / 262144) as u8,
            (0x80 + (cp / 4096) % 64) as u8,
            (0x80 + (cp / 64) % 64) as u8,
            (0x80 + cp % 64) as u8,
        ]
    }
}

/// Encode a codepoint as UTF-8.
pub fn utf8_encode(cp: u32) -> (r: Vec<u8>)
    requires
        cp < 0x110000,
    ensures
        r@ == utf8_bytes(cp as int),
{
    let mut out: Vec<u8> = Vec::new();
    if cp < 0x80 {
        out.push(cp as u8);
    } else if cp < 0x800 {
        out.push((0xC0 + cp / 64) as u8);
        out.push((0x80 + cp % 64) as u8);
    } else if cp < 0x10000 {
        out.push((0xE0 + cp / 4096) as u8);
        out.push((0x80 + (cp / 64) % 64) as u8);
        out.push((0x80 + cp % 64) as u8);
    } else {
        out.push((0xF0 + cp / 262144) as u8);
        out.push((0x80 + (cp / 4096) % 64) as u8);
        out.push((0x80 + (cp / 64) % 64) as u8);
        out.push((0x80 + cp % 64) as u8);
    }
    proof {
        assert(out@ =~= utf8_bytes(cp as int));
    }
    out
}

/// Fold the completed value on top of the stack into the map beneath its
/// key: the stack ends `[…, map, key, value]` and becomes `[…, map']`.
pub fn fold_into_map(stack: &mut Vec<Value>)
    requires
        old(stack)@.len() >= 3,
        old(stack)@[old(stack)@.len() - 3] is Object,
    ensures
        final(stack)@.len() == old(stack)@.len() - 2,
        final(stack)@.take(final(stack)@.len() - 1) == old(stack)@.take(old(stack)@.len() - 3),
        final(stack)@.last() matches Value::Object(p) && p@ == map_put_spec(
            old(stack)@[old(stack)@.len() - 3]->Object_0@,
            old(stack)@[old(stack)@.len() - 2],
            old(stack)@[old(stack)@.len() - 1],
        ),
{
    let v = match stack.pop() {
        Some(v) => v,
        None => unreached(),
    };
    let k = match stack.pop() {
        Some(k) => k,
        None => unreached(),
    };
    let m = match stack.pop() {
        Some(m) => m,
        None => unreached(),
    };
    let mut pairs = match m {
        Value::Object(pairs) => pairs,
        _ => unreached(),
    };
    map_put(&mut pairs, k, v);
    stack.push(Value::Object(pairs));
    proof {
        assert(stack@.take(stack@.len() - 1) =~= old(stack)@.take(old(stack)@.len() - 3));
    }
}

/// Fold the completed value on top of the stack into the list beneath it,
/// prepending it: the stack ends `[…, list, value]` and becomes
/// `[…, list']`.
pub fn fold_into_array(stack: &mut Vec<Value>)
    requires
        old(stack)@.len() >= 2,
        old(stack)@[old(stack)@.len() - 2] is List,
    ensures
        final(stack)@.len() == old(stack)@.len() - 1,
        final(stack)@.take(final(stack)@.len() - 1) == old(stack)@.take(old(stack)@.len() - 2),
        final(stack)@.last() matches Value::List(l) && l@ == seq![
            old(stack)@[old(stack)@.len() - 1],
        ] + old(stack)@[old(stack)@.len() - 2]->List_0@,
{
    let v = match stack.pop() {
        Some(v) => v,
        None => unreached(),
    };
    let l = match stack.pop() {
        Some(l) => l,
        None => unreached(),
    };
    let mut items = match l {
        Value::List(items) => items,
        _ => unreached(),
    };
    items.insert(0, v);
    stack.push(Value::List(items));
    proof {
        assert(stack@.take(stack@.len() - 1) =~= old(stack)@.take(old(stack)@.len() - 2));
        assert(stack@.last()->List_0@ =~= seq![old(stack)@[old(stack)@.len() - 1]] + old(
            stack,
        )@[old(stack)@.len() - 2]->List_0@);
    }
}

/// Reverse the list on top of the stack: it was accumulated by prepending,
/// so reversing restores document order.
pub fn reverse_top_list(stack: &mut Vec<Value>)
    requires
        old(stack)@.len() >= 1,
        old(stack)@.last() is List,
    ensures
        final(stack)@.len() == old(stack)@.len(),
        final(stack)@.take(final(stack)@.len() - 1) == old(stack)@.take(old(stack)@.len() - 1),
        final(stack)@.last() matches Value::List(l) && l@ == old(stack)@.last()->List_0@.reverse(),
{
    let l = match stack.pop() {
        Some(l) => l,
        None => unreached(),
    };
    let mut items = match l {
        Value::List(items) => items,
        _ => unreached(),
    };
    let ghost orig = items@;
    let mut out: Vec<Value> = Vec::new();
    while items.len() > 0
        invariant
            out@.len() + items@.len() == orig.len(),
            items@ == orig.take(items@.len() as int),
            forall|i: int| 0 <= i < out@.len() ==> out@[i] == orig[orig.len() - 1 - i],
        decreases items@.len(),
    {
        match items.pop() {
            Some(x) => {
                out.push(x);
            },
            None => unreached(),
        }
    }
    proof {
        assert(out@ =~= orig.reverse());
    }
    stack.push(Value::List(out));
    proof {
        assert(stack@.take(stack@.len() - 1) =~= old(stack)@.take(old(stack)@.len() - 1));
    }
}

} // verus!
