//! The host-value model: what the decoder hands back to the embedding
//! runtime. Atoms, binaries, lists and maps stand for the corresponding
//! host terms; `Streamed` is the placeholder left where a subtree was
//! delivered as yields instead of being collected.

use vstd::prelude::*;

verus! {

/// A host value produced by the decoder.
///
/// Integers that fit the host's native signed 64-bit range are `Int`;
/// larger magnitudes are `BigInt`, holding the little-endian magnitude
/// bytes used by the external-term bignum encoding. A float is carried
/// as its decimal text, to be converted by the host at the boundary.
#[derive(Debug, PartialEq, Eq)]
pub enum Value {
    Null,
    Bool(bool),
    Int(i64),
    BigInt { negative: bool, magnitude_le: Vec<u8> },
    Float(Vec<u8>),
    Binary(Vec<u8>),
    Atom(Vec<u8>),
    List(Vec<Value>),
    Object(Vec<(Value, Value)>),
    Streamed,
}

/// Key equality as used when folding an entry into a map: keys the decoder
/// produces are always `Binary` or `Atom`, so only scalar variants compare
/// equal; two containers never do.
pub open spec fn key_eq_spec(a: Value, b: Value) -> bool {
    match (a, b) {
        (Value::Null, Value::Null) => true,
        (Value::Bool(x), Value::Bool(y)) => x == y,
        (Value::Int(x), Value::Int(y)) => x == y,
        (
            Value::BigInt { negative: nx, magnitude_le: mx },
            Value::BigInt { negative: ny, magnitude_le: my },
        ) => nx == ny && mx@ == my@,
        (Value::Float(x), Value::Float(y)) => x@ == y@,
        (Value::Binary(x), Value::Binary(y)) => x@ == y@,
        (Value::Atom(x), Value::Atom(y)) => x@ == y@,
        (Value::Streamed, Value::Streamed) => true,
        _ => false,
    }
}

/// What `map_put` leaves behind: the first pair whose key equals `k` is
/// replaced by `(k, v)`, else the new pair is appended.
pub open spec fn map_put_spec(pairs: Seq<(Value, Value)>, k: Value, v: Value) -> Seq<(Value, Value)>
    decreases pairs.len(),
{
    if pairs.len() == 0 {
        seq![(k, v)]
    } else if key_eq_spec(pairs[0].0, k) {
        seq![(k, v)] + pairs.drop_first()
    } else {
        seq![pairs[0]] + map_put_spec(pairs.drop_first(), k, v)
    }
}

/// Byte-string equality, by content.
pub fn bytes_eq(a: &Vec<u8>, b: &Vec<u8>) -> (r: bool)
    ensures
        r == (a@ == b@),
{
    if a.len() != b.len() {
        assert(a@ != b@);
        return false;
    }
    let n = a.len();
    let mut i: usize = 0;
    while i < n
        invariant
            n == a@.len() == b@.len(),
            0 <= i <= n,
            forall|j: int| 0 <= j < i ==> a@[j] == b@[j],
        decreases n - i,
    {
        if a[i] != b[i] {
            return false;
        }
        i += 1;
    }
    proof {
        assert(a@ =~= b@);
    }
    true
}

/// A fresh buffer holding the same bytes.
pub fn copy_bytes(src: &Vec<u8>) -> (r: Vec<u8>)
    ensures
        r@ == src@,
{
    let mut out: Vec<u8> = Vec::new();
    let n = src.len();
    let mut i: usize = 0;
    while i < n
        invariant
            n == src@.len(),
            0 <= i <= n,
            out@ == src@.take(i as int),
        decreases n - i,
    {
        out.push(src[i]);
        proof {
            assert(src@.take(i + 1) =~= src@.take(i as int).push(src@[i as int]));
        }
        i += 1;
    }
    proof {
        assert(src@.take(n as int) =~= src@);
    }
    out
}

/// Key equality, executable form of `key_eq_spec`.
pub fn key_eq(a: &Value, b: &Value) -> (r: bool)
    ensures
        r == key_eq_spec(*a, *b),
{
    match (a, b) {
        (Value::Null, Value::Null) => true,
        (Value::Bool(x), Value::Bool(y)) => x == y,
        (Value::Int(x), Value::Int(y)) => x == y,
        (
            Value::BigInt { negative: nx, magnitude_le: mx },
            Value::BigInt { negative: ny, magnitude_le: my },
        ) => nx == ny && bytes_eq(mx, my),
        (Value::Float(x), Value::Float(y)) => bytes_eq(x, y),
        (Value::Binary(x), Value::Binary(y)) => bytes_eq(x, y),
        (Value::Atom(x), Value::Atom(y)) => bytes_eq(x, y),
        (Value::Streamed, Value::Streamed) => true,
        _ => false,
    }
}

/// Put `(k, v)` into a map under construction, replacing the value of the
/// first pair whose key equals `k`, or appending the pair if none does.
pub fn map_put(pairs: &mut Vec<(Value, Value)>, k: Value, v: Value)
    ensures
        final(pairs)@ == map_put_spec(old(pairs)@, k, v),
{
    let n = pairs.len();
    let mut i: usize = 0;
    while i < n
        invariant
            n == pairs@.len(),
            0 <= i <= n,
            pairs@ == old(pairs)@,
            forall|j: int| 0 <= j < i ==> !key_eq_spec(pairs@[j].0, k),
        decreases n - i,
    {
        let hit = key_eq(&pairs[i].0, &k);
        if hit {
            let ghost pre = pairs@;
            pairs.set(i, (k, v));
            proof {
                lemma_map_put_hits(pre, k, v, i as int);
            }
            return;
        }
        i += 1;
    }
    let ghost pre = pairs@;
    pairs.push((k, v));
    proof {
        lemma_map_put_appends(pre, k, v);
    }
}

proof fn lemma_map_put_hits(pairs: Seq<(Value, Value)>, k: Value, v: Value, i: int)
    requires
        0 <= i < pairs.len(),
        key_eq_spec(pairs[i].0, k),
        forall|j: int| 0 <= j < i ==> !key_eq_spec(pairs[j].0, k),
    ensures
        map_put_spec(pairs, k, v) =~= pairs.update(i, (k, v)),
    decreases pairs.len(),
{
    if i == 0 {
        assert(map_put_spec(pairs, k, v) =~= pairs.update(0, (k, v)));
    } else {
        lemma_map_put_hits(pairs.drop_first(), k, v, i - 1);
        assert(map_put_spec(pairs, k, v) =~= seq![pairs[0]] + map_put_spec(
            pairs.drop_first(),
            k,
            v,
        ));
        assert(seq![pairs[0]] + pairs.drop_first().update(i - 1, (k, v)) =~= pairs.update(
            i,
            (k, v),
        ));
    }
}

proof fn lemma_map_put_appends(pairs: Seq<(Value, Value)>, k: Value, v: Value)
    requires
        forall|j: int| 0 <= j < pairs.len() ==> !key_eq_spec(pairs[j].0, k),
    ensures
        map_put_spec(pairs, k, v) =~= pairs.push((k, v)),
    decreases pairs.len(),
{
    if pairs.len() == 0 {
    } else {
        lemma_map_put_appends(pairs.drop_first(), k, v);
        assert(seq![pairs[0]] + pairs.drop_first().push((k, v)) =~= pairs.push((k, v)));
    }
}

impl Value {
    /// The empty map, as pushed when a `{` is entered.
    pub fn empty_map() -> (r: Value)
        ensures
            r matches Value::Object(m) && m@ == Seq::<(Value, Value)>::empty(),
    {
        Value::Object(Vec::new())
    }

    /// The empty list, as pushed when a `[` is entered.
    pub fn empty_list() -> (r: Value)
        ensures
            r matches Value::List(l) && l@ == Seq::<Value>::empty(),
    {
        Value::List(Vec::new())
    }
}

} // verus!
