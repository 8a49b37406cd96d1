//! The string builder: a three-state accumulator that defers allocation
//! while the decoded string is still one contiguous slice of the input.

use vstd::prelude::*;

use crate::input::{range_bytes, InputProvider, Range};
use crate::value::Value;

verus! {

/// A string under construction.
#[derive(Debug, Clone)]
pub enum BuildString {
    /// No bytes received yet.
    Empty,
    /// Exactly one contiguous range of the input; no allocation yet.
    Borrowed(Range),
    /// A heap buffer, used once the decoded form diverges from the raw
    /// input or multiple disjoint pieces were appended.
    Owned(Vec<u8>),
}

/// The bytes the builder stands for, given the input the ranges refer to.
pub open spec fn build_string_bytes(s: BuildString, m: Map<int, u8>) -> Seq<u8> {
    match s {
        BuildString::Empty => Seq::empty(),
        BuildString::Borrowed(r) => range_bytes(m, r.start as int, r.end as int),
        BuildString::Owned(buf) => buf@,
    }
}

impl BuildString {
    /// A fresh, empty builder.
    pub fn new() -> (r: BuildString)
        ensures
            r == BuildString::Empty,
    {
        BuildString::Empty
    }

    /// A fresh builder that accumulates into a heap buffer from the start.
    pub fn new_owned() -> (r: BuildString)
        ensures
            r matches BuildString::Owned(b) && b@ == Seq::<u8>::empty(),
    {
        BuildString::Owned(Vec::new())
    }

    /// Append a raw range of the input. A first range is only borrowed; a
    /// second piece of any kind forces the owned state.
    pub fn append_range<P: InputProvider>(&mut self, range: Range, input: &P)
        ensures
            build_string_bytes(*final(self), input.model()) == build_string_bytes(
                *old(self),
                input.model(),
            ) + range_bytes(input.model(), range.start as int, range.end as int),
            *old(self) is Empty ==> *final(self) == BuildString::Borrowed(range),
            !(*old(self) is Empty) ==> *final(self) is Owned,
    {
        match self {
            BuildString::Empty => {
                *self = BuildString::Borrowed(range);
            },
            BuildString::Borrowed(prev) => {
                let prev_range = *prev;
                let mut buf: Vec<u8> = Vec::new();
                input.push_range(prev_range, &mut buf);
                input.push_range(range, &mut buf);
                *self = BuildString::Owned(buf);
            },
            BuildString::Owned(buf) => {
                input.push_range(range, buf);
            },
        }
    }

    /// Append one decoded byte (a simple escape): the decoded form now
    /// diverges from the raw input, so the builder owns its buffer.
    pub fn append_single<P: InputProvider>(&mut self, single: u8, input: &P)
        ensures
            build_string_bytes(*final(self), input.model()) == build_string_bytes(
                *old(self),
                input.model(),
            ) + seq![single],
            *final(self) is Owned,
    {
        match self {
            BuildString::Empty => {
                let mut buf: Vec<u8> = Vec::new();
                buf.push(single);
                *self = BuildString::Owned(buf);
            },
            BuildString::Borrowed(prev) => {
                let prev_range = *prev;
                let mut buf: Vec<u8> = Vec::new();
                input.push_range(prev_range, &mut buf);
                buf.push(single);
                *self = BuildString::Owned(buf);
            },
            BuildString::Owned(buf) => {
                buf.push(single);
            },
        }
    }

    /// Append several decoded bytes (the UTF-8 form of an escaped
    /// codepoint); the builder owns its buffer afterwards.
    pub fn append_bytes<P: InputProvider>(&mut self, bytes: &Vec<u8>, input: &P)
        ensures
            build_string_bytes(*final(self), input.model()) == build_string_bytes(
                *old(self),
                input.model(),
            ) + bytes@,
            *final(self) is Owned,
    {
        match self {
            BuildString::Empty => {
                let mut buf: Vec<u8> = Vec::new();
                append_vec(&mut buf, bytes);
                *self = BuildString::Owned(buf);
            },
            BuildString::Borrowed(prev) => {
                let prev_range = *prev;
                let mut buf: Vec<u8> = Vec::new();
                input.push_range(prev_range, &mut buf);
                append_vec(&mut buf, bytes);
                *self = BuildString::Owned(buf);
            },
            BuildString::Owned(buf) => {
                append_vec(buf, bytes);
            },
        }
    }

    /// Take the builder out, leaving an empty one behind.
    pub fn take(&mut self) -> (r: BuildString)
        ensures
            r == *old(self),
            *final(self) == BuildString::Empty,
    {
        let mut tmp = BuildString::Empty;
        core::mem::swap(&mut tmp, self);
        tmp
    }

    /// The accumulated bytes as an owned buffer, consuming the builder.
    pub fn take_bytes<P: InputProvider>(self, input: &P) -> (r: Vec<u8>)
        ensures
            r@ == build_string_bytes(self, input.model()),
    {
        match self {
            BuildString::Empty => Vec::new(),
            BuildString::Borrowed(range) => {
                let mut buf: Vec<u8> = Vec::new();
                input.push_range(range, &mut buf);
                buf
            },
            BuildString::Owned(buf) => buf,
        }
    }

    /// The accumulated bytes as a host binary, consuming the builder. The
    /// borrowed state goes through the provider's `materialize`, which may
    /// be zero-copy.
    pub fn finalize<P: InputProvider>(self, input: &P) -> (v: Value)
        ensures
            v matches Value::Binary(b) && b@ == build_string_bytes(self, input.model()),
    {
        match self {
            BuildString::Empty => Value::Binary(Vec::new()),
            BuildString::Borrowed(range) => input.materialize(range),
            BuildString::Owned(buf) => Value::Binary(buf),
        }
    }
}

fn append_vec(buf: &mut Vec<u8>, bytes: &Vec<u8>)
    ensures
        final(buf)@ == old(buf)@ + bytes@,
{
    let n = bytes.len();
    let mut i: usize = 0;
    while i < n
        invariant
            n == bytes@.len(),
            0 <= i <= n,
            buf@ == old(buf)@ + bytes@.take(i as int),
        decreases n - i,
    {
        buf.push(bytes[i]);
        proof {
            assert(bytes@.take(i + 1) =~= bytes@.take(i as int).push(bytes@[i as int]));
        }
        i += 1;
    }
    proof {
        assert(bytes@.take(n as int) =~= bytes@);
    }
}

} // verus!
