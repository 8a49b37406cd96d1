//! Input providers: the byte source behind the parser.
//!
//! A provider abstracts the input as a partial map from absolute byte
//! offsets to bytes. The single-buffer variant is complete (a missing byte
//! is end-of-input); the chunked variant is not (a missing byte may still
//! arrive). Ranges handed to `push_range` and `materialize` may extend into
//! territory the provider does not hold; the uncovered positions are
//! silently clipped, as the caller only asks for fully delivered ranges.

use vstd::prelude::*;

use crate::value::Value;

verus! {

/// A half-open range `[start, end)` of absolute byte offsets.
#[derive(Debug, Clone, Copy, PartialEq, Eq, Structural)]
pub struct Range {
    pub start: usize,
    pub end: usize,
}

/// The outcome of asking for one byte: present, not delivered yet, or past
/// the end of a complete input.
#[derive(Debug, Clone, Copy, PartialEq, Eq, Structural)]
pub enum StreamingInputResult {
    Got(u8),
    AwaitInput,
    Eof,
}

/// The bytes a provider holds within `[lo, hi)`, in ascending position
/// order, skipping positions it does not hold.
pub open spec fn range_bytes(m: Map<int, u8>, lo: int, hi: int) -> Seq<u8>
    decreases hi - lo,
{
    if lo >= hi {
        Seq::empty()
    } else {
        range_bytes(m, lo, hi - 1) + (if m.dom().contains(hi - 1) {
            seq![m[hi - 1]]
        } else {
            Seq::<u8>::empty()
        })
    }
}

/// A byte source serving the parser and the value builders.
pub trait InputProvider: Sized {
    /// The bytes held, as a partial map from absolute offset to byte.
    spec fn model(&self) -> Map<int, u8>;

    /// Whether the input is complete: no byte outside `model` will ever
    /// arrive.
    spec fn complete(&self) -> bool;

    /// The byte at `pos`, `AwaitInput` if not delivered yet, `Eof` if the
    /// input is complete and ends before `pos`.
    fn byte(&self, pos: usize) -> (r: StreamingInputResult)
        ensures
            match r {
                StreamingInputResult::Got(b) => self.model().dom().contains(pos as int)
                    && self.model()[pos as int] == b,
                StreamingInputResult::AwaitInput => !self.model().dom().contains(pos as int)
                    && !self.complete(),
                StreamingInputResult::Eof => !self.model().dom().contains(pos as int)
                    && self.complete(),
            },
    ;

    /// Append the held bytes of `range` to `buf`, clipping uncovered
    /// positions.
    fn push_range(&self, range: Range, buf: &mut Vec<u8>)
        ensures
            final(buf)@ == old(buf)@ + range_bytes(self.model(), range.start as int, range.end as int),
    ;

    /// A host binary holding the bytes of `range`.
    fn materialize(&self, range: Range) -> (v: Value)
        ensures
            v matches Value::Binary(b) && b@ == range_bytes(
                self.model(),
                range.start as int,
                range.end as int,
            ),
    ;
}

/// Provides data from a single buffer holding the whole input.
pub struct SingleBinaryProvider {
    pub data: Vec<u8>,
}

impl SingleBinaryProvider {
    pub fn new(data: Vec<u8>) -> (r: Self)
        ensures
            r.data == data,
    {
        SingleBinaryProvider { data }
    }
}

/// The positions `0..data.len()` mapped to the buffer's bytes.
pub open spec fn buffer_model(data: Seq<u8>) -> Map<int, u8> {
    Map::new(|p: int| 0 <= p < data.len(), |p: int| data[p])
}

impl InputProvider for SingleBinaryProvider {
    open spec fn model(&self) -> Map<int, u8> {
        buffer_model(self.data@)
    }

    open spec fn complete(&self) -> bool {
        true
    }

    fn byte(&self, pos: usize) -> (r: StreamingInputResult) {
        if pos < self.data.len() {
            StreamingInputResult::Got(self.data[pos])
        } else {
            StreamingInputResult::Eof
        }
    }

    fn push_range(&self, range: Range, buf: &mut Vec<u8>) {
        buffer_push_range(&self.data, range, buf)
    }

    fn materialize(&self, range: Range) -> (v: Value) {
        let mut buf: Vec<u8> = Vec::new();
        buffer_push_range(&self.data, range, &mut buf);
        Value::Binary(buf)
    }
}

/// Provides data from a list of delivered chunks, each an absolute start
/// offset and its bytes. Where chunks overlap, the earliest in the list
/// wins.
pub struct StreamingInputProvider {
    pub chunks: Vec<(usize, Vec<u8>)>,
}

/// The union of the chunks' positions, earlier chunks taking precedence.
pub open spec fn chunks_model(chunks: Seq<(usize, Vec<u8>)>) -> Map<int, u8>
    decreases chunks.len(),
{
    if chunks.len() == 0 {
        Map::empty()
    } else {
        chunks_model(chunks.drop_first()).union_prefer_right(chunk_model(chunks[0]))
    }
}

/// The positions one chunk covers, mapped to its bytes.
pub open spec fn chunk_model(chunk: (usize, Vec<u8>)) -> Map<int, u8> {
    Map::new(
        |p: int| chunk.0 <= p < chunk.0 + chunk.1@.len(),
        |p: int| chunk.1@[p - chunk.0],
    )
}

impl StreamingInputProvider {
    pub fn new(chunks: Vec<(usize, Vec<u8>)>) -> (r: Self)
        ensures
            r.chunks == chunks,
    {
        StreamingInputProvider { chunks }
    }
}

fn chunks_byte_from(chunks: &Vec<(usize, Vec<u8>)>, i: usize, pos: usize) -> (r: Option<u8>)
    requires
        i <= chunks@.len(),
    ensures
        match r {
            Some(b) => chunks_model(chunks@.skip(i as int)).dom().contains(pos as int)
                && chunks_model(chunks@.skip(i as int))[pos as int] == b,
            None => !chunks_model(chunks@.skip(i as int)).dom().contains(pos as int),
        },
    decreases chunks@.len() - i,
{
    if i == chunks.len() {
        assert(chunks@.skip(i as int) =~= Seq::<(usize, Vec<u8>)>::empty());
        None
    } else {
        let start = chunks[i].0;
        let len = chunks[i].1.len();
        assert(chunks@.skip(i as int).drop_first() =~= chunks@.skip(i as int + 1));
        if start <= pos && pos - start < len {
            Some(chunks[i].1[pos - start])
        } else {
            chunks_byte_from(chunks, i + 1, pos)
        }
    }
}

impl InputProvider for StreamingInputProvider {
    open spec fn model(&self) -> Map<int, u8> {
        chunks_model(self.chunks@)
    }

    open spec fn complete(&self) -> bool {
        false
    }

    fn byte(&self, pos: usize) -> (r: StreamingInputResult) {
        proof {
            assert(self.chunks@.skip(0) =~= self.chunks@);
        }
        match chunks_byte_from(&self.chunks, 0, pos) {
            Some(b) => StreamingInputResult::Got(b),
            None => StreamingInputResult::AwaitInput,
        }
    }

    fn push_range(&self, range: Range, buf: &mut Vec<u8>) {
        chunks_push_range(&self.chunks, range, buf)
    }

    fn materialize(&self, range: Range) -> (v: Value) {
        let mut buf: Vec<u8> = Vec::new();
        chunks_push_range(&self.chunks, range, &mut buf);
        Value::Binary(buf)
    }
}

/// Append the buffer's bytes within `range`, clipping positions past the
/// end of the buffer.
fn buffer_push_range(data: &Vec<u8>, range: Range, buf: &mut Vec<u8>)
    ensures
        final(buf)@ == old(buf)@ + range_bytes(
            buffer_model(data@),
            range.start as int,
            range.end as int,
        ),
{
    let ghost base = buf@;
    let ghost m = buffer_model(data@);
    if range.end <= range.start {
        assert(buf@ =~= base + range_bytes(m, range.start as int, range.end as int));
        return;
    }
    let mut p = range.start;
    while p < range.end
        invariant
            range.start <= p <= range.end,
            m == buffer_model(data@),
            buf@ == base + range_bytes(m, range.start as int, p as int),
        decreases range.end - p,
    {
        if p < data.len() {
            buf.push(data[p]);
        }
        p += 1;
    }
}

/// Append the chunks' bytes within `range`, clipping positions no chunk
/// holds.
fn chunks_push_range(chunks: &Vec<(usize, Vec<u8>)>, range: Range, buf: &mut Vec<u8>)
    ensures
        final(buf)@ == old(buf)@ + range_bytes(
            chunks_model(chunks@),
            range.start as int,
            range.end as int,
        ),
{
    let ghost base = buf@;
    let ghost m = chunks_model(chunks@);
    proof {
        assert(chunks@.skip(0) =~= chunks@);
    }
    if range.end <= range.start {
        assert(buf@ =~= base + range_bytes(m, range.start as int, range.end as int));
        return;
    }
    let mut p = range.start;
    while p < range.end
        invariant
            range.start <= p <= range.end,
            m == chunks_model(chunks@.skip(0)),
            m == chunks_model(chunks@),
            buf@ == base + range_bytes(m, range.start as int, p as int),
        decreases range.end - p,
    {
        match chunks_byte_from(chunks, 0, p) {
            Some(b) => {
                buf.push(b);
            },
            None => {},
        }
        p += 1;
    }
}

} // verus!
