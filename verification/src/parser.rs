//! The parser kernel: an iterative JSON recognizer.
//!
//! The parser owns an explicit stack (one entry per open container) plus a
//! current lexical state, so documents of arbitrary depth never grow the
//! host stack. It is driven byte by byte: `step` is fed the byte at the
//! current position (or end-of-input, or nothing when the parser has a
//! pending structural event) and reports what happened. Because every
//! consumed byte is folded into the parser's state before the next byte is
//! asked for, a run can be suspended at any byte boundary and resumed from
//! the identical position.
//!
//! The contract of `step` pins down the *shape discipline* of the emitted
//! events: how each event changes the expected output-stack shape
//! (`shape`) and the open-container stack (`frames`). Sinks rely on it to
//! prove that folding values into containers never underflows.

use vstd::prelude::*;

use crate::input::Range;

verus! {

/// Where a string stands, so the sink can tell keys from values without
/// rescanning state.
#[derive(Debug, Clone, Copy, PartialEq, Eq, Structural)]
pub enum StringPosition {
    Root,
    ArrayElement,
    MapKey,
    MapValue,
}

/// A parsed number fragment: ranges over the original input. `sign` and
/// `exponent_sign` are true when non-negative. If both `decimal` and
/// `exponent` are absent the number is an integer, else a float.
#[derive(Debug, Clone, Copy, PartialEq, Eq, Structural)]
pub struct NumberData {
    pub sign: bool,
    pub integer: Range,
    pub decimal: Option<Range>,
    pub exponent_sign: bool,
    pub exponent: Option<Range>,
}

/// The two ways a run can suspend: the time budget is exhausted, or the
/// provider has no byte at the current position yet.
#[derive(Debug, Clone, Copy, PartialEq, Eq, Structural)]
pub enum BailType {
    Reschedule,
    AwaitInput,
}

/// Why a byte (or the end of input) could not be accepted.
#[derive(Debug, Clone, Copy, PartialEq, Eq, Structural)]
pub enum Unexpected {
    ExpectedValue,
    ExpectedKey,
    ExpectedColon,
    ExpectedCommaOrClose,
    ExpectedDigit,
    InvalidEscape,
    InvalidUnicodeEscape,
    InvalidStringByte,
    UnexpectedEnd,
    MissingBytes,
}

impl Unexpected {
    /// A short human-readable reason.
    pub fn explain(&self) -> (r: &'static str) {
        match self {
            Unexpected::ExpectedValue => "expected a value",
            Unexpected::ExpectedKey => "expected an object key",
            Unexpected::ExpectedColon => "expected a colon",
            Unexpected::ExpectedCommaOrClose => "expected a comma or a closing bracket",
            Unexpected::ExpectedDigit => "expected a digit",
            Unexpected::InvalidEscape => "invalid escape sequence",
            Unexpected::InvalidUnicodeEscape => "invalid unicode escape",
            Unexpected::InvalidStringByte => "unescaped control character in string",
            Unexpected::UnexpectedEnd => "unexpected end of input",
            Unexpected::MissingBytes => "bytes of the input were no longer available",
        }
    }
}

/// A structural event, emitted by the parser toward the sink.
#[derive(Debug, Clone, Copy, PartialEq, Eq, Structural)]
pub enum Event {
    PushMap(usize),
    PushArray(usize),
    PushNumber(usize, NumberData),
    PushBool(usize, bool),
    PushNull(usize),
    StartString(StringPosition),
    AppendStringRange(Range),
    AppendStringSingle(u8),
    AppendStringCodepoint(u32),
    FinalizeString(StringPosition),
    FinalizeMap(usize),
    FinalizeArray(usize),
    PopIntoMap,
    PopIntoArray,
}

/// What the driver feeds one step: the byte at the current position, the
/// end of a complete input, or nothing when the parser has a pending event
/// and wants no byte.
#[derive(Debug, Clone, Copy, PartialEq, Eq, Structural)]
pub enum Feed {
    Byte(u8),
    End,
    NoInput,
}

/// What one step did.
#[derive(Debug, Clone, Copy, PartialEq, Eq, Structural)]
pub enum StepResult {
    /// The byte was consumed; no event.
    Consumed,
    /// The byte was consumed and an event is emitted.
    ConsumedEvent(Event),
    /// An event is emitted; the byte (if any) was not consumed and must be
    /// offered again.
    Event(Event),
    /// The document is complete.
    Done,
    /// Grammar violation at the given position.
    Failed(usize, Unexpected),
}

/// One open container.
#[derive(Debug, Clone, Copy, PartialEq, Eq, Structural)]
pub enum Frame {
    InMap,
    InArray,
}

/// The literal being matched.
#[derive(Debug, Clone, Copy, PartialEq, Eq, Structural)]
pub enum LitKind {
    LitTrue,
    LitFalse,
    LitNull,
}

/// Lexical sub-state while inside a string.
#[derive(Debug, Clone, Copy, PartialEq, Eq, Structural)]
pub enum StrSub {
    /// Accumulating a raw run `[run_start, pos)` of unescaped bytes.
    Raw { run_start: usize },
    /// Just consumed a backslash.
    Escape,
    /// Collecting the four hex digits of a `\u` escape.
    Hex { acc: u32, got: u8 },
    /// A high surrogate was read; expecting the `\` of the low half.
    SurrSlash { hi: u32 },
    /// Expecting the `u` of the low surrogate half.
    SurrU { hi: u32 },
    /// Collecting the four hex digits of the low surrogate half.
    SurrHex { hi: u32, acc: u32, got: u8 },
}

/// Lexical sub-state while inside a number.
#[derive(Debug, Clone, Copy, PartialEq, Eq, Structural)]
pub enum NumPhase {
    /// After a leading minus: the first integer digit is required.
    IntFirst,
    /// Inside the integer digits.
    IntMore,
    /// After the decimal point: the first fraction digit is required.
    FracFirst,
    /// Inside the fraction digits.
    FracMore,
    /// Right after `e`/`E`: an optional sign or the first digit.
    ExpSign,
    /// After an explicit exponent sign: the first digit is required.
    ExpFirst,
    /// Inside the exponent digits.
    ExpMore,
}

/// The number token being lexed. Ranges are filled in as phases complete.
#[derive(Debug, Clone, Copy, PartialEq, Eq, Structural)]
pub struct NumState {
    pub sign: bool,
    pub int_start: usize,
    pub int_end: usize,
    pub frac_start: usize,
    pub frac_end: usize,
    pub has_frac: bool,
    pub exp_sign: bool,
    pub exp_start: usize,
    pub exp_end: usize,
    pub has_exp: bool,
    pub phase: NumPhase,
}

/// The parser's current mode.
#[derive(Debug, Clone, Copy, PartialEq, Eq, Structural)]
pub enum Mode {
    /// Expecting a value; `allow_close` right after `[`, where `]` is also
    /// accepted.
    ExpectValue { allow_close: bool },
    /// Right after `{`: a key or `}`.
    ExpectKeyOrClose,
    /// After a comma in a map: a key.
    ExpectKey,
    /// After a key: a colon.
    ExpectColon,
    /// After a folded value inside a container.
    ExpectCommaOrClose,
    /// Inside a string.
    Str { spos: StringPosition, sub: StrSub },
    /// Inside a number.
    Num { num: NumState },
    /// Inside the literal `true`, `false` or `null`; `idx` bytes matched.
    Lit { kind: LitKind, idx: u8 },
    /// A value just completed; a fold event (or completion) is pending.
    AfterValue,
    /// The document is complete.
    Finished,
}

/// Every position in `[lo, hi)` was consumed and held an ASCII digit.
pub open spec fn digits_in(seen: Map<int, u8>, lo: int, hi: int) -> bool {
    forall|p: int| lo <= p < hi ==> #[trigger] seen.dom().contains(p) && 48 <= seen[p] <= 57
}

/// The ranges of an emitted number fragment are nonempty runs of consumed
/// digits.
pub open spec fn number_digits_ok(seen: Map<int, u8>, data: NumberData) -> bool {
    &&& data.integer.start < data.integer.end
    &&& digits_in(seen, data.integer.start as int, data.integer.end as int)
    &&& match data.decimal {
        Some(d) => d.start < d.end && digits_in(seen, d.start as int, d.end as int),
        None => true,
    }
    &&& match data.exponent {
        Some(x) => x.start < x.end && digits_in(seen, x.start as int, x.end as int),
        None => true,
    }
}

/// The integer digits of the number being lexed are complete.
pub open spec fn num_int_done(num: NumState, seen: Map<int, u8>) -> bool {
    num.int_start < num.int_end && digits_in(seen, num.int_start as int, num.int_end as int)
}

/// The fraction digits of the number being lexed, if any, are complete.
pub open spec fn num_frac_done(num: NumState, seen: Map<int, u8>) -> bool {
    num.has_frac ==> (num.frac_start < num.frac_end && digits_in(
        seen,
        num.frac_start as int,
        num.frac_end as int,
    ))
}

/// Consistency of the number lexer with the consumed bytes.
pub open spec fn num_wf(num: NumState, pos: usize, seen: Map<int, u8>) -> bool {
    match num.phase {
        NumPhase::IntFirst => !num.has_frac && !num.has_exp,
        NumPhase::IntMore => !num.has_frac && !num.has_exp && num.int_start < pos && digits_in(
            seen,
            num.int_start as int,
            pos as int,
        ),
        NumPhase::FracFirst => num_int_done(num, seen) && num.has_frac && !num.has_exp
            && num.int_end < num.frac_start && num.frac_start == pos,
        NumPhase::FracMore => num_int_done(num, seen) && num.has_frac && !num.has_exp
            && num.int_end < num.frac_start && num.frac_start < pos && digits_in(
            seen,
            num.frac_start as int,
            pos as int,
        ),
        NumPhase::ExpSign => num_int_done(num, seen) && num_frac_done(num, seen) && num.has_exp
            && num.int_end < pos && (num.has_frac ==> num.frac_end < pos),
        NumPhase::ExpFirst => num_int_done(num, seen) && num_frac_done(num, seen) && num.has_exp
            && num.int_end < pos && (num.has_frac ==> num.frac_end < pos) && num.exp_start == pos,
        NumPhase::ExpMore => num_int_done(num, seen) && num_frac_done(num, seen) && num.has_exp
            && num.int_end < pos && (num.has_frac ==> num.frac_end < pos) && num.exp_start < pos
            && digits_in(seen, num.exp_start as int, pos as int),
    }
}

/// Recording a byte at or past a digit run leaves the run intact.
pub proof fn lemma_digits_preserved(seen: Map<int, u8>, pos: int, b: u8, lo: int, hi: int)
    requires
        digits_in(seen, lo, hi),
        hi <= pos,
    ensures
        digits_in(seen.insert(pos, b), lo, hi),
{
    assert forall|p: int| lo <= p < hi implies #[trigger] seen.insert(pos, b).dom().contains(p)
        && 48 <= seen.insert(pos, b)[p] <= 57 by {
        assert(seen.dom().contains(p));
    }
}

/// Recording a digit right after a digit run extends the run by one.
pub proof fn lemma_digits_extend(seen: Map<int, u8>, pos: int, b: u8, lo: int)
    requires
        digits_in(seen, lo, pos),
        48 <= b <= 57,
        lo <= pos,
    ensures
        digits_in(seen.insert(pos, b), lo, pos + 1),
{
    assert forall|p: int| lo <= p < pos + 1 implies #[trigger] seen.insert(
        pos,
        b,
    ).dom().contains(p) && 48 <= seen.insert(pos, b)[p] <= 57 by {
        if p < pos {
            assert(seen.dom().contains(p));
        }
    }
}

/// The fragment descriptor a finished number state denotes.
pub open spec fn num_to_data(num: NumState) -> NumberData {
    NumberData {
        sign: num.sign,
        integer: Range { start: num.int_start, end: num.int_end },
        decimal: if num.has_frac {
            Some(Range { start: num.frac_start, end: num.frac_end })
        } else {
            None
        },
        exponent_sign: num.exp_sign,
        exponent: if num.has_exp {
            Some(Range { start: num.exp_start, end: num.exp_end })
        } else {
            None
        },
    }
}

/// Every consumed byte agrees with the provider the run reads from.
pub open spec fn seen_within(seen: Map<int, u8>, m: Map<int, u8>) -> bool {
    forall|p: int| #[trigger] seen.dom().contains(p) ==> m.dom().contains(p) && m[p] == seen[p]
}

/// A token of the expected output-stack shape: an open map, an open list,
/// or a completed value.
#[derive(Debug, Clone, Copy, PartialEq, Eq, Structural)]
pub enum ShapeTok {
    TMap,
    TList,
    TVal,
}

/// The iterative JSON parser. `pos` is the absolute offset of the next
/// byte to consume; `seen` records, for verification, every byte consumed
/// so far at its offset.
pub struct Parser {
    pub pos: usize,
    pub frames: Vec<Frame>,
    pub mode: Mode,
    pub seen: Ghost<Map<int, u8>>,
}

/// The shape contribution of one open container: an open map may carry its
/// pending key above it.
pub open spec fn frame_toks(f: Frame, has_key: bool) -> Seq<ShapeTok> {
    match f {
        Frame::InArray => seq![ShapeTok::TList],
        Frame::InMap => if has_key {
            seq![ShapeTok::TMap, ShapeTok::TVal]
        } else {
            seq![ShapeTok::TMap]
        },
    }
}

/// The shape contribution of the open containers. Every container below
/// the top is mid-value, so a map below the top always carries its key.
pub open spec fn frames_toks(frames: Seq<Frame>, top_key: bool) -> Seq<ShapeTok>
    decreases frames.len(),
{
    if frames.len() == 0 {
        Seq::empty()
    } else {
        frames_toks(frames.drop_last(), true) + frame_toks(frames.last(), top_key)
    }
}

/// Whether, in this mode, the top map frame's key has been pushed on the
/// output stack and not yet folded.
pub open spec fn top_map_has_key(mode: Mode) -> bool {
    match mode {
        Mode::ExpectColon => true,
        Mode::ExpectValue { .. } => true,
        Mode::Str { spos, .. } => spos == StringPosition::MapValue,
        Mode::Num { .. } => true,
        Mode::Lit { .. } => true,
        Mode::AfterValue => true,
        _ => false,
    }
}

/// The shape contribution of the mode itself: a completed, not yet folded
/// value.
pub open spec fn mode_tail(mode: Mode) -> Seq<ShapeTok> {
    match mode {
        Mode::AfterValue => seq![ShapeTok::TVal],
        Mode::Finished => seq![ShapeTok::TVal],
        _ => Seq::empty(),
    }
}

impl Parser {
    /// The shape the output stack must have in this state.
    pub open spec fn shape(self) -> Seq<ShapeTok> {
        frames_toks(self.frames@, top_map_has_key(self.mode)) + mode_tail(self.mode)
    }

    /// Internal consistency of mode and frames.
    pub open spec fn wf(self) -> bool {
        &&& match self.mode {
            Mode::ExpectKeyOrClose | Mode::ExpectKey | Mode::ExpectColon => self.frames@.len() > 0
                && self.frames@.last() == Frame::InMap,
            Mode::ExpectValue { allow_close } => allow_close ==> (self.frames@.len() > 0
                && self.frames@.last() == Frame::InArray),
            Mode::ExpectCommaOrClose => self.frames@.len() > 0,
            Mode::Str { spos, sub } => {
                &&& match spos {
                    StringPosition::Root => self.frames@.len() == 0,
                    StringPosition::ArrayElement => self.frames@.len() > 0 && self.frames@.last()
                        == Frame::InArray,
                    StringPosition::MapKey | StringPosition::MapValue => self.frames@.len() > 0
                        && self.frames@.last() == Frame::InMap,
                }
                &&& match sub {
                    StrSub::Raw { run_start } => run_start <= self.pos,
                    StrSub::Hex { acc, got } => got <= 3 && acc < hex_acc_bound(got),
                    StrSub::SurrSlash { hi } | StrSub::SurrU { hi } => 0xD800 <= hi < 0xDC00,
                    StrSub::SurrHex { hi, acc, got } => 0xD800 <= hi < 0xDC00 && got <= 3 && acc
                        < hex_acc_bound(got),
                    _ => true,
                }
            },
            Mode::Finished => self.frames@.len() == 0,
            _ => true,
        }
        &&& match self.mode {
            Mode::Lit { kind, idx } => 1 <= idx < lit_len(kind),
            _ => true,
        }
        &&& match self.mode {
            Mode::Num { num } => num_wf(num, self.pos, self.seen@),
            _ => true,
        }
    }

    /// Whether the next step must be fed a byte (or the end of input).
    pub open spec fn wants_input_spec(self) -> bool {
        !(self.mode is AfterValue || self.mode is Finished)
    }

    /// Executable form of `wants_input_spec`.
    pub fn wants_input(&self) -> (r: bool)
        ensures
            r == self.wants_input_spec(),
    {
        !(matches!(self.mode, Mode::AfterValue) || matches!(self.mode, Mode::Finished))
    }

    /// A fresh parser at position 0, expecting the root value.
    pub fn new() -> (r: Parser)
        ensures
            r.wf(),
            r.pos == 0,
            r.frames@ == Seq::<Frame>::empty(),
            r.mode == (Mode::ExpectValue { allow_close: false }),
            r.seen@ == Map::<int, u8>::empty(),
            r.shape() == Seq::<ShapeTok>::empty(),
            r.wants_input_spec(),
    {
        let p = Parser {
            pos: 0,
            frames: Vec::new(),
            mode: Mode::ExpectValue { allow_close: false },
            seen: Ghost(Map::empty()),
        };
        proof {
            assert(p.shape() =~= Seq::<ShapeTok>::empty());
        }
        p
    }
}

/// The exclusive bound on a hex accumulator that has collected `got`
/// digits.
pub open spec fn hex_acc_bound(got: u8) -> u32 {
    if got == 0 {
        1
    } else if got == 1 {
        16
    } else if got == 2 {
        256
    } else {
        4096
    }
}

/// A codepoint an escape may denote: in range and not a surrogate half.
pub open spec fn valid_codepoint(cp: u32) -> bool {
    cp < 0x110000 && !(0xD800 <= cp < 0xE000)
}

/// How an event relates the output-stack shape before and after it.
pub open spec fn event_shape_ok(e: Event, pre: Seq<ShapeTok>, post: Seq<ShapeTok>) -> bool {
    match e {
        Event::PushMap(_) => post == pre.push(ShapeTok::TMap),
        Event::PushArray(_) => post == pre.push(ShapeTok::TList),
        Event::PushNumber(_, _) | Event::PushBool(_, _) | Event::PushNull(_) => post == pre.push(
            ShapeTok::TVal,
        ),
        Event::StartString(_) | Event::AppendStringRange(_) | Event::AppendStringSingle(_) => post
            == pre,
        Event::AppendStringCodepoint(cp) => post == pre && valid_codepoint(cp),
        Event::FinalizeString(_) => post == pre.push(ShapeTok::TVal),
        Event::FinalizeMap(_) => pre.len() >= 1 && pre.last() == ShapeTok::TMap && post
            == pre.drop_last().push(ShapeTok::TVal),
        Event::FinalizeArray(_) => pre.len() >= 1 && pre.last() == ShapeTok::TList && post
            == pre.drop_last().push(ShapeTok::TVal),
        Event::PopIntoMap => pre.len() >= 3 && pre[pre.len() - 3] == ShapeTok::TMap && post
            == pre.take(pre.len() - 3).push(ShapeTok::TMap),
        Event::PopIntoArray => pre.len() >= 2 && pre[pre.len() - 2] == ShapeTok::TList && post
            == pre.take(pre.len() - 2).push(ShapeTok::TList),
    }
}

/// How an event relates the open-container stack before and after it.
pub open spec fn event_frames_ok(e: Event, pre: Seq<Frame>, post: Seq<Frame>) -> bool {
    match e {
        Event::PushMap(_) => post == pre.push(Frame::InMap),
        Event::PushArray(_) => post == pre.push(Frame::InArray),
        Event::FinalizeMap(_) => pre.len() > 0 && pre.last() == Frame::InMap && post
            == pre.drop_last(),
        Event::FinalizeArray(_) => pre.len() > 0 && pre.last() == Frame::InArray && post
            == pre.drop_last(),
        _ => post == pre,
    }
}

/// A rank that strictly falls on every step that does not consume a byte
/// and does not end the run: pending raw-run flushes, a pending number
/// emission, and pending folds each lower it.
pub open spec fn nc_rank(p: Parser) -> int {
    match p.mode {
        Mode::Str { sub: StrSub::Raw { run_start }, .. } => if run_start < p.pos {
            5
        } else {
            4
        },
        Mode::Num { .. } => 3,
        Mode::AfterValue => 2,
        _ => 1,
    }
}

/// Whether the grammar refuses this feed in this state: the exact
/// condition under which `step` fails. A byte is refused when the current
/// mode accepts no continuation with it; the end of input is refused
/// everywhere but inside the trailing digits of a number.
pub open spec fn feed_rejected(p: Parser, feed: Feed) -> bool {
    match feed {
        Feed::NoInput => false,
        Feed::End => match p.mode {
            Mode::Num { num } => !(num.phase is IntMore || num.phase is FracMore || num.phase
                is ExpMore),
            Mode::AfterValue | Mode::Finished => false,
            _ => true,
        },
        Feed::Byte(b) => match p.mode {
            Mode::ExpectValue { allow_close } => !ws_byte(b) && !value_start_byte(b) && !(
            allow_close && b == 93),
            Mode::ExpectKeyOrClose => !ws_byte(b) && b != 34 && b != 125,
            Mode::ExpectKey => !ws_byte(b) && b != 34,
            Mode::ExpectColon => !ws_byte(b) && b != 58,
            Mode::ExpectCommaOrClose => !ws_byte(b) && b != 44 && !(b == 125 && p.frames@.last()
                == Frame::InMap) && !(b == 93 && p.frames@.last() == Frame::InArray),
            Mode::Str { sub, .. } => match sub {
                StrSub::Raw { .. } => b < 32,
                StrSub::Escape => !escape_byte(b),
                StrSub::Hex { acc, got } => match hex_digit_val(b) {
                    Some(v) => got == 3 && 0xDC00 <= acc * 16 + v < 0xE000,
                    None => true,
                },
                StrSub::SurrSlash { .. } => b != 92,
                StrSub::SurrU { .. } => b != 117,
                StrSub::SurrHex { acc, got, .. } => match hex_digit_val(b) {
                    Some(v) => got == 3 && !(0xDC00 <= acc * 16 + v < 0xE000),
                    None => true,
                },
            },
            Mode::Num { num } => match num.phase {
                NumPhase::IntFirst | NumPhase::FracFirst | NumPhase::ExpFirst => !digit_byte(b),
                NumPhase::ExpSign => !digit_byte(b) && b != 43 && b != 45,
                NumPhase::IntMore | NumPhase::FracMore | NumPhase::ExpMore => false,
            },
            Mode::Lit { kind, idx } => b != lit_bytes(kind)[idx as int],
            Mode::AfterValue | Mode::Finished => false,
        },
    }
}

/// A number state closed at the terminating position: the pending end
/// field of the current digit run is set there.
pub open spec fn close_number(num: NumState, pos: usize) -> NumState {
    match num.phase {
        NumPhase::IntMore => NumState { int_end: pos, ..num },
        NumPhase::FracMore => NumState { frac_end: pos, ..num },
        NumPhase::ExpMore => NumState { exp_end: pos, ..num },
        _ => num,
    }
}

/// The byte a simple escape denotes.
pub open spec fn unescape_byte(b: u8) -> u8 {
    if b == 98 {
        8
    } else if b == 102 {
        12
    } else if b == 110 {
        10
    } else if b == 114 {
        13
    } else if b == 116 {
        9
    } else {
        b
    }
}

/// The string position of a value at the current nesting.
pub open spec fn value_spos(p: Parser) -> StringPosition {
    if p.frames@.len() == 0 {
        StringPosition::Root
    } else if p.frames@.last() == Frame::InArray {
        StringPosition::ArrayElement
    } else {
        StringPosition::MapValue
    }
}

/// Which event a feed may produce in a state: every payload is a function
/// of the state and the byte. A boolean is the literal that was read, a
/// raw-range append is exactly the recorded run up to the position, a
/// codepoint is the collected hex value (or combined surrogate pair), a
/// number fragment is the lexed state closed at the position.
pub open spec fn event_from_ok(pre: Parser, feed: Feed, e: Event) -> bool {
    match e {
        Event::PushMap(_) => feed == Feed::Byte(123u8) && pre.mode matches Mode::ExpectValue {
            ..
        },
        Event::PushArray(_) => feed == Feed::Byte(91u8) && pre.mode matches Mode::ExpectValue {
            ..
        },
        Event::PushBool(_, v) => pre.mode matches Mode::Lit { kind, idx } && idx == lit_len(kind)
            - 1 && (kind == LitKind::LitTrue || kind == LitKind::LitFalse) && v == (kind
            == LitKind::LitTrue) && feed == Feed::Byte(lit_bytes(kind).last()),
        Event::PushNull(_) => pre.mode matches Mode::Lit { kind, idx } && kind == LitKind::LitNull
            && idx == 3 && feed == Feed::Byte(108u8),
        Event::PushNumber(_, data) => pre.mode matches Mode::Num { num } && (num.phase is IntMore
            || num.phase is FracMore || num.phase is ExpMore) && data == num_to_data(
            close_number(num, pre.pos),
        ),
        Event::StartString(spos) => feed == Feed::Byte(34u8) && (match pre.mode {
            Mode::ExpectValue { .. } => spos == value_spos(pre),
            Mode::ExpectKeyOrClose | Mode::ExpectKey => spos == StringPosition::MapKey,
            _ => false,
        }),
        Event::AppendStringRange(rg) => pre.mode matches Mode::Str {
            sub: StrSub::Raw { run_start },
            ..
        } && rg == (Range { start: run_start, end: pre.pos }) && run_start < pre.pos && (feed
            == Feed::Byte(34u8) || feed == Feed::Byte(92u8)),
        Event::AppendStringSingle(b2) => pre.mode matches Mode::Str { sub: StrSub::Escape, .. }
            && (feed matches Feed::Byte(b) && escape_byte(b) && b != 117 && b2 == unescape_byte(
            b,
        )),
        Event::AppendStringCodepoint(cp) => pre.mode matches Mode::Str { sub, .. } && (match sub {
            StrSub::Hex { acc, got } => got == 3 && (feed matches Feed::Byte(b) && hex_digit_val(
                b,
            ) matches Some(v) && cp == acc * 16 + v),
            StrSub::SurrHex { hi, acc, got } => got == 3 && (feed matches Feed::Byte(b)
                && hex_digit_val(b) matches Some(v) && cp == 0x10000 + (hi - 0xD800) * 0x400 + (
            acc * 16 + v - 0xDC00)),
            _ => false,
        }),
        Event::FinalizeString(spos) => feed == Feed::Byte(34u8) && (pre.mode matches Mode::Str {
            spos: s2,
            sub: StrSub::Raw { run_start },
        } && s2 == spos && run_start == pre.pos),
        Event::FinalizeMap(_) => feed == Feed::Byte(125u8) && (pre.mode is ExpectKeyOrClose
            || pre.mode is ExpectCommaOrClose),
        Event::FinalizeArray(_) => feed == Feed::Byte(93u8) && (pre.mode == (Mode::ExpectValue {
            allow_close: true,
        }) || pre.mode is ExpectCommaOrClose),
        Event::PopIntoMap => feed is NoInput && pre.mode is AfterValue && pre.frames@.len() > 0
            && pre.frames@.last() == Frame::InMap,
        Event::PopIntoArray => feed is NoInput && pre.mode is AfterValue && pre.frames@.len() > 0
            && pre.frames@.last() == Frame::InArray,
    }
}

/// An emitted number fragment ranges over consumed digits.
pub open spec fn event_seen_ok(e: Event, post: Parser) -> bool {
    match e {
        Event::PushNumber(_, data) => number_digits_ok(post.seen@, data),
        _ => true,
    }
}

/// An event's position payload is the parser's position when it is
/// emitted.
pub open spec fn event_pos_ok(e: Event, pos: usize) -> bool {
    match e {
        Event::PushMap(p) | Event::PushArray(p) | Event::PushNull(p) | Event::FinalizeMap(p)
            | Event::FinalizeArray(p) => p == pos,
        Event::PushNumber(p, _) => p == pos,
        Event::PushBool(p, _) => p == pos,
        _ => true,
    }
}

/// The full step contract: how one step relates the old and new parser
/// state for each kind of result.
pub open spec fn step_ok(pre: Parser, post: Parser, r: StepResult) -> bool {
    match r {
        StepResult::Consumed => post.shape() == pre.shape() && post.frames@ == pre.frames@
            && post.pos == pre.pos + 1,
        StepResult::ConsumedEvent(e) => event_shape_ok(e, pre.shape(), post.shape())
            && event_frames_ok(e, pre.frames@, post.frames@) && event_seen_ok(e, post)
            && event_pos_ok(e, post.pos) && post.pos == pre.pos + 1,
        StepResult::Event(e) => event_shape_ok(e, pre.shape(), post.shape()) && event_frames_ok(
            e,
            pre.frames@,
            post.frames@,
        ) && event_seen_ok(e, post) && event_pos_ok(e, post.pos) && post.pos == pre.pos
            && nc_rank(post) < nc_rank(pre),
        StepResult::Done => ((pre.mode == Mode::AfterValue && pre.frames@.len() == 0)
            || pre.mode == Mode::Finished) && post.mode == Mode::Finished && post.pos == pre.pos
            && post.frames@ == pre.frames@ && pre.shape() == seq![ShapeTok::TVal] && post.shape()
            == seq![ShapeTok::TVal],
        StepResult::Failed(p, why) => why != Unexpected::MissingBytes && p == post.pos
            && pre.pos <= post.pos <= pre.pos + 1,
    }
}

proof fn lemma_frames_push(frames: Seq<Frame>, f: Frame, k: bool)
    ensures
        frames_toks(frames.push(f), k) =~= frames_toks(frames, true) + frame_toks(f, k),
{
    assert(frames.push(f).drop_last() =~= frames);
    assert(frames.push(f).last() == f);
}

proof fn lemma_frames_top_key_irrelevant(frames: Seq<Frame>, k1: bool, k2: bool)
    requires
        frames.len() == 0 || frames.last() == Frame::InArray,
    ensures
        frames_toks(frames, k1) =~= frames_toks(frames, k2),
{
}

proof fn lemma_frames_map_key(frames: Seq<Frame>)
    requires
        frames.len() > 0,
        frames.last() == Frame::InMap,
    ensures
        frames_toks(frames, true) =~= frames_toks(frames, false) + seq![ShapeTok::TVal],
{
    assert(frame_toks(Frame::InMap, true) =~= frame_toks(Frame::InMap, false) + seq![
        ShapeTok::TVal,
    ]);
}

/// A literal's text.
pub open spec fn lit_bytes(kind: LitKind) -> Seq<u8> {
    match kind {
        LitKind::LitTrue => seq![116u8, 114u8, 117u8, 101u8],
        LitKind::LitFalse => seq![102u8, 97u8, 108u8, 115u8, 101u8],
        LitKind::LitNull => seq![110u8, 117u8, 108u8, 108u8],
    }
}

/// The length of a literal's text.
pub open spec fn lit_len(kind: LitKind) -> int {
    lit_bytes(kind).len() as int
}

/// The byte at index `idx` of a literal's text.
fn lit_byte(kind: LitKind, idx: u8) -> (r: u8)
    requires
        0 <= idx < lit_len(kind),
    ensures
        r == lit_bytes(kind)[idx as int],
{
    match kind {
        LitKind::LitTrue => {
            if idx == 0 { 116 } else if idx == 1 { 114 } else if idx == 2 { 117 } else { 101 }
        },
        LitKind::LitFalse => {
            if idx == 0 { 102 } else if idx == 1 { 97 } else if idx == 2 { 108 } else if idx == 3 { 115 } else { 101 }
        },
        LitKind::LitNull => {
            if idx == 0 { 110 } else if idx == 1 { 117 } else { 108 }
        },
    }
}

/// JSON whitespace.
pub open spec fn ws_byte(b: u8) -> bool {
    b == 32 || b == 9 || b == 10 || b == 13
}

/// An ASCII decimal digit.
pub open spec fn digit_byte(b: u8) -> bool {
    48 <= b <= 57
}

/// The value of a hex digit, if `b` is one.
pub open spec fn hex_digit_val(b: u8) -> Option<u32> {
    if 48 <= b <= 57 {
        Some((b - 48) as u32)
    } else if 97 <= b <= 102 {
        Some((b - 97 + 10) as u32)
    } else if 65 <= b <= 70 {
        Some((b - 65 + 10) as u32)
    } else {
        None
    }
}

/// A byte that may start a value: a container or string opener, a literal
/// opener, a minus, or a digit.
pub open spec fn value_start_byte(b: u8) -> bool {
    b == 123 || b == 91 || b == 34 || b == 116 || b == 102 || b == 110 || b == 45 || digit_byte(b)
}

/// A byte that may follow a backslash in a string.
pub open spec fn escape_byte(b: u8) -> bool {
    b == 34 || b == 92 || b == 47 || b == 98 || b == 102 || b == 110 || b == 114 || b == 116 || b
        == 117
}

fn is_ws(b: u8) -> (r: bool)
    ensures
        r == ws_byte(b),
{
    b == 32 || b == 9 || b == 10 || b == 13
}

fn is_digit(b: u8) -> (r: bool)
    ensures
        r == digit_byte(b),
{
    48 <= b && b <= 57
}

/// The value of a hex digit, if `b` is one.
fn hex_val(b: u8) -> (r: Option<u32>)
    ensures
        r == hex_digit_val(b),
        r matches Some(v) ==> v < 16,
{
    if 48 <= b && b <= 57 {
        Some((b - 48) as u32)
    } else if 97 <= b && b <= 102 {
        Some((b - 97 + 10) as u32)
    } else if 65 <= b && b <= 70 {
        Some((b - 65 + 10) as u32)
    } else {
        None
    }
}

impl Parser {
    /// The string position a value string at the current nesting has.
    fn value_string_position(&self) -> (r: StringPosition)
        ensures
            r == if self.frames@.len() == 0 {
                StringPosition::Root
            } else if self.frames@.last() == Frame::InArray {
                StringPosition::ArrayElement
            } else {
                StringPosition::MapValue
            },
    {
        let n = self.frames.len();
        if n == 0 {
            StringPosition::Root
        } else if matches!(self.frames[n - 1], Frame::InArray) {
            StringPosition::ArrayElement
        } else {
            StringPosition::MapValue
        }
    }

    /// Consume the byte `b` at the current position: advance and record
    /// it.
    fn consume(&mut self, Ghost(b): Ghost<u8>)
        requires
            old(self).pos < usize::MAX,
        ensures
            final(self).pos == old(self).pos + 1,
            final(self).seen@ == old(self).seen@.insert(old(self).pos as int, b),
            final(self).frames == old(self).frames,
            final(self).mode == old(self).mode,
    {
        proof {
            self.seen@ = self.seen@.insert(self.pos as int, b);
        }
        self.pos += 1;
    }

    /// Feed the parser. `feed` must carry the byte at `pos` exactly when
    /// the parser wants input; `End` only on a complete input whose bytes
    /// are exhausted.
    pub fn step(&mut self, feed: Feed) -> (r: StepResult)
        requires
            old(self).wf(),
            (feed is NoInput) == !old(self).wants_input_spec(),
            (feed is Byte) ==> old(self).pos < usize::MAX,
        ensures
            final(self).wf(),
            step_ok(*old(self), *final(self), r),
            feed is NoInput ==> (r is Event || r is Done),
            feed is End ==> !(r is Consumed) && !(r is ConsumedEvent),
            final(self).seen@ == old(self).seen@ || (feed matches Feed::Byte(b)
                && final(self).seen@ == old(self).seen@.insert(old(self).pos as int, b)),
            (r is Failed) == feed_rejected(*old(self), feed),
            r matches StepResult::Failed(p, why) ==> ((why == Unexpected::UnexpectedEnd) == (
            feed is End)),
            (feed is End && r is Failed) ==> *final(self) == *old(self),
            !(feed is Byte) ==> final(self).pos == old(self).pos,
            r matches StepResult::ConsumedEvent(e) ==> event_from_ok(*old(self), feed, e),
            r matches StepResult::Event(e) ==> event_from_ok(*old(self), feed, e),
    {
        let mode = self.mode;
        match mode {
            Mode::ExpectValue { allow_close } => self.step_value(allow_close, feed),
            Mode::ExpectKeyOrClose => self.step_key(true, feed),
            Mode::ExpectKey => self.step_key(false, feed),
            Mode::ExpectColon => self.step_colon(feed),
            Mode::ExpectCommaOrClose => self.step_comma_or_close(feed),
            Mode::Str { spos, sub } => self.step_str(spos, sub, feed),
            Mode::Num { num } => self.step_num(num, feed),
            Mode::Lit { kind, idx } => self.step_lit(kind, idx, feed),
            Mode::AfterValue => self.step_after_value(),
            Mode::Finished => StepResult::Done,
        }
    }

    fn step_value(&mut self, allow_close: bool, feed: Feed) -> (r: StepResult)
        requires
            old(self).wf(),
            old(self).mode == (Mode::ExpectValue { allow_close }),
            feed is Byte || feed is End,
            (feed is Byte) ==> old(self).pos < usize::MAX,
        ensures
            final(self).wf(),
            step_ok(*old(self), *final(self), r),
            feed is End ==> !(r is Consumed) && !(r is ConsumedEvent),
            final(self).seen@ == old(self).seen@ || (feed matches Feed::Byte(b)
                && final(self).seen@ == old(self).seen@.insert(old(self).pos as int, b)),
            (r is Failed) == feed_rejected(*old(self), feed),
            r matches StepResult::Failed(p, why) ==> ((why == Unexpected::UnexpectedEnd) == (
            feed is End)),
            (feed is End && r is Failed) ==> *final(self) == *old(self),
            !(feed is Byte) ==> final(self).pos == old(self).pos,
            r matches StepResult::ConsumedEvent(e) ==> event_from_ok(*old(self), feed, e),
            r matches StepResult::Event(e) ==> event_from_ok(*old(self), feed, e),
    {
        let ghost pre = *self;
        let b = match feed {
            Feed::Byte(b) => b,
            _ => {
                return StepResult::Failed(self.pos, Unexpected::UnexpectedEnd);
            },
        };
        if is_ws(b) {
            self.consume(Ghost(b));
            return StepResult::Consumed;
        }
        if b == 123 {  // '{'
            self.frames.push(Frame::InMap);
            self.mode = Mode::ExpectKeyOrClose;
            self.consume(Ghost(b));
            proof {
                lemma_frames_push(pre.frames@, Frame::InMap, false);
                assert(self.shape() =~= pre.shape().push(ShapeTok::TMap));
            }
            return StepResult::ConsumedEvent(Event::PushMap(self.pos));
        }
        if b == 91 {  // '['
            self.frames.push(Frame::InArray);
            self.mode = Mode::ExpectValue { allow_close: true };
            self.consume(Ghost(b));
            proof {
                lemma_frames_push(pre.frames@, Frame::InArray, true);
                assert(self.shape() =~= pre.shape().push(ShapeTok::TList));
            }
            return StepResult::ConsumedEvent(Event::PushArray(self.pos));
        }
        if b == 34 {  // '"'
            let spos = self.value_string_position();
            self.mode = Mode::Str { spos, sub: StrSub::Raw { run_start: self.pos + 1 } };
            self.consume(Ghost(b));
            proof {
                if spos != StringPosition::MapValue {
                    lemma_frames_top_key_irrelevant(pre.frames@, true, false);
                }
                assert(self.shape() =~= pre.shape());
            }
            return StepResult::ConsumedEvent(Event::StartString(spos));
        }
        if b == 116 {  // 't'
            self.mode = Mode::Lit { kind: LitKind::LitTrue, idx: 1 };
            self.consume(Ghost(b));
            assert(self.shape() =~= pre.shape());
            return StepResult::Consumed;
        }
        if b == 102 {  // 'f'
            self.mode = Mode::Lit { kind: LitKind::LitFalse, idx: 1 };
            self.consume(Ghost(b));
            assert(self.shape() =~= pre.shape());
            return StepResult::Consumed;
        }
        if b == 110 {  // 'n'
            self.mode = Mode::Lit { kind: LitKind::LitNull, idx: 1 };
            self.consume(Ghost(b));
            assert(self.shape() =~= pre.shape());
            return StepResult::Consumed;
        }
        if b == 45 {  // '-'
            self.mode = Mode::Num {
                num: NumState {
                    sign: false,
                    int_start: 0,
                    int_end: 0,
                    frac_start: 0,
                    frac_end: 0,
                    has_frac: false,
                    exp_sign: true,
                    exp_start: 0,
                    exp_end: 0,
                    has_exp: false,
                    phase: NumPhase::IntFirst,
                },
            };
            self.consume(Ghost(b));
            assert(self.shape() =~= pre.shape());
            return StepResult::Consumed;
        }
        if is_digit(b) {
            proof {
                lemma_digits_extend(pre.seen@, pre.pos as int, b, pre.pos as int);
            }
            self.mode = Mode::Num {
                num: NumState {
                    sign: true,
                    int_start: self.pos,
                    int_end: 0,
                    frac_start: 0,
                    frac_end: 0,
                    has_frac: false,
                    exp_sign: true,
                    exp_start: 0,
                    exp_end: 0,
                    has_exp: false,
                    phase: NumPhase::IntMore,
                },
            };
            self.consume(Ghost(b));
            assert(self.shape() =~= pre.shape());
            return StepResult::Consumed;
        }
        if b == 93 && allow_close {  // ']'
            self.frames.pop();
            self.mode = Mode::AfterValue;
            self.consume(Ghost(b));
            proof {
                assert(pre.frames@.drop_last() =~= self.frames@);
                assert(pre.shape() =~= frames_toks(self.frames@, true) + seq![ShapeTok::TList]);
                assert(pre.shape().drop_last() =~= frames_toks(self.frames@, true));
                assert(self.shape() =~= pre.shape().drop_last().push(ShapeTok::TVal));
            }
            return StepResult::ConsumedEvent(Event::FinalizeArray(self.pos));
        }
        StepResult::Failed(self.pos, Unexpected::ExpectedValue)
    }

    fn step_key(&mut self, allow_close: bool, feed: Feed) -> (r: StepResult)
        requires
            old(self).wf(),
            old(self).mode == if allow_close {
                Mode::ExpectKeyOrClose
            } else {
                Mode::ExpectKey
            },
            feed is Byte || feed is End,
            (feed is Byte) ==> old(self).pos < usize::MAX,
        ensures
            final(self).wf(),
            step_ok(*old(self), *final(self), r),
            feed is End ==> !(r is Consumed) && !(r is ConsumedEvent),
            final(self).seen@ == old(self).seen@ || (feed matches Feed::Byte(b)
                && final(self).seen@ == old(self).seen@.insert(old(self).pos as int, b)),
            (r is Failed) == feed_rejected(*old(self), feed),
            r matches StepResult::Failed(p, why) ==> ((why == Unexpected::UnexpectedEnd) == (
            feed is End)),
            (feed is End && r is Failed) ==> *final(self) == *old(self),
            !(feed is Byte) ==> final(self).pos == old(self).pos,
            r matches StepResult::ConsumedEvent(e) ==> event_from_ok(*old(self), feed, e),
            r matches StepResult::Event(e) ==> event_from_ok(*old(self), feed, e),
    {
        let ghost pre = *self;
        let b = match feed {
            Feed::Byte(b) => b,
            _ => {
                return StepResult::Failed(self.pos, Unexpected::UnexpectedEnd);
            },
        };
        if is_ws(b) {
            self.consume(Ghost(b));
            return StepResult::Consumed;
        }
        if b == 34 {  // '"'
            self.mode = Mode::Str {
                spos: StringPosition::MapKey,
                sub: StrSub::Raw { run_start: self.pos + 1 },
            };
            self.consume(Ghost(b));
            assert(self.shape() =~= pre.shape());
            return StepResult::ConsumedEvent(Event::StartString(StringPosition::MapKey));
        }
        if b == 125 && allow_close {  // '}'
            self.frames.pop();
            self.mode = Mode::AfterValue;
            self.consume(Ghost(b));
            proof {
                assert(pre.frames@.drop_last() =~= self.frames@);
                assert(pre.shape() =~= frames_toks(self.frames@, true) + seq![ShapeTok::TMap]);
                assert(pre.shape().drop_last() =~= frames_toks(self.frames@, true));
                assert(self.shape() =~= pre.shape().drop_last().push(ShapeTok::TVal));
            }
            return StepResult::ConsumedEvent(Event::FinalizeMap(self.pos));
        }
        StepResult::Failed(self.pos, Unexpected::ExpectedKey)
    }

    fn step_colon(&mut self, feed: Feed) -> (r: StepResult)
        requires
            old(self).wf(),
            old(self).mode == Mode::ExpectColon,
            feed is Byte || feed is End,
            (feed is Byte) ==> old(self).pos < usize::MAX,
        ensures
            final(self).wf(),
            step_ok(*old(self), *final(self), r),
            feed is End ==> !(r is Consumed) && !(r is ConsumedEvent),
            final(self).seen@ == old(self).seen@ || (feed matches Feed::Byte(b)
                && final(self).seen@ == old(self).seen@.insert(old(self).pos as int, b)),
            (r is Failed) == feed_rejected(*old(self), feed),
            r matches StepResult::Failed(p, why) ==> ((why == Unexpected::UnexpectedEnd) == (
            feed is End)),
            (feed is End && r is Failed) ==> *final(self) == *old(self),
            !(feed is Byte) ==> final(self).pos == old(self).pos,
            r matches StepResult::ConsumedEvent(e) ==> event_from_ok(*old(self), feed, e),
            r matches StepResult::Event(e) ==> event_from_ok(*old(self), feed, e),
    {
        let ghost pre = *self;
        let b = match feed {
            Feed::Byte(b) => b,
            _ => {
                return StepResult::Failed(self.pos, Unexpected::UnexpectedEnd);
            },
        };
        if is_ws(b) {
            self.consume(Ghost(b));
            return StepResult::Consumed;
        }
        if b == 58 {  // ':'
            self.mode = Mode::ExpectValue { allow_close: false };
            self.consume(Ghost(b));
            assert(self.shape() =~= pre.shape());
            return StepResult::Consumed;
        }
        StepResult::Failed(self.pos, Unexpected::ExpectedColon)
    }

    fn step_comma_or_close(&mut self, feed: Feed) -> (r: StepResult)
        requires
            old(self).wf(),
            old(self).mode == Mode::ExpectCommaOrClose,
            feed is Byte || feed is End,
            (feed is Byte) ==> old(self).pos < usize::MAX,
        ensures
            final(self).wf(),
            step_ok(*old(self), *final(self), r),
            feed is End ==> !(r is Consumed) && !(r is ConsumedEvent),
            final(self).seen@ == old(self).seen@ || (feed matches Feed::Byte(b)
                && final(self).seen@ == old(self).seen@.insert(old(self).pos as int, b)),
            (r is Failed) == feed_rejected(*old(self), feed),
            r matches StepResult::Failed(p, why) ==> ((why == Unexpected::UnexpectedEnd) == (
            feed is End)),
            (feed is End && r is Failed) ==> *final(self) == *old(self),
            !(feed is Byte) ==> final(self).pos == old(self).pos,
            r matches StepResult::ConsumedEvent(e) ==> event_from_ok(*old(self), feed, e),
            r matches StepResult::Event(e) ==> event_from_ok(*old(self), feed, e),
    {
        let ghost pre = *self;
        let b = match feed {
            Feed::Byte(b) => b,
            _ => {
                return StepResult::Failed(self.pos, Unexpected::UnexpectedEnd);
            },
        };
        if is_ws(b) {
            self.consume(Ghost(b));
            return StepResult::Consumed;
        }
        let n = self.frames.len();
        let top = self.frames[n - 1];
        if b == 44 {  // ','
            match top {
                Frame::InMap => {
                    self.mode = Mode::ExpectKey;
                    self.consume(Ghost(b));
                    assert(self.shape() =~= pre.shape());
                    StepResult::Consumed
                },
                Frame::InArray => {
                    self.mode = Mode::ExpectValue { allow_close: false };
                    self.consume(Ghost(b));
                    proof {
                        lemma_frames_top_key_irrelevant(pre.frames@, true, false);
                        assert(self.shape() =~= pre.shape());
                    }
                    StepResult::Consumed
                },
            }
        } else if b == 125 && matches!(top, Frame::InMap) {  // '}'
            self.frames.pop();
            self.mode = Mode::AfterValue;
            self.consume(Ghost(b));
            proof {
                assert(pre.frames@.drop_last() =~= self.frames@);
                assert(pre.shape() =~= frames_toks(self.frames@, true) + seq![ShapeTok::TMap]);
                assert(pre.shape().drop_last() =~= frames_toks(self.frames@, true));
                assert(self.shape() =~= pre.shape().drop_last().push(ShapeTok::TVal));
            }
            StepResult::ConsumedEvent(Event::FinalizeMap(self.pos))
        } else if b == 93 && matches!(top, Frame::InArray) {  // ']'
            self.frames.pop();
            self.mode = Mode::AfterValue;
            self.consume(Ghost(b));
            proof {
                assert(pre.frames@.drop_last() =~= self.frames@);
                assert(pre.shape() =~= frames_toks(self.frames@, true) + seq![ShapeTok::TList]);
                assert(pre.shape().drop_last() =~= frames_toks(self.frames@, true));
                assert(self.shape() =~= pre.shape().drop_last().push(ShapeTok::TVal));
            }
            StepResult::ConsumedEvent(Event::FinalizeArray(self.pos))
        } else {
            StepResult::Failed(self.pos, Unexpected::ExpectedCommaOrClose)
        }
    }

    fn step_after_value(&mut self) -> (r: StepResult)
        requires
            old(self).wf(),
            old(self).mode == Mode::AfterValue,
        ensures
            final(self).wf(),
            step_ok(*old(self), *final(self), r),
            r is Event || r is Done,
            final(self).seen@ == old(self).seen@,
            r matches StepResult::Event(e) ==> event_from_ok(*old(self), Feed::NoInput, e),
    {
        let ghost pre = *self;
        let n = self.frames.len();
        if n == 0 {
            self.mode = Mode::Finished;
            proof {
                assert(pre.shape() =~= seq![ShapeTok::TVal]);
                assert(self.shape() =~= seq![ShapeTok::TVal]);
            }
            return StepResult::Done;
        }
        let top = self.frames[n - 1];
        self.mode = Mode::ExpectCommaOrClose;
        match top {
            Frame::InMap => {
                proof {
                    lemma_frames_map_key(pre.frames@);
                    assert(pre.shape() =~= frames_toks(pre.frames@, false) + seq![
                        ShapeTok::TVal,
                        ShapeTok::TVal,
                    ]);
                    assert(frames_toks(pre.frames@, false).last() == ShapeTok::TMap);
                    assert(frames_toks(pre.frames@, false).len() >= 1);
                    assert(pre.shape().len() >= 3);
                    assert(pre.shape()[pre.shape().len() - 3] == ShapeTok::TMap);
                    assert(pre.shape().take(pre.shape().len() - 3) =~= frames_toks(
                        pre.frames@,
                        false,
                    ).drop_last());
                    assert(self.shape() =~= frames_toks(pre.frames@, false));
                    assert(self.shape() =~= pre.shape().take(pre.shape().len() - 3).push(
                        ShapeTok::TMap,
                    ));
                }
                StepResult::Event(Event::PopIntoMap)
            },
            Frame::InArray => {
                proof {
                    assert(pre.shape() =~= frames_toks(pre.frames@, true) + seq![ShapeTok::TVal]);
                    assert(frames_toks(pre.frames@, true).last() == ShapeTok::TList);
                    assert(pre.shape().len() >= 2);
                    assert(pre.shape()[pre.shape().len() - 2] == ShapeTok::TList);
                    assert(pre.shape().take(pre.shape().len() - 2) =~= frames_toks(
                        pre.frames@,
                        true,
                    ).drop_last());
                    assert(self.shape() =~= frames_toks(pre.frames@, true));
                    assert(self.shape() =~= pre.shape().take(pre.shape().len() - 2).push(
                        ShapeTok::TList,
                    ));
                }
                StepResult::Event(Event::PopIntoArray)
            },
        }
    }

    fn step_lit(&mut self, kind: LitKind, idx: u8, feed: Feed) -> (r: StepResult)
        requires
            old(self).wf(),
            old(self).mode == (Mode::Lit { kind, idx }),
            feed is Byte || feed is End,
            (feed is Byte) ==> old(self).pos < usize::MAX,
        ensures
            final(self).wf(),
            step_ok(*old(self), *final(self), r),
            feed is End ==> !(r is Consumed) && !(r is ConsumedEvent),
            final(self).seen@ == old(self).seen@ || (feed matches Feed::Byte(b)
                && final(self).seen@ == old(self).seen@.insert(old(self).pos as int, b)),
            (r is Failed) == feed_rejected(*old(self), feed),
            r matches StepResult::Failed(p, why) ==> ((why == Unexpected::UnexpectedEnd) == (
            feed is End)),
            (feed is End && r is Failed) ==> *final(self) == *old(self),
            !(feed is Byte) ==> final(self).pos == old(self).pos,
            r matches StepResult::ConsumedEvent(e) ==> event_from_ok(*old(self), feed, e),
            r matches StepResult::Event(e) ==> event_from_ok(*old(self), feed, e),
    {
        let ghost pre = *self;
        let b = match feed {
            Feed::Byte(b) => b,
            _ => {
                return StepResult::Failed(self.pos, Unexpected::UnexpectedEnd);
            },
        };
        if b != lit_byte(kind, idx) {
            return StepResult::Failed(self.pos, Unexpected::ExpectedValue);
        }
        let last = match kind {
            LitKind::LitTrue => idx == 3,
            LitKind::LitFalse => idx == 4,
            LitKind::LitNull => idx == 3,
        };
        if last {
            self.mode = Mode::AfterValue;
            self.consume(Ghost(b));
            proof {
                assert(self.shape() =~= pre.shape().push(ShapeTok::TVal));
            }
            let e = match kind {
                LitKind::LitTrue => Event::PushBool(self.pos, true),
                LitKind::LitFalse => Event::PushBool(self.pos, false),
                LitKind::LitNull => Event::PushNull(self.pos),
            };
            StepResult::ConsumedEvent(e)
        } else {
            self.mode = Mode::Lit { kind, idx: idx + 1 };
            self.consume(Ghost(b));
            assert(self.shape() =~= pre.shape());
            StepResult::Consumed
        }
    }

    fn step_str(&mut self, spos: StringPosition, sub: StrSub, feed: Feed) -> (r: StepResult)
        requires
            old(self).wf(),
            old(self).mode == (Mode::Str { spos, sub }),
            feed is Byte || feed is End,
            (feed is Byte) ==> old(self).pos < usize::MAX,
        ensures
            final(self).wf(),
            step_ok(*old(self), *final(self), r),
            feed is End ==> !(r is Consumed) && !(r is ConsumedEvent),
            final(self).seen@ == old(self).seen@ || (feed matches Feed::Byte(b)
                && final(self).seen@ == old(self).seen@.insert(old(self).pos as int, b)),
            (r is Failed) == feed_rejected(*old(self), feed),
            r matches StepResult::Failed(p, why) ==> ((why == Unexpected::UnexpectedEnd) == (
            feed is End)),
            (feed is End && r is Failed) ==> *final(self) == *old(self),
            !(feed is Byte) ==> final(self).pos == old(self).pos,
            r matches StepResult::ConsumedEvent(e) ==> event_from_ok(*old(self), feed, e),
            r matches StepResult::Event(e) ==> event_from_ok(*old(self), feed, e),
    {
        let ghost pre = *self;
        let b = match feed {
            Feed::Byte(b) => b,
            _ => {
                return StepResult::Failed(self.pos, Unexpected::UnexpectedEnd);
            },
        };
        match sub {
            StrSub::Raw { run_start } => {
                if b == 34 {  // '"'
                    if run_start < self.pos {
                        self.mode = Mode::Str { spos, sub: StrSub::Raw { run_start: self.pos } };
                        assert(self.shape() =~= pre.shape());
                        return StepResult::Event(
                            Event::AppendStringRange(Range { start: run_start, end: self.pos }),
                        );
                    }
                    self.consume(Ghost(b));
                    if matches!(spos, StringPosition::MapKey) {
                        self.mode = Mode::ExpectColon;
                        proof {
                            lemma_frames_map_key(pre.frames@);
                            assert(self.shape() =~= pre.shape().push(ShapeTok::TVal));
                        }
                    } else {
                        self.mode = Mode::AfterValue;
                        proof {
                            if spos != StringPosition::MapValue {
                                lemma_frames_top_key_irrelevant(pre.frames@, true, false);
                            }
                            assert(self.shape() =~= pre.shape().push(ShapeTok::TVal));
                        }
                    }
                    return StepResult::ConsumedEvent(Event::FinalizeString(spos));
                }
                if b == 92 {  // '\'
                    if run_start < self.pos {
                        self.mode = Mode::Str { spos, sub: StrSub::Raw { run_start: self.pos } };
                        assert(self.shape() =~= pre.shape());
                        return StepResult::Event(
                            Event::AppendStringRange(Range { start: run_start, end: self.pos }),
                        );
                    }
                    self.mode = Mode::Str { spos, sub: StrSub::Escape };
                    self.consume(Ghost(b));
                    assert(self.shape() =~= pre.shape());
                    return StepResult::Consumed;
                }
                if b < 32 {
                    return StepResult::Failed(self.pos, Unexpected::InvalidStringByte);
                }
                self.consume(Ghost(b));
                assert(self.shape() =~= pre.shape());
                StepResult::Consumed
            },
            StrSub::Escape => {
                let decoded: Option<u8> = if b == 34 || b == 92 || b == 47 {
                    Some(b)
                } else if b == 98 {  // 'b'
                    Some(8)
                } else if b == 102 {  // 'f'
                    Some(12)
                } else if b == 110 {  // 'n'
                    Some(10)
                } else if b == 114 {  // 'r'
                    Some(13)
                } else if b == 116 {  // 't'
                    Some(9)
                } else {
                    None
                };
                if let Some(d) = decoded {
                    self.consume(Ghost(b));
                    self.mode = Mode::Str { spos, sub: StrSub::Raw { run_start: self.pos } };
                    assert(self.shape() =~= pre.shape());
                    return StepResult::ConsumedEvent(Event::AppendStringSingle(d));
                }
                if b == 117 {  // 'u'
                    self.consume(Ghost(b));
                    self.mode = Mode::Str { spos, sub: StrSub::Hex { acc: 0, got: 0 } };
                    assert(self.shape() =~= pre.shape());
                    return StepResult::Consumed;
                }
                StepResult::Failed(self.pos, Unexpected::InvalidEscape)
            },
            StrSub::Hex { acc, got } => {
                let v = match hex_val(b) {
                    Some(v) => v,
                    None => {
                        return StepResult::Failed(self.pos, Unexpected::InvalidUnicodeEscape);
                    },
                };
                let acc2 = acc * 16 + v;
                self.consume(Ghost(b));
                if got == 3 {
                    if 0xD800 <= acc2 && acc2 < 0xDC00 {
                        self.mode = Mode::Str { spos, sub: StrSub::SurrSlash { hi: acc2 } };
                        assert(self.shape() =~= pre.shape());
                        StepResult::Consumed
                    } else if 0xDC00 <= acc2 && acc2 < 0xE000 {
                        StepResult::Failed(self.pos, Unexpected::InvalidUnicodeEscape)
                    } else {
                        self.mode = Mode::Str { spos, sub: StrSub::Raw { run_start: self.pos } };
                        assert(self.shape() =~= pre.shape());
                        StepResult::ConsumedEvent(Event::AppendStringCodepoint(acc2))
                    }
                } else {
                    self.mode = Mode::Str { spos, sub: StrSub::Hex { acc: acc2, got: got + 1 } };
                    assert(self.shape() =~= pre.shape());
                    StepResult::Consumed
                }
            },
            StrSub::SurrSlash { hi } => {
                if b == 92 {
                    self.consume(Ghost(b));
                    self.mode = Mode::Str { spos, sub: StrSub::SurrU { hi } };
                    assert(self.shape() =~= pre.shape());
                    StepResult::Consumed
                } else {
                    StepResult::Failed(self.pos, Unexpected::InvalidUnicodeEscape)
                }
            },
            StrSub::SurrU { hi } => {
                if b == 117 {
                    self.consume(Ghost(b));
                    self.mode = Mode::Str { spos, sub: StrSub::SurrHex { hi, acc: 0, got: 0 } };
                    assert(self.shape() =~= pre.shape());
                    StepResult::Consumed
                } else {
                    StepResult::Failed(self.pos, Unexpected::InvalidUnicodeEscape)
                }
            },
            StrSub::SurrHex { hi, acc, got } => {
                let v = match hex_val(b) {
                    Some(v) => v,
                    None => {
                        return StepResult::Failed(self.pos, Unexpected::InvalidUnicodeEscape);
                    },
                };
                let acc2 = acc * 16 + v;
                self.consume(Ghost(b));
                if got == 3 {
                    if 0xDC00 <= acc2 && acc2 < 0xE000 {
                        let cp = 0x10000 + (hi - 0xD800) * 0x400 + (acc2 - 0xDC00);
                        self.mode = Mode::Str { spos, sub: StrSub::Raw { run_start: self.pos } };
                        assert(self.shape() =~= pre.shape());
                        StepResult::ConsumedEvent(Event::AppendStringCodepoint(cp))
                    } else {
                        StepResult::Failed(self.pos, Unexpected::InvalidUnicodeEscape)
                    }
                } else {
                    self.mode = Mode::Str {
                        spos,
                        sub: StrSub::SurrHex { hi, acc: acc2, got: got + 1 },
                    };
                    assert(self.shape() =~= pre.shape());
                    StepResult::Consumed
                }
            },
        }
    }

    fn step_num(&mut self, num: NumState, feed: Feed) -> (r: StepResult)
        requires
            old(self).wf(),
            old(self).mode == (Mode::Num { num }),
            feed is Byte || feed is End,
            (feed is Byte) ==> old(self).pos < usize::MAX,
        ensures
            final(self).wf(),
            step_ok(*old(self), *final(self), r),
            feed is End ==> !(r is Consumed) && !(r is ConsumedEvent),
            final(self).seen@ == old(self).seen@ || (feed matches Feed::Byte(b)
                && final(self).seen@ == old(self).seen@.insert(old(self).pos as int, b)),
            (r is Failed) == feed_rejected(*old(self), feed),
            r matches StepResult::Failed(p, why) ==> ((why == Unexpected::UnexpectedEnd) == (
            feed is End)),
            (feed is End && r is Failed) ==> *final(self) == *old(self),
            !(feed is Byte) ==> final(self).pos == old(self).pos,
            r matches StepResult::ConsumedEvent(e) ==> event_from_ok(*old(self), feed, e),
            r matches StepResult::Event(e) ==> event_from_ok(*old(self), feed, e),
    {
        let ghost pre = *self;
        match num.phase {
            NumPhase::IntFirst => {
                match feed {
                    Feed::Byte(b) => {
                        if is_digit(b) {
                            proof {
                                lemma_digits_extend(pre.seen@, pre.pos as int, b, pre.pos as int);
                            }
                            let mut n2 = num;
                            n2.int_start = self.pos;
                            n2.phase = NumPhase::IntMore;
                            self.mode = Mode::Num { num: n2 };
                            self.consume(Ghost(b));
                            assert(self.shape() =~= pre.shape());
                            StepResult::Consumed
                        } else {
                            StepResult::Failed(self.pos, Unexpected::ExpectedDigit)
                        }
                    },
                    _ => StepResult::Failed(self.pos, Unexpected::UnexpectedEnd),
                }
            },
            NumPhase::IntMore => {
                match feed {
                    Feed::Byte(b) => {
                        if is_digit(b) {
                            proof {
                                lemma_digits_extend(
                                    pre.seen@,
                                    pre.pos as int,
                                    b,
                                    num.int_start as int,
                                );
                            }
                            self.consume(Ghost(b));
                            assert(self.shape() =~= pre.shape());
                            StepResult::Consumed
                        } else if b == 46 {  // '.'
                            proof {
                                lemma_digits_preserved(
                                    pre.seen@,
                                    pre.pos as int,
                                    b,
                                    num.int_start as int,
                                    pre.pos as int,
                                );
                            }
                            let mut n2 = num;
                            n2.int_end = self.pos;
                            n2.has_frac = true;
                            n2.frac_start = self.pos + 1;
                            n2.phase = NumPhase::FracFirst;
                            self.mode = Mode::Num { num: n2 };
                            self.consume(Ghost(b));
                            assert(self.shape() =~= pre.shape());
                            StepResult::Consumed
                        } else if b == 101 || b == 69 {  // 'e' | 'E'
                            proof {
                                lemma_digits_preserved(
                                    pre.seen@,
                                    pre.pos as int,
                                    b,
                                    num.int_start as int,
                                    pre.pos as int,
                                );
                            }
                            let mut n2 = num;
                            n2.int_end = self.pos;
                            n2.has_exp = true;
                            n2.phase = NumPhase::ExpSign;
                            self.mode = Mode::Num { num: n2 };
                            self.consume(Ghost(b));
                            assert(self.shape() =~= pre.shape());
                            StepResult::Consumed
                        } else {
                            let mut n2 = num;
                            n2.int_end = self.pos;
                            self.emit_number(n2)
                        }
                    },
                    _ => {
                        let mut n2 = num;
                        n2.int_end = self.pos;
                        self.emit_number(n2)
                    },
                }
            },
            NumPhase::FracFirst => {
                match feed {
                    Feed::Byte(b) => {
                        if is_digit(b) {
                            proof {
                                lemma_digits_preserved(
                                    pre.seen@,
                                    pre.pos as int,
                                    b,
                                    num.int_start as int,
                                    num.int_end as int,
                                );
                                lemma_digits_extend(pre.seen@, pre.pos as int, b, pre.pos as int);
                            }
                            let mut n2 = num;
                            n2.phase = NumPhase::FracMore;
                            self.mode = Mode::Num { num: n2 };
                            self.consume(Ghost(b));
                            assert(self.shape() =~= pre.shape());
                            StepResult::Consumed
                        } else {
                            StepResult::Failed(self.pos, Unexpected::ExpectedDigit)
                        }
                    },
                    _ => StepResult::Failed(self.pos, Unexpected::UnexpectedEnd),
                }
            },
            NumPhase::FracMore => {
                match feed {
                    Feed::Byte(b) => {
                        if is_digit(b) {
                            proof {
                                lemma_digits_preserved(
                                    pre.seen@,
                                    pre.pos as int,
                                    b,
                                    num.int_start as int,
                                    num.int_end as int,
                                );
                                lemma_digits_extend(
                                    pre.seen@,
                                    pre.pos as int,
                                    b,
                                    num.frac_start as int,
                                );
                            }
                            self.consume(Ghost(b));
                            assert(self.shape() =~= pre.shape());
                            StepResult::Consumed
                        } else if b == 101 || b == 69 {
                            proof {
                                lemma_digits_preserved(
                                    pre.seen@,
                                    pre.pos as int,
                                    b,
                                    num.int_start as int,
                                    num.int_end as int,
                                );
                                lemma_digits_preserved(
                                    pre.seen@,
                                    pre.pos as int,
                                    b,
                                    num.frac_start as int,
                                    pre.pos as int,
                                );
                            }
                            let mut n2 = num;
                            n2.frac_end = self.pos;
                            n2.has_exp = true;
                            n2.phase = NumPhase::ExpSign;
                            self.mode = Mode::Num { num: n2 };
                            self.consume(Ghost(b));
                            assert(self.shape() =~= pre.shape());
                            StepResult::Consumed
                        } else {
                            let mut n2 = num;
                            n2.frac_end = self.pos;
                            self.emit_number(n2)
                        }
                    },
                    _ => {
                        let mut n2 = num;
                        n2.frac_end = self.pos;
                        self.emit_number(n2)
                    },
                }
            },
            NumPhase::ExpSign => {
                match feed {
                    Feed::Byte(b) => {
                        if b == 43 {  // '+'
                            proof {
                                lemma_digits_preserved(
                                    pre.seen@,
                                    pre.pos as int,
                                    b,
                                    num.int_start as int,
                                    num.int_end as int,
                                );
                                if num.has_frac {
                                    lemma_digits_preserved(
                                        pre.seen@,
                                        pre.pos as int,
                                        b,
                                        num.frac_start as int,
                                        num.frac_end as int,
                                    );
                                }
                            }
                            let mut n2 = num;
                            n2.exp_sign = true;
                            n2.exp_start = self.pos + 1;
                            n2.phase = NumPhase::ExpFirst;
                            self.mode = Mode::Num { num: n2 };
                            self.consume(Ghost(b));
                            assert(self.shape() =~= pre.shape());
                            StepResult::Consumed
                        } else if b == 45 {  // '-'
                            proof {
                                lemma_digits_preserved(
                                    pre.seen@,
                                    pre.pos as int,
                                    b,
                                    num.int_start as int,
                                    num.int_end as int,
                                );
                                if num.has_frac {
                                    lemma_digits_preserved(
                                        pre.seen@,
                                        pre.pos as int,
                                        b,
                                        num.frac_start as int,
                                        num.frac_end as int,
                                    );
                                }
                            }
                            let mut n2 = num;
                            n2.exp_sign = false;
                            n2.exp_start = self.pos + 1;
                            n2.phase = NumPhase::ExpFirst;
                            self.mode = Mode::Num { num: n2 };
                            self.consume(Ghost(b));
                            assert(self.shape() =~= pre.shape());
                            StepResult::Consumed
                        } else if is_digit(b) {
                            proof {
                                lemma_digits_preserved(
                                    pre.seen@,
                                    pre.pos as int,
                                    b,
                                    num.int_start as int,
                                    num.int_end as int,
                                );
                                if num.has_frac {
                                    lemma_digits_preserved(
                                        pre.seen@,
                                        pre.pos as int,
                                        b,
                                        num.frac_start as int,
                                        num.frac_end as int,
                                    );
                                }
                            }
                            proof {
                                lemma_digits_extend(pre.seen@, pre.pos as int, b, pre.pos as int);
                            }
                            let mut n2 = num;
                            n2.exp_sign = true;
                            n2.exp_start = self.pos;
                            n2.phase = NumPhase::ExpMore;
                            self.mode = Mode::Num { num: n2 };
                            self.consume(Ghost(b));
                            assert(self.shape() =~= pre.shape());
                            StepResult::Consumed
                        } else {
                            StepResult::Failed(self.pos, Unexpected::ExpectedDigit)
                        }
                    },
                    _ => StepResult::Failed(self.pos, Unexpected::UnexpectedEnd),
                }
            },
            NumPhase::ExpFirst => {
                match feed {
                    Feed::Byte(b) => {
                        if is_digit(b) {
                            proof {
                                lemma_digits_preserved(
                                    pre.seen@,
                                    pre.pos as int,
                                    b,
                                    num.int_start as int,
                                    num.int_end as int,
                                );
                                if num.has_frac {
                                    lemma_digits_preserved(
                                        pre.seen@,
                                        pre.pos as int,
                                        b,
                                        num.frac_start as int,
                                        num.frac_end as int,
                                    );
                                }
                            }
                            proof {
                                lemma_digits_extend(pre.seen@, pre.pos as int, b, pre.pos as int);
                            }
                            let mut n2 = num;
                            n2.phase = NumPhase::ExpMore;
                            self.mode = Mode::Num { num: n2 };
                            self.consume(Ghost(b));
                            assert(self.shape() =~= pre.shape());
                            StepResult::Consumed
                        } else {
                            StepResult::Failed(self.pos, Unexpected::ExpectedDigit)
                        }
                    },
                    _ => StepResult::Failed(self.pos, Unexpected::UnexpectedEnd),
                }
            },
            NumPhase::ExpMore => {
                match feed {
                    Feed::Byte(b) => {
                        if is_digit(b) {
                            proof {
                                lemma_digits_preserved(
                                    pre.seen@,
                                    pre.pos as int,
                                    b,
                                    num.int_start as int,
                                    num.int_end as int,
                                );
                                if num.has_frac {
                                    lemma_digits_preserved(
                                        pre.seen@,
                                        pre.pos as int,
                                        b,
                                        num.frac_start as int,
                                        num.frac_end as int,
                                    );
                                }
                            }
                            proof {
                                lemma_digits_extend(
                                    pre.seen@,
                                    pre.pos as int,
                                    b,
                                    num.exp_start as int,
                                );
                            }
                            self.consume(Ghost(b));
                            assert(self.shape() =~= pre.shape());
                            StepResult::Consumed
                        } else {
                            let mut n2 = num;
                            n2.exp_end = self.pos;
                            self.emit_number(n2)
                        }
                    },
                    _ => {
                        let mut n2 = num;
                        n2.exp_end = self.pos;
                        self.emit_number(n2)
                    },
                }
            },
        }
    }

    /// Finish the number token: the terminating byte is not consumed.
    fn emit_number(&mut self, num: NumState) -> (r: StepResult)
        requires
            old(self).wf(),
            old(self).mode matches Mode::Num { .. },
            number_digits_ok(old(self).seen@, num_to_data(num)),
        ensures
            final(self).wf(),
            step_ok(*old(self), *final(self), r),
            r == StepResult::Event(Event::PushNumber(old(self).pos, num_to_data(num))),
            final(self).seen@ == old(self).seen@,
    {
        let ghost pre = *self;
        let data = NumberData {
            sign: num.sign,
            integer: Range { start: num.int_start, end: num.int_end },
            decimal: if num.has_frac {
                Some(Range { start: num.frac_start, end: num.frac_end })
            } else {
                None
            },
            exponent_sign: num.exp_sign,
            exponent: if num.has_exp {
                Some(Range { start: num.exp_start, end: num.exp_end })
            } else {
                None
            },
        };
        self.mode = Mode::AfterValue;
        proof {
            assert(data == num_to_data(num));
            assert(self.shape() =~= pre.shape().push(ShapeTok::TVal));
        }
        StepResult::Event(Event::PushNumber(self.pos, data))
    }
}


} // verus!
