//! Basic (non-spec) mode: the source/sink adapter over a single input
//! buffer, and the `parse` / `parse_iter` entry points.
//!
//! A run consumes up to a byte budget, then yields a continuation
//! (`IterState`) together with the output stack; re-entering with the same
//! buffer resumes exactly where the run left off. The run loop maintains
//! the parser's shape discipline on the output stack, which proves that no
//! fold ever underflows and that a finished run leaves exactly the
//! document root on the stack.

use vstd::prelude::*;

use vstd::pervasive::unreached;

use crate::input::{InputProvider, SingleBinaryProvider, StreamingInputResult};
use crate::numbers::{lemma_range_bytes_digits, number_data_to_value};
use crate::parser::{
    event_shape_ok, nc_rank, number_digits_ok, seen_within, BailType, Event, Feed, Parser,
    ShapeTok, StepResult, Unexpected,
};
use crate::sink::{
    fold_into_array, fold_into_map, lemma_stack_fold, lemma_stack_push, reverse_top_list,
    stack_matches, utf8_encode,
};
use crate::strings::BuildString;
use crate::value::Value;

verus! {

/// The default byte budget of one run.
pub const DEFAULT_BUDGET: usize = 40000;

/// How a run ended.
#[derive(Debug, Clone, Copy, PartialEq, Eq, Structural)]
pub enum RunStatus {
    /// The document was consumed in full.
    Finished,
    /// Suspended: budget exhausted or input starved.
    Bail(BailType),
    /// Grammar violation at the given position.
    Failed(usize, Unexpected),
}

/// The suspended continuation of a basic-mode parse: the parser state
/// (including the absolute position) and the partial string builder. The
/// output stack travels alongside, outside the continuation.
pub struct IterState {
    parser: Parser,
    string: BuildString,
}

impl IterState {
    /// The continuation is internally consistent.
    pub closed spec fn inv(&self) -> bool {
        self.parser.wf()
    }

    /// The given output stack fits this continuation.
    pub closed spec fn compatible(&self, stack: Seq<Value>) -> bool {
        stack_matches(self.parser.shape(), stack)
    }

    /// Every byte this continuation has consumed agrees with the given
    /// input; holds whenever the same buffer is handed back.
    pub closed spec fn seen_within_input(&self, m: Map<int, u8>) -> bool {
        seen_within(self.parser.seen@, m)
    }

    /// The continuation's absolute position in the input.
    pub closed spec fn position_spec(&self) -> usize {
        self.parser.pos
    }

    /// The continuation's absolute position in the input.
    pub fn position(&self) -> (r: usize)
        ensures
            r == self.position_spec(),
    {
        self.parser.pos
    }
}

/// Apply one structural event to the output stack and string builder.
/// Always succeeds: the parser guarantees that an emitted number fragment
/// ranges over consumed digits, which the provider still serves.
fn apply_event_basic<P: InputProvider>(
    e: Event,
    input: &P,
    stack: &mut Vec<Value>,
    string: &mut BuildString,
    Ghost(pre): Ghost<Seq<ShapeTok>>,
    Ghost(post): Ghost<Seq<ShapeTok>>,
    Ghost(seen): Ghost<Map<int, u8>>,
) -> (ok: bool)
    requires
        stack_matches(pre, old(stack)@),
        event_shape_ok(e, pre, post),
        seen_within(seen, input.model()),
        e matches Event::PushNumber(p, data) ==> number_digits_ok(seen, data),
    ensures
        ok,
        stack_matches(post, final(stack)@),
{
    match e {
        Event::PushMap(_) => {
            let ghost s0 = stack@;
            stack.push(Value::empty_map());
            proof {
                lemma_stack_push(pre, s0, ShapeTok::TMap, stack@.last());
            }
            true
        },
        Event::PushArray(_) => {
            let ghost s0 = stack@;
            stack.push(Value::empty_list());
            proof {
                lemma_stack_push(pre, s0, ShapeTok::TList, stack@.last());
            }
            true
        },
        Event::PushNumber(_, data) => {
            proof {
                lemma_range_bytes_digits(
                    input.model(),
                    seen,
                    data.integer.start as int,
                    data.integer.end as int,
                );
            }
            match number_data_to_value(input, &data) {
                Some(v) => {
                    let ghost s0 = stack@;
                    stack.push(v);
                    proof {
                        lemma_stack_push(pre, s0, ShapeTok::TVal, stack@.last());
                    }
                    true
                },
                None => unreached(),
            }
        },
        Event::PushBool(_, v) => {
            let ghost s0 = stack@;
            stack.push(Value::Bool(v));
            proof {
                lemma_stack_push(pre, s0, ShapeTok::TVal, stack@.last());
            }
            true
        },
        Event::PushNull(_) => {
            let ghost s0 = stack@;
            stack.push(Value::Null);
            proof {
                lemma_stack_push(pre, s0, ShapeTok::TVal, stack@.last());
            }
            true
        },
        Event::StartString(_) => {
            *string = BuildString::new();
            true
        },
        Event::AppendStringRange(r) => {
            string.append_range(r, input);
            true
        },
        Event::AppendStringSingle(b) => {
            string.append_single(b, input);
            true
        },
        Event::AppendStringCodepoint(cp) => {
            let bytes = utf8_encode(cp);
            string.append_bytes(&bytes, input);
            true
        },
        Event::FinalizeString(_) => {
            let s = string.take();
            let v = s.finalize(input);
            let ghost s0 = stack@;
            stack.push(v);
            proof {
                lemma_stack_push(pre, s0, ShapeTok::TVal, stack@.last());
            }
            true
        },
        Event::FinalizeMap(_) => {
            // Basic mode adds nothing on map exit; the open map on top of
            // the stack becomes the completed value.
            proof {
                assert(stack@.take(stack@.len() - 1) =~= stack@.take(stack@.len() - 1));
                lemma_stack_fold(pre, stack@, stack@, 1, ShapeTok::TVal);
                assert(post =~= pre.take(pre.len() - 1).push(ShapeTok::TVal));
            }
            true
        },
        Event::FinalizeArray(_) => {
            let ghost s0 = stack@;
            reverse_top_list(stack);
            proof {
                lemma_stack_fold(pre, s0, stack@, 1, ShapeTok::TVal);
                assert(post =~= pre.take(pre.len() - 1).push(ShapeTok::TVal));
            }
            true
        },
        Event::PopIntoMap => {
            let ghost s0 = stack@;
            fold_into_map(stack);
            proof {
                lemma_stack_fold(pre, s0, stack@, 3, ShapeTok::TMap);
            }
            true
        },
        Event::PopIntoArray => {
            let ghost s0 = stack@;
            fold_into_array(stack);
            proof {
                lemma_stack_fold(pre, s0, stack@, 2, ShapeTok::TList);
            }
            true
        },
    }
}

/// Drive the parser until the document completes, the budget (`limit`, an
/// absolute position) is reached, the input is starved, or the grammar is
/// violated.
///
/// Re-entering a run that is starved for input, with input that still does
/// not hold the needed byte, is a no-op: it bails again at once, with the
/// parser, stack and string builder untouched.
pub fn run<P: InputProvider>(
    parser: &mut Parser,
    string: &mut BuildString,
    stack: &mut Vec<Value>,
    input: &P,
    limit: usize,
) -> (r: RunStatus)
    requires
        old(parser).wf(),
        old(parser).pos <= limit,
        stack_matches(old(parser).shape(), old(stack)@),
        seen_within(old(parser).seen@, input.model()),
    ensures
        final(parser).wf(),
        seen_within(final(parser).seen@, input.model()),
        old(parser).pos <= final(parser).pos <= limit,
        final(parser).pos == old(parser).pos || input.model().dom().contains(
            final(parser).pos - 1,
        ),
        r matches RunStatus::Failed(p, why) ==> why != Unexpected::MissingBytes
            && p == final(parser).pos && (why == Unexpected::UnexpectedEnd
            ==> !input.model().dom().contains(p as int)),
        !(r is Failed) ==> stack_matches(final(parser).shape(), final(stack)@),
        r is Finished ==> final(parser).shape() == seq![ShapeTok::TVal] && final(stack)@.len()
            == 1,
        r == RunStatus::Bail(BailType::AwaitInput) ==> final(parser).wants_input_spec()
            && !input.model().dom().contains(final(parser).pos as int) && !input.complete(),
        r == RunStatus::Bail(BailType::Reschedule) ==> final(parser).pos >= limit
            && (final(parser).pos == old(parser).pos || input.model().dom().contains(
            final(parser).pos - 1,
        )),
        (old(parser).wants_input_spec() && !input.model().dom().contains(old(parser).pos as int)
            && !input.complete() && old(parser).pos < limit) ==> (r == RunStatus::Bail(
            BailType::AwaitInput,
        ) && *final(parser) == *old(parser) && final(stack)@ == old(stack)@ && *final(string)
            == *old(string)),
        (old(parser).wants_input_spec() && !input.model().dom().contains(old(parser).pos as int)
            && input.complete() && old(parser).pos < limit && crate::parser::feed_rejected(
            *old(parser),
            Feed::End,
        )) ==> (r == RunStatus::Failed(old(parser).pos, Unexpected::UnexpectedEnd)
            && *final(parser) == *old(parser)),
{
    loop
        invariant
            parser.wf(),
            old(parser).pos <= parser.pos <= limit,
            stack_matches(parser.shape(), stack@),
            seen_within(parser.seen@, input.model()),
            parser.pos == old(parser).pos || input.model().dom().contains(parser.pos - 1),
            (old(parser).wants_input_spec() && !input.model().dom().contains(
                old(parser).pos as int,
            ) && !input.complete() && old(parser).pos < limit) ==> (*parser == *old(parser)
                && stack@ == old(stack)@ && *string == *old(string)),
            (old(parser).wants_input_spec() && !input.model().dom().contains(
                old(parser).pos as int,
            ) && input.complete() && old(parser).pos < limit && crate::parser::feed_rejected(
                *old(parser),
                Feed::End,
            )) ==> (*parser == *old(parser) && stack@ == old(stack)@ && *string == *old(string)),
        decreases limit - parser.pos, nc_rank(*parser),
    {
        let feed: Feed;
        if parser.wants_input() {
            if parser.pos >= limit {
                return RunStatus::Bail(BailType::Reschedule);
            }
            match input.byte(parser.pos) {
                StreamingInputResult::Got(b) => {
                    feed = Feed::Byte(b);
                },
                StreamingInputResult::AwaitInput => {
                    return RunStatus::Bail(BailType::AwaitInput);
                },
                StreamingInputResult::Eof => {
                    feed = Feed::End;
                },
            }
        } else {
            feed = Feed::NoInput;
        }
        let ghost pre = *parser;
        proof {
            assert(feed matches Feed::Byte(b) ==> input.model().dom().contains(pre.pos as int)
                && input.model()[pre.pos as int] == b);
        }
        let res = parser.step(feed);
        proof {
            assert forall|p: int| #[trigger] parser.seen@.dom().contains(p) implies
                input.model().dom().contains(p) && input.model()[p] == parser.seen@[p] by {
                if parser.seen@ != pre.seen@ && p == pre.pos as int {
                } else {
                    assert(pre.seen@.dom().contains(p) && parser.seen@[p] == pre.seen@[p]);
                }
            }
        }
        match res {
            StepResult::Consumed => {},
            StepResult::ConsumedEvent(e) | StepResult::Event(e) => {
                let _ok = apply_event_basic(
                    e,
                    input,
                    stack,
                    string,
                    Ghost(pre.shape()),
                    Ghost(parser.shape()),
                    Ghost(parser.seen@),
                );
            },
            StepResult::Done => {
                return RunStatus::Finished;
            },
            StepResult::Failed(p, why) => {
                return RunStatus::Failed(p, why);
            },
        }
    }
}

/// The outcome of a basic-mode entry point: the completed document, a
/// suspension (the output stack and the continuation to re-enter), or a
/// grammar error with its absolute position and reason.
pub enum ParseOutcome {
    Complete(Value),
    Iter(Vec<Value>, IterState),
    Failed(usize, Unexpected),
}

/// Parse a single complete buffer with a given byte budget. A budget
/// larger than the whole buffer completes or errors in this one call,
/// never suspending.
pub fn parse_with_budget(input: &SingleBinaryProvider, budget: usize) -> (r: ParseOutcome)
    ensures
        r matches ParseOutcome::Iter(stack, st) ==> st.inv() && st.compatible(stack@)
            && st.seen_within_input(input.model()) && st.position_spec() == budget,
        r matches ParseOutcome::Failed(p, why) ==> why != Unexpected::MissingBytes && p
            <= input.data@.len() && (why == Unexpected::UnexpectedEnd ==> p
            == input.data@.len()),
        input.data@.len() < budget ==> !(r is Iter),
        (input.data@.len() == 0 && budget >= 1) ==> r == ParseOutcome::Failed(
            0,
            Unexpected::UnexpectedEnd,
        ),
{
    let mut parser = Parser::new();
    let mut string = BuildString::new();
    let mut stack: Vec<Value> = Vec::new();
    proof {
        assert(stack_matches(parser.shape(), stack@));
    }
    match run(&mut parser, &mut string, &mut stack, input, budget) {
        RunStatus::Finished => {
            match stack.pop() {
                Some(v) => ParseOutcome::Complete(v),
                None => unreached(),
            }
        },
        RunStatus::Bail(_) => ParseOutcome::Iter(stack, IterState { parser, string }),
        RunStatus::Failed(p, why) => ParseOutcome::Failed(p, why),
    }
}

/// Parse a single complete buffer with the default budget; may complete in
/// one call or return a continuation, and never suspends when the buffer
/// is smaller than the budget.
pub fn parse(input: &SingleBinaryProvider) -> (r: ParseOutcome)
    ensures
        r matches ParseOutcome::Iter(stack, st) ==> st.inv() && st.compatible(stack@)
            && st.seen_within_input(input.model()),
        r matches ParseOutcome::Failed(p, why) ==> why != Unexpected::MissingBytes && p
            <= input.data@.len() && (why == Unexpected::UnexpectedEnd ==> p
            == input.data@.len()),
        input.data@.len() < DEFAULT_BUDGET ==> !(r is Iter),
        input.data@.len() == 0 ==> r == ParseOutcome::Failed(0, Unexpected::UnexpectedEnd),
{
    parse_with_budget(input, DEFAULT_BUDGET)
}

/// Resume a suspended basic-mode parse with a given byte budget. A budget
/// that reaches past the whole buffer finishes the parse in this call.
pub fn parse_iter_with_budget(
    input: &SingleBinaryProvider,
    stack: Vec<Value>,
    state: IterState,
    budget: usize,
) -> (r: ParseOutcome)
    requires
        state.inv(),
        state.compatible(stack@),
        state.seen_within_input(input.model()),
    ensures
        r matches ParseOutcome::Iter(s2, st2) ==> st2.inv() && st2.compatible(s2@)
            && st2.seen_within_input(input.model()) && state.position_spec()
            <= st2.position_spec() && (state.position_spec() + budget <= usize::MAX
            ==> st2.position_spec() == state.position_spec() + budget),
        r matches ParseOutcome::Failed(p, why) ==> why != Unexpected::MissingBytes && (p
            <= input.data@.len() || p == state.position_spec()) && (why
            == Unexpected::UnexpectedEnd ==> !input.model().dom().contains(p as int)),
        (budget >= 1 && state.position_spec() + budget > input.data@.len()
            && state.position_spec() + budget <= usize::MAX) ==> !(r is Iter),
{
    let IterState { mut parser, mut string } = state;
    let limit = if budget > usize::MAX - parser.pos {
        usize::MAX
    } else {
        parser.pos + budget
    };
    let mut stack = stack;
    match run(&mut parser, &mut string, &mut stack, input, limit) {
        RunStatus::Finished => {
            match stack.pop() {
                Some(v) => ParseOutcome::Complete(v),
                None => unreached(),
            }
        },
        RunStatus::Bail(_) => ParseOutcome::Iter(stack, IterState { parser, string }),
        RunStatus::Failed(p, why) => ParseOutcome::Failed(p, why),
    }
}

/// Resume a suspended basic-mode parse with the default budget.
pub fn parse_iter(
    input: &SingleBinaryProvider,
    stack: Vec<Value>,
    state: IterState,
) -> (r: ParseOutcome)
    requires
        state.inv(),
        state.compatible(stack@),
        state.seen_within_input(input.model()),
    ensures
        r matches ParseOutcome::Iter(s2, st2) ==> st2.inv() && st2.compatible(s2@)
            && st2.seen_within_input(input.model()) && state.position_spec()
            <= st2.position_spec() && (state.position_spec() + DEFAULT_BUDGET <= usize::MAX
            ==> st2.position_spec() == state.position_spec() + DEFAULT_BUDGET),
        r matches ParseOutcome::Failed(p, why) ==> why != Unexpected::MissingBytes && (p
            <= input.data@.len() || p == state.position_spec()) && (why
            == Unexpected::UnexpectedEnd ==> !input.model().dom().contains(p as int)),
{
    parse_iter_with_budget(input, stack, state, DEFAULT_BUDGET)
}

} // verus!
