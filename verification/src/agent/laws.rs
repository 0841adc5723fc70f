//! What holds of the turn loop as a whole.

use vstd::prelude::*;
use crate::agent::capability;
use crate::agent::context;
use crate::agent::context_manager;
use crate::agent::context_manager::ContextConfig;
use crate::agent::context_manager::ManagerView;
use crate::agent::control::ControlView;
use crate::agent::gate;
use crate::agent::gate::ApprovalAnswer;
use crate::agent::gate::DecisionView;
use crate::agent::gate::GateStepView;
use crate::agent::harness;
use crate::agent::harness::ActionView;
use crate::agent::harness::BatchView;
use crate::agent::harness::HarnessEvent;
use crate::agent::harness::HarnessView;
use crate::agent::harness::PhaseView;
use crate::agent::types;
use crate::agent::types::ApprovalDecision;
use crate::agent::types::MessageView;
use crate::agent::types::ToolCallView;
use crate::agent::types::ToolResultView;

verus! {

/// Whether the system prompt is the first message and the only one of its kind.
pub open spec fn prompt_first(messages: Seq<MessageView>) -> bool {
    &&& messages.len() > 0
    &&& messages[0] is System
    &&& forall|i: int| 0 < i < messages.len() ==> !((#[trigger] messages[i]) is System)
}

/// Whether a batch works through the calls of the latest answer: the call at hand
/// and the rest are those that have no result yet, and the results carry the ids of
/// their calls in order.
pub open spec fn batch_sound(h: HarnessView, b: BatchView) -> bool {
    &&& h.ctx.messages.len() > 0
    &&& h.ctx.messages.last() matches MessageView::Assistant(turn) && ({
        let calls = harness::first(turn.tool_calls, h.config.max_tools_per_turn as nat);
        &&& b.results.len() < calls.len()
        &&& b.call == calls[b.results.len() as int]
        &&& b.rest == calls.skip(b.results.len() as int + 1)
        &&& forall|i: int|
            0 <= i < b.results.len() ==> (#[trigger] b.results[i]).tool_call_id == calls[i].id
    })
}

/// Whether the results of tools, where they are this message, directly follow the turn
/// that called the tools.
pub open spec fn follows_its_turn(messages: Seq<MessageView>, i: int) -> bool {
    messages[i] is ToolResults ==> i > 0 && (messages[i - 1] matches MessageView::Assistant(turn)
        && turn.tool_calls.len() > 0)
}

/// Whether all results of tools that were added directly follow their turns.
pub open spec fn added_in_order(before: Seq<MessageView>, after: Seq<MessageView>) -> bool {
    forall|i: int| before.len() <= i < after.len() ==> #[trigger] follows_its_turn(after, i)
}

/// What holds between any two steps.
pub open spec fn sound(h: HarnessView) -> bool {
    &&& h.phase != PhaseView::Fresh ==> prompt_first(h.ctx.messages)
    &&& h.phase == PhaseView::Fresh ==> forall|i: int|
        0 < i < h.ctx.messages.len() ==> !((#[trigger] h.ctx.messages[i]) is System)
    &&& (h.phase == PhaseView::Perceiving || h.phase == PhaseView::Recalling || h.phase
        == PhaseView::Prompting) ==> !h.ctx.at_limit()
    &&& match h.phase {
        PhaseView::Gating(b) => batch_sound(h, b),
        PhaseView::Asking(b) => batch_sound(h, b),
        PhaseView::Running(b) => batch_sound(h, b),
        _ => true,
    }
}

proof fn lemma_push_keeps_first(messages: Seq<MessageView>, message: MessageView)
    requires
        prompt_first(messages),
        !(message is System),
    ensures
        prompt_first(messages.push(message)),
{
    let now = messages.push(message);
    assert forall|i: int| 0 < i < now.len() implies !((#[trigger] now[i]) is System) by {
        if i < messages.len() {
            assert(now[i] == messages[i]);
        }
    }
}

proof fn lemma_prompt_keeps_first(messages: Seq<MessageView>, prompt: Seq<char>)
    requires
        forall|i: int| 0 < i < messages.len() ==> !((#[trigger] messages[i]) is System),
    ensures
        prompt_first(context::prompted(messages, prompt)),
{
    let now = context::prompted(messages, prompt);
    assert forall|i: int| 0 < i < now.len() implies !((#[trigger] now[i]) is System) by {
        if messages.len() > 0 && !(messages[0] is System) {
            assert(now[i] == messages[i - 1]);
        } else {
            assert(now[i] == messages[i]);
        }
    }
}

proof fn lemma_with_all(m: ManagerView, messages: Seq<MessageView>)
    requires
        prompt_first(messages),
        m.history.len() == 0,
    ensures
        m.with_all(messages).system == Some(messages[0]),
        m.with_all(messages).history == messages.skip(1),
    decreases messages.len(),
{
    if messages.len() == 1 {
        assert(messages.drop_last() =~= Seq::<MessageView>::empty());
        assert(m.with_all(messages.drop_last()) == m);
        assert(messages.skip(1) =~= m.history);
    } else {
        let rest = messages.drop_last();
        assert forall|i: int| 0 < i < rest.len() implies !((#[trigger] rest[i]) is System) by {
            assert(rest[i] == messages[i]);
        }
        lemma_with_all(m, rest);
        assert(messages.last() == messages[messages.len() - 1]);
        assert(rest.skip(1).push(messages.last()) =~= messages.skip(1));
    }
}

/// Compaction keeps the prompt and the latest messages.
proof fn lemma_compacted(h: HarnessView)
    requires
        prompt_first(h.ctx.messages),
    ensures
        h.overflow() < h.ctx.messages.len(),
        h.compacted().ctx.messages == seq![h.ctx.messages[0]] + h.ctx.messages.skip(
            1 + h.overflow() as int,
        ),
        prompt_first(h.compacted().ctx.messages),
{
    let m = h.managed();
    let messages = h.ctx.messages;
    let blank = ManagerView {
        config: ContextConfig {
            max_context_length: h.config.context_window,
            response_buffer: h.config.max_tokens as usize,
            min_messages_preserve: 4,
        },
        system: None,
        history: Seq::empty(),
    };
    assert(m == blank.with_all(messages));
    lemma_with_all(blank, messages);
    context_manager::lemma_compaction(m);
    let kept = m.history.skip(h.overflow() as int);
    assert(kept =~= messages.skip(1 + h.overflow() as int));
    let now = h.compacted().ctx.messages;
    assert forall|i: int| 0 < i < now.len() implies !((#[trigger] now[i]) is System) by {
        assert(now[i] == messages[i + h.overflow()]);
    }
}

proof fn lemma_requested(h: HarnessView)
    requires
        prompt_first(h.ctx.messages),
    ensures
        sound(h.requested().after),
        h.requested().after.ctx.messages.len() <= h.ctx.messages.len(),
{
    lemma_compacted(h);
}

proof fn lemma_handled(h: HarnessView, m: ControlView, now_ms: u64)
    requires
        prompt_first(h.ctx.messages),
    ensures
        prompt_first(h.handled(m, now_ms).0.ctx.messages),
        h.handled(m, now_ms).0.phase == h.phase,
        h.handled(m, now_ms).0.config == h.config,
{
    if let ControlView::UserInput { text } = m {
        lemma_push_keeps_first(h.ctx.messages, types::user_text_view(text, now_ms));
    }
}

proof fn lemma_turned(h: HarnessView)
    requires
        prompt_first(h.ctx.messages),
    ensures
        sound(h.turned().after),
        h.turned().after.ctx == h.ctx,
        h.turned().action == ActionView::PollControl,
{
}

/// Whether the results are those of all calls of the batch, in order.
pub open spec fn answers_all(results: Seq<ToolResultView>, calls: Seq<ToolCallView>) -> bool {
    &&& results.len() == calls.len()
    &&& forall|i: int|
        0 <= i < results.len() ==> (#[trigger] results[i]).tool_call_id == calls[i].id
}

proof fn lemma_next(h: HarnessView, b: BatchView, result: ToolResultView)
    requires
        prompt_first(h.ctx.messages),
        batch_sound(h, b),
        result.tool_call_id == b.call.id,
    ensures
        sound(h.next_call(b.rest, b.results.push(result)).after),
        b.rest.len() == 0 ==> h.next_call(b.rest, b.results.push(result)).after.ctx.messages.last()
            == (MessageView::ToolResults { results: b.results.push(result) }) && answers_all(
            b.results.push(result),
            harness::first(
                h.ctx.messages.last()->Assistant_0.tool_calls,
                h.config.max_tools_per_turn as nat,
            ),
        ),
        !(h.next_call(b.rest, b.results.push(result)).action is Run),
        !(h.next_call(b.rest, b.results.push(result)).action is Stream),
        added_in_order(
            h.ctx.messages,
            h.next_call(b.rest, b.results.push(result)).after.ctx.messages,
        ),
{
    let results = b.results.push(result);
    let turn = h.ctx.messages.last()->Assistant_0;
    let calls = harness::first(turn.tool_calls, h.config.max_tools_per_turn as nat);
    let message = MessageView::ToolResults { results };
    assert forall|i: int| 0 <= i < results.len() implies (#[trigger] results[i]).tool_call_id
        == calls[i].id by {
        if i < b.results.len() {
            assert(results[i] == b.results[i]);
        }
    }
    if b.rest.len() == 0 {
        lemma_push_keeps_first(h.ctx.messages, message);
        let now = HarnessView { ctx: h.ctx.with_message(message), ..h };
        lemma_turned(now);
    } else {
        assert(b.rest[0] == calls[results.len() as int]);
        assert(b.rest.drop_first() =~= calls.skip(results.len() as int + 1));
    }
}

proof fn lemma_decided(h: HarnessView, b: BatchView, decision: DecisionView, now_ms: u64)
    requires
        prompt_first(h.ctx.messages),
        batch_sound(h, b),
    ensures
        sound(h.decided(b, decision, now_ms).after),
        h.decided(b, decision, now_ms).action is Run ==> decision == DecisionView::Proceed
            && h.decided(b, decision, now_ms).action == ActionView::Run(b.call.name, b.call.input),
        !(h.decided(b, decision, now_ms).action is Stream),
        added_in_order(h.ctx.messages, h.decided(b, decision, now_ms).after.ctx.messages),
{
    match decision {
        DecisionView::Skip(reason) => {
            lemma_next(h, b, types::rejected_view(b.call.id, reason));
        },
        DecisionView::Redirect(new_intent) => {
            let text = types::user_text_view(
                "[User redirect] New direction: "@ + new_intent,
                now_ms,
            );
            let results = MessageView::ToolResults { results: b.results };
            lemma_push_keeps_first(h.ctx.messages, results);
            lemma_push_keeps_first(h.ctx.messages.push(results), text);
            let now = HarnessView {
                ctx: h.ctx.with_message(results).with_message(text),
                ..h
            };
            lemma_turned(now);
        },
        DecisionView::Proceed => {
            lemma_next(
                h,
                b,
                ToolResultView {
                    tool_call_id: b.call.id,
                    content: "Unknown tool: "@ + b.call.name,
                    is_error: true,
                },
            );
        },
    }
}

proof fn lemma_streamed(
    h: HarnessView,
    text: Seq<char>,
    thinking: Seq<char>,
    calls: Seq<ToolCallView>,
)
    requires
        prompt_first(h.ctx.messages),
    ensures
        sound(h.streamed(text, thinking, calls).after),
        !(h.streamed(text, thinking, calls).action is Run),
        !(h.streamed(text, thinking, calls).action is Stream),
        added_in_order(h.ctx.messages, h.streamed(text, thinking, calls).after.ctx.messages),
{
    reveal(HarnessView::streamed);
    let turn = types::AssistantTurnView {
        thinking: harness::non_empty(thinking),
        text: harness::non_empty(text),
        tool_calls: calls,
    };
    let message = MessageView::Assistant(turn);
    lemma_push_keeps_first(h.ctx.messages, message);
    let now = HarnessView { ctx: h.ctx.with_message(message), ..h };
    let batch = harness::first(calls, h.config.max_tools_per_turn as nat);
    if calls.len() > 0 {
        if batch.len() == 0 {
            let results = MessageView::ToolResults { results: Seq::empty() };
            lemma_push_keeps_first(now.ctx.messages, results);
            lemma_turned(HarnessView { ctx: now.ctx.with_message(results), ..now });
        } else {
            assert(now.ctx.messages.last() == message);
            assert(batch.drop_first() =~= batch.skip(1));
        }
    }
}

proof fn lemma_controlled(h: HarnessView, m: ControlView, now_ms: u64)
    requires
        prompt_first(h.ctx.messages),
    ensures
        sound(h.controlled(m, now_ms).after),
        !(h.controlled(m, now_ms).action is Run),
        !(h.controlled(m, now_ms).action is Stream),
        added_in_order(h.ctx.messages, h.controlled(m, now_ms).after.ctx.messages),
{
    reveal(HarnessView::controlled);
    lemma_handled(h, m, now_ms);
}

/// A new loop is sound, and every step keeps a loop sound: the system prompt stays
/// the first message and the only one of its kind, and while tools are worked on,
/// each result carries the id of its call, in the order of the calls. Once the session
/// has begun, results are added directly behind the turn that called the tools.
pub proof fn lemma_step_keeps_sound(h: HarnessView, event: HarnessEvent)
    requires
        sound(h),
    ensures
        sound(harness::step_view(h, event).after),
        h.phase != PhaseView::Fresh ==> added_in_order(
            h.ctx.messages,
            harness::step_view(h, event).after.ctx.messages,
        ),
{
    let base = h.at(PhaseView::Draining);
    match (h.phase, event) {
        (PhaseView::Fresh, HarnessEvent::Prompted(prompt)) => {
            reveal(HarnessView::started);
            lemma_prompt_keeps_first(h.ctx.messages, prompt@);
        },
        (PhaseView::Draining, HarnessEvent::Control { message, now_ms }) => {
            lemma_controlled(base, message@, now_ms);
        },
        (PhaseView::Draining, HarnessEvent::NoControl) => {
            reveal(HarnessView::drained);
        },
        (PhaseView::Draining, HarnessEvent::ControlClosed) => {
            reveal(HarnessView::drained);
        },
        (PhaseView::Perceiving, HarnessEvent::Perceived { blocks, now_ms }) => {
            reveal(HarnessView::perceived);
            let seen = types::blocks_view(blocks@);
            let message = MessageView::User { content: seen, timestamp_ms: now_ms };
            if seen.len() > 0 {
                lemma_push_keeps_first(base.ctx.messages, message);
            }
        },
        (PhaseView::Waiting, HarnessEvent::Control { message, now_ms }) => {
            lemma_controlled(base, message@, now_ms);
        },
        (PhaseView::Recalling, HarnessEvent::Recalled(lines)) => {
            reveal(HarnessView::recalled);
        },
        (PhaseView::Prompting, HarnessEvent::Prompted(prompt)) => {
            reveal(HarnessView::prompted);
            let full = base.full_prompt(prompt@);
            lemma_prompt_keeps_first(base.ctx.messages, full);
            lemma_requested(HarnessView { ctx: base.ctx.with_prompt(full), ..base });
        },
        (PhaseView::Streaming { text, thinking, calls }, HarnessEvent::Chunk(chunk)) => {
            reveal(HarnessView::chunked);
            lemma_streamed(base, text, thinking, calls);
        },
        (PhaseView::Streaming { text, thinking, calls }, HarnessEvent::StreamEnded) => {
            lemma_streamed(base, text, thinking, calls);
        },
        (PhaseView::Streaming { text, thinking, calls }, HarnessEvent::Failed(error)) => {
            reveal(HarnessView::failed);
        },
        (
            PhaseView::Streaming { text, thinking, calls },
            HarnessEvent::Control { message, now_ms },
        ) => {
            reveal(HarnessView::interrupted);
            lemma_handled(h, message@, now_ms);
        },
        (PhaseView::Gating(b), HarnessEvent::Checked { needed, ticket, now_ms }) => {
            reveal(HarnessView::gated);
            let (gate_after, step) = gate::check_view(
                base.gate,
                b.call,
                base.ctx.control_mode,
                capability::caps_view(needed@),
                ticket@,
                now_ms,
            );
            let now = HarnessView { gate: gate_after, ..base };
            if let GateStepView::Decided(decision) = step {
                lemma_decided(now, b, decision, now_ms);
            }
        },
        (PhaseView::Asking(b), HarnessEvent::Answered { answer, now_ms }) => {
            reveal(HarnessView::answered);
            let (gate_after, decision) = gate::conclude_view(
                base.gate,
                b.call.name,
                answer,
                now_ms,
            );
            match decision {
                Ok(d) => {
                    lemma_decided(HarnessView { gate: gate_after, ..base }, b, d, now_ms);
                },
                Err(_) => {
                    reveal(HarnessView::failed);
                },
            }
        },
        (PhaseView::Running(b), HarnessEvent::Ran(run)) => {
            reveal(HarnessView::ran);
            let result = match run {
                harness::ToolRun::Finished(output) => ToolResultView {
                    tool_call_id: b.call.id,
                    content: harness::output_text(output.content@),
                    is_error: output.is_error,
                },
                harness::ToolRun::Failed(error) => ToolResultView {
                    tool_call_id: b.call.id,
                    content: error@,
                    is_error: true,
                },
            };
            lemma_next(base, b, result);
        },
        (PhaseView::Healing { error }, HarnessEvent::Prompted(prompt)) => {
            reveal(HarnessView::healed);
            let now = HarnessView {
                note: Some(harness::heal_text(base.attempts as nat, error)),
                ..base
            };
            lemma_prompt_keeps_first(base.ctx.messages, now.full_prompt(prompt@));
        },
        _ => {},
    }
}

/// A tool is run only where the capability gate let its call pass: at once, with all needed
/// rights granted and in a mode that does not ask, or after the user approved.
pub proof fn lemma_run_passed_the_gate(h: HarnessView, event: HarnessEvent)
    requires
        sound(h),
        harness::step_view(h, event).action is Run,
    ensures
        match (h.phase, event) {
            (PhaseView::Gating(b), HarnessEvent::Checked { needed, ticket, now_ms }) => {
                &&& harness::step_view(h, event).action == ActionView::Run(
                    b.call.name,
                    b.call.input,
                )
                &&& !gate::must_ask(h.ctx.control_mode, b.call.name)
                &&& forall|i: int|
                    0 <= i < needed@.len() ==> h.gate.capabilities.contains(
                        #[trigger] capability::caps_view(needed@)[i],
                    )
            },
            (PhaseView::Asking(b), HarnessEvent::Answered { answer, now_ms }) => {
                &&& harness::step_view(h, event).action == ActionView::Run(
                    b.call.name,
                    b.call.input,
                )
                &&& answer == ApprovalAnswer::Answered(ApprovalDecision::Approved)
            },
            _ => false,
        },
{
    let base = h.at(PhaseView::Draining);
    match (h.phase, event) {
        (PhaseView::Fresh, HarnessEvent::Prompted(prompt)) => {
            reveal(HarnessView::started);
        },
        (PhaseView::Draining, HarnessEvent::Control { message, now_ms }) => {
            lemma_controlled(base, message@, now_ms);
        },
        (PhaseView::Draining, HarnessEvent::NoControl) => {
            reveal(HarnessView::drained);
        },
        (PhaseView::Draining, HarnessEvent::ControlClosed) => {
            reveal(HarnessView::drained);
        },
        (PhaseView::Perceiving, HarnessEvent::Perceived { blocks, now_ms }) => {
            reveal(HarnessView::perceived);
        },
        (PhaseView::Waiting, HarnessEvent::Control { message, now_ms }) => {
            lemma_controlled(base, message@, now_ms);
        },
        (PhaseView::Recalling, HarnessEvent::Recalled(lines)) => {
            reveal(HarnessView::recalled);
        },
        (PhaseView::Prompting, HarnessEvent::Prompted(prompt)) => {
            reveal(HarnessView::prompted);
        },
        (PhaseView::Streaming { text, thinking, calls }, HarnessEvent::Chunk(chunk)) => {
            reveal(HarnessView::chunked);
            lemma_streamed(base, text, thinking, calls);
        },
        (PhaseView::Streaming { text, thinking, calls }, HarnessEvent::StreamEnded) => {
            lemma_streamed(base, text, thinking, calls);
        },
        (PhaseView::Streaming { text, thinking, calls }, HarnessEvent::Failed(error)) => {
            reveal(HarnessView::failed);
        },
        (
            PhaseView::Streaming { text, thinking, calls },
            HarnessEvent::Control { message, now_ms },
        ) => {
            reveal(HarnessView::interrupted);
        },
        (PhaseView::Gating(b), HarnessEvent::Checked { needed, ticket, now_ms }) => {
            reveal(HarnessView::gated);
            let caps = capability::caps_view(needed@);
            let (gate_after, step) = gate::check_view(
                base.gate,
                b.call,
                base.ctx.control_mode,
                caps,
                ticket@,
                now_ms,
            );
            let now = HarnessView { gate: gate_after, ..base };
            if let GateStepView::Decided(decision) = step {
                lemma_decided(now, b, decision, now_ms);
            }
            gate::lemma_gate(base.gate, b.call, base.ctx.control_mode, caps, ticket@, now_ms);
        },
        (PhaseView::Asking(b), HarnessEvent::Answered { answer, now_ms }) => {
            reveal(HarnessView::answered);
            let (gate_after, decision) = gate::conclude_view(
                base.gate,
                b.call.name,
                answer,
                now_ms,
            );
            match decision {
                Ok(d) => {
                    lemma_decided(HarnessView { gate: gate_after, ..base }, b, d, now_ms);
                },
                Err(_) => {
                    reveal(HarnessView::failed);
                },
            }
        },
        (PhaseView::Running(b), HarnessEvent::Ran(run)) => {
            reveal(HarnessView::ran);
            let result = match run {
                harness::ToolRun::Finished(output) => ToolResultView {
                    tool_call_id: b.call.id,
                    content: harness::output_text(output.content@),
                    is_error: output.is_error,
                },
                harness::ToolRun::Failed(error) => ToolResultView {
                    tool_call_id: b.call.id,
                    content: error@,
                    is_error: true,
                },
            };
            lemma_next(base, b, result);
        },
        (PhaseView::Healing { error }, HarnessEvent::Prompted(prompt)) => {
            reveal(HarnessView::healed);
        },
        _ => {},
    }
}

/// A session at its step limit asks no model any more: where the waiting messages
/// are taken it ends, and no step of a sound loop at its limit sends a request.
pub proof fn lemma_limit_is_kept(h: HarnessView, event: HarnessEvent)
    requires
        sound(h),
        h.ctx.at_limit(),
    ensures
        !(harness::step_view(h, event).action is Stream),
        h.phase == PhaseView::Draining && event is NoControl ==> harness::step_view(h, event).action
            == ActionView::Finish(harness::HarnessOutcome::StepLimit),
{
    let base = h.at(PhaseView::Draining);
    match (h.phase, event) {
        (PhaseView::Fresh, HarnessEvent::Prompted(prompt)) => {
            reveal(HarnessView::started);
        },
        (PhaseView::Draining, HarnessEvent::Control { message, now_ms }) => {
            lemma_controlled(base, message@, now_ms);
        },
        (PhaseView::Draining, HarnessEvent::NoControl) => {
            reveal(HarnessView::drained);
        },
        (PhaseView::Draining, HarnessEvent::ControlClosed) => {
            reveal(HarnessView::drained);
        },
        (PhaseView::Waiting, HarnessEvent::Control { message, now_ms }) => {
            lemma_controlled(base, message@, now_ms);
        },
        (PhaseView::Streaming { text, thinking, calls }, HarnessEvent::Chunk(chunk)) => {
            reveal(HarnessView::chunked);
            lemma_streamed(base, text, thinking, calls);
        },
        (PhaseView::Streaming { text, thinking, calls }, HarnessEvent::StreamEnded) => {
            lemma_streamed(base, text, thinking, calls);
        },
        (PhaseView::Streaming { text, thinking, calls }, HarnessEvent::Failed(error)) => {
            reveal(HarnessView::failed);
        },
        (
            PhaseView::Streaming { text, thinking, calls },
            HarnessEvent::Control { message, now_ms },
        ) => {
            reveal(HarnessView::interrupted);
        },
        (PhaseView::Gating(b), HarnessEvent::Checked { needed, ticket, now_ms }) => {
            reveal(HarnessView::gated);
            let (gate_after, step) = gate::check_view(
                base.gate,
                b.call,
                base.ctx.control_mode,
                capability::caps_view(needed@),
                ticket@,
                now_ms,
            );
            if let GateStepView::Decided(decision) = step {
                lemma_decided(HarnessView { gate: gate_after, ..base }, b, decision, now_ms);
            }
        },
        (PhaseView::Asking(b), HarnessEvent::Answered { answer, now_ms }) => {
            reveal(HarnessView::answered);
            let (gate_after, decision) = gate::conclude_view(
                base.gate,
                b.call.name,
                answer,
                now_ms,
            );
            match decision {
                Ok(d) => {
                    lemma_decided(HarnessView { gate: gate_after, ..base }, b, d, now_ms);
                },
                Err(_) => {
                    reveal(HarnessView::failed);
                },
            }
        },
        (PhaseView::Running(b), HarnessEvent::Ran(run)) => {
            reveal(HarnessView::ran);
            let result = match run {
                harness::ToolRun::Finished(output) => ToolResultView {
                    tool_call_id: b.call.id,
                    content: harness::output_text(output.content@),
                    is_error: output.is_error,
                },
                harness::ToolRun::Failed(error) => ToolResultView {
                    tool_call_id: b.call.id,
                    content: error@,
                    is_error: true,
                },
            };
            lemma_next(base, b, result);
        },
        (PhaseView::Healing { error }, HarnessEvent::Prompted(prompt)) => {
            reveal(HarnessView::healed);
        },
        _ => {},
    }
}

/// Every request carries the prompt that the agent gave for this very turn, with what
/// memory and the latest error add to it.
pub proof fn lemma_prompt_is_of_the_turn(h: HarnessView, event: HarnessEvent)
    requires
        sound(h),
        harness::step_view(h, event).action is Stream,
    ensures
        h.phase == PhaseView::Prompting,
        event matches HarnessEvent::Prompted(prompt) && harness::step_view(h, event).action
            matches ActionView::Stream(request) && request.system == Some(
            h.full_prompt(prompt@),
        ),
{
    let base = h.at(PhaseView::Draining);
    match (h.phase, event) {
        (PhaseView::Fresh, HarnessEvent::Prompted(prompt)) => {
            reveal(HarnessView::started);
        },
        (PhaseView::Draining, HarnessEvent::Control { message, now_ms }) => {
            lemma_controlled(base, message@, now_ms);
        },
        (PhaseView::Draining, HarnessEvent::NoControl) => {
            reveal(HarnessView::drained);
        },
        (PhaseView::Draining, HarnessEvent::ControlClosed) => {
            reveal(HarnessView::drained);
        },
        (PhaseView::Perceiving, HarnessEvent::Perceived { blocks, now_ms }) => {
            reveal(HarnessView::perceived);
        },
        (PhaseView::Waiting, HarnessEvent::Control { message, now_ms }) => {
            lemma_controlled(base, message@, now_ms);
        },
        (PhaseView::Recalling, HarnessEvent::Recalled(lines)) => {
            reveal(HarnessView::recalled);
        },
        (PhaseView::Prompting, HarnessEvent::Prompted(prompt)) => {
            reveal(HarnessView::prompted);
            let full = base.full_prompt(prompt@);
            let now = HarnessView { ctx: base.ctx.with_prompt(full), ..base };
            lemma_prompt_keeps_first(base.ctx.messages, full);
            context::lemma_prompt(base.ctx, full);
            lemma_compacted(now);
            assert(now.compacted().ctx.messages[0] == now.ctx.messages[0]);
        },
        (PhaseView::Streaming { text, thinking, calls }, HarnessEvent::Chunk(chunk)) => {
            reveal(HarnessView::chunked);
            lemma_streamed(base, text, thinking, calls);
        },
        (PhaseView::Streaming { text, thinking, calls }, HarnessEvent::StreamEnded) => {
            lemma_streamed(base, text, thinking, calls);
        },
        (PhaseView::Streaming { text, thinking, calls }, HarnessEvent::Failed(error)) => {
            reveal(HarnessView::failed);
        },
        (
            PhaseView::Streaming { text, thinking, calls },
            HarnessEvent::Control { message, now_ms },
        ) => {
            reveal(HarnessView::interrupted);
        },
        (PhaseView::Gating(b), HarnessEvent::Checked { needed, ticket, now_ms }) => {
            reveal(HarnessView::gated);
            let (gate_after, step) = gate::check_view(
                base.gate,
                b.call,
                base.ctx.control_mode,
                capability::caps_view(needed@),
                ticket@,
                now_ms,
            );
            if let GateStepView::Decided(decision) = step {
                lemma_decided(HarnessView { gate: gate_after, ..base }, b, decision, now_ms);
            }
        },
        (PhaseView::Asking(b), HarnessEvent::Answered { answer, now_ms }) => {
            reveal(HarnessView::answered);
            let (gate_after, decision) = gate::conclude_view(
                base.gate,
                b.call.name,
                answer,
                now_ms,
            );
            match decision {
                Ok(d) => {
                    lemma_decided(HarnessView { gate: gate_after, ..base }, b, d, now_ms);
                },
                Err(_) => {
                    reveal(HarnessView::failed);
                },
            }
        },
        (PhaseView::Running(b), HarnessEvent::Ran(run)) => {
            reveal(HarnessView::ran);
            let result = match run {
                harness::ToolRun::Finished(output) => ToolResultView {
                    tool_call_id: b.call.id,
                    content: harness::output_text(output.content@),
                    is_error: output.is_error,
                },
                harness::ToolRun::Failed(error) => ToolResultView {
                    tool_call_id: b.call.id,
                    content: error@,
                    is_error: true,
                },
            };
            lemma_next(base, b, result);
        },
        (PhaseView::Healing { error }, HarnessEvent::Prompted(prompt)) => {
            reveal(HarnessView::healed);
        },
        _ => {},
    }
}

/// An error is healed as often as the settings allow, and the next one ends the
/// session as a failure. A stop ends the session at once, and a session that has
/// ended stays ended.
pub proof fn lemma_ends(h: HarnessView, error: Seq<char>, event: HarnessEvent, session: Seq<char>)
    ensures
        h.attempts < h.config.max_healing_attempts ==> h.failed(error).action
            == ActionView::Prompt,
        h.attempts >= h.config.max_healing_attempts && h.attempts < usize::MAX ==> h.failed(
            error,
        ).action == ActionView::Fail(error),
        h.interrupted(ControlView::StopSession { session_id: session }, 0) == h.ended(
            harness::HarnessOutcome::Stopped,
        ),
        h.phase is Ended ==> harness::step_view(h, event).after == h,
        h.phase is Broken ==> harness::step_view(h, event).after == h,
{
    reveal(HarnessView::failed);
    reveal(HarnessView::interrupted);
}

} // verus!
