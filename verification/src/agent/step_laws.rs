//! What each step of the loop does with what happened.

use vstd::prelude::*;
use crate::agent::context::ContextView;
use crate::agent::context_manager::ContextConfig;
use crate::agent::context_manager::ManagerView;
use crate::agent::control::ControlView;
use crate::agent::gate;
use crate::agent::gate::ApprovalAnswer;
use crate::agent::gate::DecisionView;
use crate::agent::gate::GateStepView;
use crate::agent::gate::GateView;
use crate::agent::harness;
use crate::agent::harness::ActionView;
use crate::agent::harness::AgentEventView;
use crate::agent::harness::BatchView;
use crate::agent::harness::EffectView;
use crate::agent::harness::Harness;
use crate::agent::harness::HarnessAction;
use crate::agent::harness::HarnessEvent;
use crate::agent::harness::HarnessOutcome;
use crate::agent::harness::HarnessView;
use crate::agent::harness::PhaseView;
use crate::agent::harness::ToolRun;
use crate::agent::interrupt::InterruptKind;
use crate::agent::interrupt::InterruptView;
use crate::agent::mode::ControlMode;
use crate::agent::capability;
use crate::agent::context_manager;
use crate::agent::preamble;
use crate::agent::provider::StreamChunk;
use crate::agent::request;
use crate::agent::surface::SignalView;
use crate::agent::tool;
use crate::agent::types;
use crate::agent::types::AssistantTurnView;
use crate::agent::types::ContentBlockView;
use crate::agent::types::MessageView;
use crate::agent::types::ToolCallView;
use crate::agent::types::ToolResultView;
use crate::json;
use crate::json::JsonView;
use crate::sorted_map;
use crate::text;

verus! {

/// The message of the user with one text.
pub open spec fn said(text: Seq<char>, now_ms: u64) -> MessageView {
    MessageView::User { content: seq![ContentBlockView::Text { text }], timestamp_ms: now_ms }
}

/// Whether the conversation is the one before with its prompt set.
pub open spec fn has_prompt(
    now: Seq<MessageView>,
    before: Seq<MessageView>,
    prompt: Seq<char>,
) -> bool {
    &&& now.len() > 0
    &&& now[0] == (MessageView::System { content: prompt })
    &&& now.skip(1) == if before.len() > 0 && before[0] is System {
        before.skip(1)
    } else {
        before
    }
}

proof fn lemma_has_prompt(before: Seq<MessageView>, prompt: Seq<char>)
    ensures
        has_prompt(crate::agent::context::prompted(before, prompt), before, prompt),
{
    let now = crate::agent::context::prompted(before, prompt);
    if before.len() > 0 && before[0] is System {
        assert(now.skip(1) =~= before.skip(1));
    } else {
        assert(now.skip(1) =~= before);
    }
}

/// The first prompt of the agent becomes the system prompt, and the loop looks for control
/// messages. Nothing else changes.
pub proof fn lemma_first_prompt(h: HarnessView, event: HarnessEvent)
    requires
        h.phase == PhaseView::Fresh,
        event is Prompted,
    ensures
        event matches HarnessEvent::Prompted(prompt) ==> {
            let step = harness::step_view(h, event);
            &&& step.action == ActionView::PollControl
            &&& step.effects.len() == 0
            &&& has_prompt(step.after.ctx.messages, h.ctx.messages, prompt@)
            &&& step.after == (HarnessView {
                ctx: ContextView { messages: step.after.ctx.messages, ..h.ctx },
                phase: PhaseView::Draining,
                ..h
            })
        },
{
    if let HarnessEvent::Prompted(prompt) = event {
        reveal(HarnessView::started);
        lemma_has_prompt(h.ctx.messages, prompt@);
    }
}

/// Control messages between turns and while the loop waits: what the user types is the next
/// message, a change of mode takes effect and is recorded and told, an answer is handed to
/// whoever waits for it, once, a stop ends the session as stopped, and parking or migrating
/// freezes it after a checkpoint. Any other message changes nothing.
pub proof fn lemma_control_between_turns(h: HarnessView, event: HarnessEvent)
    requires
        h.phase == PhaseView::Draining || h.phase == PhaseView::Waiting,
        event is Control,
    ensures
        event matches HarnessEvent::Control { message, now_ms } ==> {
            let step = harness::step_view(h, event);
            let base = HarnessView { phase: PhaseView::Draining, ..h };
            match message@ {
                ControlView::UserInput { text } => {
                    &&& step.after == (HarnessView {
                        ctx: ContextView {
                            messages: h.ctx.messages.push(said(text, now_ms)),
                            ..h.ctx
                        },
                        ..base
                    })
                    &&& step.action == ActionView::PollControl
                    &&& step.effects.len() == 0
                },
                ControlView::ModeChange { mode } => {
                    &&& step.after.ctx.control_mode == mode
                    &&& step.after.ctx.interrupt_log == h.ctx.interrupt_log.push(
                        InterruptView {
                            id: Seq::empty(),
                            kind: InterruptKind::Info,
                            message: "Mode changed to "@ + mode.title(),
                            context: JsonView::Null,
                        },
                    )
                    &&& step.after == (HarnessView {
                        ctx: ContextView {
                            control_mode: mode,
                            interrupt_log: step.after.ctx.interrupt_log,
                            ..h.ctx
                        },
                        ..base
                    })
                    &&& step.action == ActionView::PollControl
                    &&& step.effects == seq![
                        EffectView::Emit(AgentEventView::ModeChange { mode }),
                    ]
                },
                ControlView::ApprovalResponse { request_id, decision } => {
                    &&& step.after == (HarnessView {
                        gate: GateView { pending: h.gate.pending.remove(request_id), ..h.gate },
                        ..base
                    })
                    &&& step.action == ActionView::PollControl
                    &&& step.effects == if h.gate.pending.contains(request_id) {
                        seq![EffectView::Deliver { request_id, decision }]
                    } else {
                        Seq::empty()
                    }
                },
                ControlView::StopSession { .. } => {
                    &&& step.after == (HarnessView {
                        phase: PhaseView::Ended(HarnessOutcome::Stopped),
                        ..h
                    })
                    &&& step.action == ActionView::Finish(HarnessOutcome::Stopped)
                    &&& step.effects.len() == 0
                },
                ControlView::ParkSession { .. } => {
                    &&& step.after == (HarnessView {
                        phase: PhaseView::Ended(HarnessOutcome::Frozen),
                        ..h
                    })
                    &&& step.action == ActionView::Finish(HarnessOutcome::Frozen)
                    &&& step.effects == seq![
                        EffectView::Emit(
                            AgentEventView::Checkpoint { step: h.ctx.taken, reason: "park"@ },
                        ),
                        EffectView::Commit(h.ctx.session_id + " \u{2014} "@ + "park"@),
                    ]
                },
                ControlView::MigrateSession { .. } => {
                    &&& step.after == (HarnessView {
                        phase: PhaseView::Ended(HarnessOutcome::Frozen),
                        ..h
                    })
                    &&& step.action == ActionView::Finish(HarnessOutcome::Frozen)
                    &&& step.effects == seq![
                        EffectView::Emit(
                            AgentEventView::Checkpoint { step: h.ctx.taken, reason: "migrate"@ },
                        ),
                        EffectView::Commit(h.ctx.session_id + " \u{2014} "@ + "migrate"@),
                    ]
                },
                _ => {
                    &&& step.after == base
                    &&& step.action == ActionView::PollControl
                    &&& step.effects.len() == 0
                },
            }
        },
{
    reveal(HarnessView::controlled);
    if let HarnessEvent::Control { message, now_ms } = event {
        let step = harness::step_view(h, event);
        if let ControlView::ApprovalResponse { request_id, decision } = message@ {
            assert(step.effects =~= if h.gate.pending.contains(request_id) {
                seq![EffectView::Deliver { request_id, decision }]
            } else {
                Seq::empty()
            });
        }
    }
}

/// While the model answers, a stop ends the session at once. What the user types meanwhile is
/// kept as the next message, and the answer goes on.
pub proof fn lemma_control_during_an_answer(h: HarnessView, event: HarnessEvent)
    requires
        h.phase is Streaming,
        event is Control || event is ControlClosed,
    ensures
        ({
            let step = harness::step_view(h, event);
            match event {
                HarnessEvent::Control { message, now_ms } => match message@ {
                    ControlView::StopSession { .. } => {
                        &&& step.action == ActionView::Finish(HarnessOutcome::Stopped)
                        &&& step.after == (HarnessView {
                            phase: PhaseView::Ended(HarnessOutcome::Stopped),
                            ..h
                        })
                        &&& step.effects.len() == 0
                    },
                    ControlView::UserInput { text } => {
                        &&& step.action == ActionView::NextChunk
                        &&& step.after == (HarnessView {
                            ctx: ContextView {
                                messages: h.ctx.messages.push(said(text, now_ms)),
                                ..h.ctx
                            },
                            ..h
                        })
                        &&& step.effects.len() == 0
                    },
                    ControlView::ModeChange { mode } => {
                        &&& step.action == ActionView::NextChunk
                        &&& step.after.ctx.control_mode == mode
                        &&& step.after.ctx.messages == h.ctx.messages
                        &&& step.after.phase == h.phase
                        &&& step.effects == seq![
                            EffectView::Emit(AgentEventView::ModeChange { mode }),
                        ]
                    },
                    ControlView::ApprovalResponse { request_id, decision } => {
                        &&& step.action == ActionView::NextChunk
                        &&& step.after == (HarnessView {
                            gate: GateView {
                                pending: h.gate.pending.remove(request_id),
                                ..h.gate
                            },
                            ..h
                        })
                        &&& h.gate.pending.contains(request_id) ==> step.effects == seq![
                            EffectView::Deliver { request_id, decision },
                        ]
                    },
                    _ => step.action == ActionView::NextChunk && step.after == h,
                },
                _ => step.action == ActionView::NextChunk && step.after == h
                    && step.effects.len() == 0,
            }
        }),
{
    reveal(HarnessView::interrupted);
    if let HarnessEvent::Control { message, now_ms } = event {
        if let ControlView::ApprovalResponse { request_id, decision } = message@ {
            let step = harness::step_view(h, event);
            if h.gate.pending.contains(request_id) {
                assert(step.effects =~= seq![EffectView::Deliver { request_id, decision }]);
            }
        }
    }
}

/// With no control message left, a session that has used up its steps ends at its limit after
/// a checkpoint, and any other looks around. A session that waits for input that cannot come
/// is stopped.
pub proof fn lemma_no_control(h: HarnessView, event: HarnessEvent)
    requires
        (h.phase == PhaseView::Draining && (event is NoControl || event is ControlClosed)) || (
        h.phase == PhaseView::Waiting && event is ControlClosed),
    ensures
        ({
            let step = harness::step_view(h, event);
            let used_up = h.ctx.max_steps matches Some(max) && h.ctx.taken >= max;
            if h.phase == PhaseView::Waiting {
                &&& step.action == ActionView::Finish(HarnessOutcome::Stopped)
                &&& step.effects.len() == 0
            } else if used_up {
                &&& step.action == ActionView::Finish(HarnessOutcome::StepLimit)
                &&& step.after == (HarnessView {
                    phase: PhaseView::Ended(HarnessOutcome::StepLimit),
                    ..h
                })
                &&& step.effects == seq![
                    EffectView::Emit(
                        AgentEventView::Checkpoint { step: h.ctx.taken, reason: "step_limit"@ },
                    ),
                    EffectView::Commit(h.ctx.session_id + " \u{2014} "@ + "step_limit"@),
                ]
            } else {
                &&& step.action == ActionView::Perceive
                &&& step.after == (HarnessView { phase: PhaseView::Perceiving, ..h })
                &&& step.effects.len() == 0
            }
        }),
{
    reveal(HarnessView::drained);
}

/// What was perceived is the next message, of its time, and nothing is added where nothing
/// was perceived. With nothing but a prompt in the conversation the loop waits. Where memory
/// is to be asked it is asked with the latest text of the user. Else the agent is asked for
/// the prompt of the turn.
pub proof fn lemma_perceived(h: HarnessView, event: HarnessEvent)
    requires
        h.phase == PhaseView::Perceiving,
        event is Perceived,
    ensures
        event matches HarnessEvent::Perceived { blocks, now_ms } ==> {
            let step = harness::step_view(h, event);
            let messages = if blocks@.len() == 0 {
                h.ctx.messages
            } else {
                h.ctx.messages.push(
                    MessageView::User {
                        content: types::blocks_view(blocks@),
                        timestamp_ms: now_ms,
                    },
                )
            };
            &&& step.effects.len() == 0
            &&& step.after == (HarnessView {
                ctx: ContextView { messages, ..h.ctx },
                phase: step.after.phase,
                ..h
            })
            &&& messages.len() <= 1 ==> step.action == ActionView::AwaitControl
                && step.after.phase == PhaseView::Waiting
            &&& messages.len() > 1 && h.recall ==> step.action == ActionView::Recall(
                request::last_user_text_view(messages),
            ) && step.after.phase == PhaseView::Recalling
            &&& messages.len() > 1 && !h.recall ==> step.action == ActionView::Prompt
                && step.after.phase == PhaseView::Prompting
        },
{
    reveal(HarnessView::perceived);
}

/// What memory holds joins the prompt from now on, and memory is not asked again.
pub proof fn lemma_recalled(h: HarnessView, event: HarnessEvent)
    requires
        h.phase == PhaseView::Recalling,
        event is Recalled,
    ensures
        event matches HarnessEvent::Recalled(lines) ==> {
            let step = harness::step_view(h, event);
            &&& step.action == ActionView::Prompt
            &&& step.effects.len() == 0
            &&& step.after == (HarnessView {
                recall: false,
                memory: preamble::preamble(text::views(lines@)),
                phase: PhaseView::Prompting,
                ..h
            })
        },
{
    reveal(HarnessView::recalled);
}

proof fn lemma_managed_prompt(m: ManagerView, messages: Seq<MessageView>)
    requires
        m.system is None,
        m.history.len() == 0,
        messages.len() > 0,
        messages[0] is System,
        forall|i: int| 0 < i < messages.len() ==> !((#[trigger] messages[i]) is System),
    ensures
        m.with_all(messages) == (ManagerView {
            system: Some(messages[0]),
            history: messages.skip(1),
            ..m
        }),
    decreases messages.len(),
{
    let rest = messages.drop_last();
    if messages.len() == 1 {
        assert(rest =~= Seq::<MessageView>::empty());
        assert(m.with_all(rest) == m);
        assert(messages.skip(1) =~= m.history);
    } else {
        assert forall|i: int| 0 < i < rest.len() implies !((#[trigger] rest[i]) is System) by {
            assert(rest[i] == messages[i]);
        }
        lemma_managed_prompt(m, rest);
        assert(!(messages[messages.len() - 1] is System));
        assert(rest.skip(1).push(messages.last()) =~= messages.skip(1));
    }
}

/// The model is asked with the agent's prompt of this turn, behind it what memory and the
/// latest error add, each in a paragraph of its own, with the latest of the conversation,
/// from the oldest message that is kept on, with the settings, and with the tools that fit
/// what the user said last. Where messages were dropped the consumers are told how many.
pub proof fn lemma_model_is_asked(h: HarnessView, event: HarnessEvent)
    requires
        h.phase == PhaseView::Prompting,
        event is Prompted,
        forall|i: int| 0 < i < h.ctx.messages.len() ==> !((#[trigger] h.ctx.messages[i]) is System),
    ensures
        event matches HarnessEvent::Prompted(prompt) ==> {
            let step = harness::step_view(h, event);
            let history = if h.ctx.messages.len() > 0 && h.ctx.messages[0] is System {
                h.ctx.messages.skip(1)
            } else {
                h.ctx.messages
            };
            let full = prompt@ + (match h.memory {
                Some(t) => "\n\n"@ + t,
                None => Seq::empty(),
            }) + (match h.note {
                Some(t) => "\n\n"@ + t,
                None => Seq::empty(),
            });
            let now = step.after.ctx.messages;
            let dropped = history.len() - (now.len() - 1);
            &&& now.len() > 0
            &&& now[0] == (MessageView::System { content: full })
            &&& 0 <= dropped <= history.len()
            &&& now.skip(1) == history.skip(dropped)
            &&& step.action matches ActionView::Stream(r) && {
                &&& r.system == Some(full)
                &&& r.messages == request::messages_for_model(history.skip(dropped))
                &&& r.model == h.config.model@
                &&& r.max_tokens == Some(h.config.max_tokens)
                &&& r.temperature == h.config.temperature
                &&& r.thinking_tokens == h.config.thinking_tokens
                &&& r.tools == tool::chosen(
                    h.tools,
                    request::last_user_text_view(history.skip(dropped)),
                    h.config.tool_context_limit as nat,
                )
            }
            &&& dropped == 0 ==> step.effects.len() == 0
            &&& dropped > 0 ==> step.effects == seq![
                EffectView::Emit(AgentEventView::Compacting { dropped_turns: dropped as usize }),
            ]
            &&& step.after == (HarnessView {
                ctx: ContextView { messages: now, ..h.ctx },
                phase: PhaseView::Streaming {
                    text: Seq::empty(),
                    thinking: Seq::empty(),
                    calls: Seq::empty(),
                },
                ..h
            })
        },
{
    if let HarnessEvent::Prompted(prompt) = event {
        reveal(HarnessView::prompted);
        let base = h.at(PhaseView::Draining);
        let step = harness::step_view(h, event);
        let history = if h.ctx.messages.len() > 0 && h.ctx.messages[0] is System {
            h.ctx.messages.skip(1)
        } else {
            h.ctx.messages
        };
        let full = h.full_prompt(prompt@);
        let prompted = HarnessView { ctx: base.ctx.with_prompt(full), ..base };
        let messages = prompted.ctx.messages;
        lemma_has_prompt(h.ctx.messages, full);
        assert(messages.skip(1) == history);
        assert forall|i: int| 0 < i < messages.len() implies !((
        #[trigger] messages[i]) is System) by {
            assert(messages[i] == messages.skip(1)[i - 1]);
            if h.ctx.messages.len() > 0 && h.ctx.messages[0] is System {
                assert(messages[i] == h.ctx.messages[i]);
            } else {
                assert(messages[i] == h.ctx.messages[i - 1]);
            }
        }
        lemma_managed_prompt(
            ManagerView {
                config: context_manager::ContextConfig {
                    max_context_length: prompted.config.context_window,
                    response_buffer: prompted.config.max_tokens as usize,
                    min_messages_preserve: 4,
                },
                system: None,
                history: Seq::empty(),
            },
            messages,
        );
        let managed = prompted.managed();
        assert(managed.system == Some(messages[0]));
        assert(managed.history == history);
        context_manager::lemma_compaction(managed);
        let dropped = prompted.overflow() as int;
        let now = step.after.ctx.messages;
        assert(now == seq![messages[0]] + history.skip(dropped));
        assert(now.skip(1) =~= history.skip(dropped));
        assert(now.len() == 1 + history.len() - dropped);
        request::lemma_messages_in_order(seq![messages[0]], history.skip(dropped));
        assert(request::messages_for_model(now) =~= request::messages_for_model(
            history.skip(dropped),
        ));
        lemma_hint_past_prompt(messages[0], history.skip(dropped));
    }
}

proof fn lemma_hint_past_prompt(first: MessageView, rest: Seq<MessageView>)
    requires
        first is System,
    ensures
        request::last_user_text_view(seq![first] + rest) == request::last_user_text_view(rest),
    decreases rest.len(),
{
    let all = seq![first] + rest;
    if rest.len() == 0 {
        let none = Seq::<MessageView>::empty();
        assert(rest =~= none);
        assert(all.last() == first);
        assert(all.drop_last() =~= none);
        assert(request::last_user_text_view(all) == request::last_user_text_view(none));
    } else {
        assert(all.drop_last() =~= seq![first] + rest.drop_last());
        assert(all.last() == rest.last());
        lemma_hint_past_prompt(first, rest.drop_last());
    }
}

/// A piece of text joins the text of the answer and is shown, a piece of thinking joins the
/// thinking, and a tool call joins the calls as it came.
pub proof fn lemma_answer_is_collected(h: HarnessView, event: HarnessEvent)
    requires
        h.phase is Streaming,
        event is Chunk,
    ensures
        event matches HarnessEvent::Chunk(chunk) ==> {
            let step = harness::step_view(h, event);
            let (words, thoughts, calls) = match h.phase {
                PhaseView::Streaming { text, thinking, calls } => (text, thinking, calls),
                _ => (Seq::empty(), Seq::empty(), Seq::empty()),
            };
            match chunk {
                StreamChunk::Text(t) => {
                    &&& step.after == (HarnessView {
                        phase: PhaseView::Streaming {
                            text: words + t@,
                            thinking: thoughts,
                            calls,
                        },
                        ..h
                    })
                    &&& step.effects == seq![
                        EffectView::Emit(AgentEventView::Content { text: t@ }),
                        EffectView::Signal(SignalView::Thinking { text: t@ }),
                    ]
                    &&& step.action == ActionView::NextChunk
                },
                StreamChunk::Thinking(t) => {
                    &&& step.after == (HarnessView {
                        phase: PhaseView::Streaming {
                            text: words,
                            thinking: thoughts + t@,
                            calls,
                        },
                        ..h
                    })
                    &&& step.effects == seq![
                        EffectView::Emit(AgentEventView::Thinking { text: t@ }),
                    ]
                    &&& step.action == ActionView::NextChunk
                },
                StreamChunk::ToolCall { id, name, input } => {
                    &&& step.after == (HarnessView {
                        phase: PhaseView::Streaming {
                            text: words,
                            thinking: thoughts,
                            calls: calls.push(
                                ToolCallView { id: id@, name: name@, input: input@ },
                            ),
                        },
                        ..h
                    })
                    &&& step.effects.len() == 0
                    &&& step.action == ActionView::NextChunk
                },
                StreamChunk::Done => step == harness::step_view(h, HarnessEvent::StreamEnded),
            }
        },
{
    reveal(HarnessView::chunked);
}

/// What the model answered is recorded whole as one message, and counts as a step. Without
/// tool calls the session is complete: its summary is shown, a checkpoint is made and the
/// consumers are told. With calls the first of them is looked at, the next wait in order, as
/// many as a turn may have.
pub proof fn lemma_answer_is_recorded(h: HarnessView, event: HarnessEvent)
    requires
        h.phase is Streaming,
        event is StreamEnded,
        h.ctx.taken < u32::MAX,
        h.config.max_tools_per_turn > 0,
    ensures
        ({
            let step = harness::step_view(h, event);
            let (words, thoughts, calls) = match h.phase {
                PhaseView::Streaming { text, thinking, calls } => (text, thinking, calls),
                _ => (Seq::empty(), Seq::empty(), Seq::empty()),
            };
            let taken = (h.ctx.taken + 1) as u32;
            &&& step.after.ctx.messages == h.ctx.messages.push(
                MessageView::Assistant(
                    AssistantTurnView {
                        thinking: if thoughts.len() > 0 { Some(thoughts) } else { None },
                        text: if words.len() > 0 { Some(words) } else { None },
                        tool_calls: calls,
                    },
                ),
            )
            &&& step.after.ctx.taken == h.ctx.taken + 1
            &&& step.after == (HarnessView {
                ctx: ContextView { messages: step.after.ctx.messages, taken, ..h.ctx },
                phase: step.after.phase,
                ..h
            })
            &&& calls.len() == 0 ==> {
                &&& step.action == ActionView::Finish(HarnessOutcome::Complete)
                &&& step.effects == seq![
                    EffectView::Signal(
                        SignalView::Done {
                            summary: request::last_answer_view(step.after.ctx.messages),
                        },
                    ),
                    EffectView::Emit(
                        AgentEventView::Checkpoint { step: taken, reason: "session_complete"@ },
                    ),
                    EffectView::Commit(h.ctx.session_id + " \u{2014} "@ + "session_complete"@),
                    EffectView::Emit(
                        AgentEventView::Done { session_id: h.ctx.session_id, steps: taken },
                    ),
                ]
            }
            &&& calls.len() > 0 ==> {
                &&& step.action == ActionView::CheckTool(calls[0].name)
                &&& step.effects.len() == 0
                &&& step.after.phase matches PhaseView::Gating(b) && {
                    &&& b.call == calls[0]
                    &&& b.results.len() == 0
                    &&& b.rest == (if calls.len() <= h.config.max_tools_per_turn {
                        calls.skip(1)
                    } else {
                        calls.subrange(1, h.config.max_tools_per_turn as int)
                    })
                }
            }
        }),
{
    reveal(HarnessView::streamed);
    let step = harness::step_view(h, event);
    if let PhaseView::Streaming { text, thinking, calls } = h.phase {
        let limit = h.config.max_tools_per_turn as nat;
        if calls.len() > 0 {
            let batch = harness::first(calls, limit);
            assert(batch.drop_first() =~= (if calls.len() <= limit {
                calls.skip(1)
            } else {
                calls.subrange(1, limit as int)
            }));
        } else {
            let taken = (h.ctx.taken + 1) as u32;
            assert(step.effects =~= seq![
                EffectView::Signal(
                    SignalView::Done {
                        summary: request::last_answer_view(step.after.ctx.messages),
                    },
                ),
                EffectView::Emit(
                    AgentEventView::Checkpoint { step: taken, reason: "session_complete"@ },
                ),
                EffectView::Commit(h.ctx.session_id + " \u{2014} "@ + "session_complete"@),
                EffectView::Emit(
                    AgentEventView::Done { session_id: h.ctx.session_id, steps: taken },
                ),
            ]);
        }
    }
}

/// Whether a step goes on behind a call: with the next call of the batch, or, where it was
/// the last one, with the next turn, the results being one message of the conversation.
pub open spec fn goes_on(
    h: HarnessView,
    b: BatchView,
    results: Seq<ToolResultView>,
    step: harness::StepView,
) -> bool {
    if b.rest.len() > 0 {
        &&& step.action == ActionView::CheckTool(b.rest[0].name)
        &&& step.after.phase == PhaseView::Gating(
            BatchView { call: b.rest[0], rest: b.rest.skip(1), results },
        )
        &&& step.after.ctx == h.ctx
    } else {
        &&& step.action == ActionView::PollControl
        &&& step.after.phase == PhaseView::Draining
        &&& step.after.ctx == (ContextView {
            messages: h.ctx.messages.push(MessageView::ToolResults { results }),
            ..h.ctx
        })
    }
}

proof fn lemma_next(h: HarnessView, b: BatchView, results: Seq<ToolResultView>)
    ensures
        goes_on(h, b, results, h.next_call(b.rest, results)),
        h.next_call(b.rest, results).after.gate == h.gate,
        b.rest.len() > 0 || h.ctx.control_mode != ControlMode::BypassPermissions ==> h.next_call(
            b.rest,
            results,
        ).effects.len() == 0,
{
    if b.rest.len() > 0 {
        assert(b.rest.drop_first() =~= b.rest.skip(1));
    }
}

/// A call that passed runs with its own name and input, and that is told. A call that is
/// skipped has the refusal with its reason as its result. A tool that is not there has that
/// as its result. A new direction of the user ends the turn: the results so far and what the
/// user wants are the next messages.
pub proof fn lemma_decided_call(
    h: HarnessView,
    b: BatchView,
    decision: DecisionView,
    now_ms: u64,
)
    ensures
        ({
            let step = h.decided(b, decision, now_ms);
            match decision {
                DecisionView::Proceed => {
                    let known = sorted_map::as_map(h.tools).dom().contains(b.call.name);
                    &&& step.effects.len() >= 2
                    &&& step.effects[0] == EffectView::Emit(
                        AgentEventView::ToolStart { name: b.call.name, input: b.call.input },
                    )
                    &&& step.effects[1] == EffectView::Signal(
                        SignalView::ToolRunning { tool_name: b.call.name },
                    )
                    &&& known ==> {
                        &&& step.action == ActionView::Run(b.call.name, b.call.input)
                        &&& step.after == (HarnessView { phase: PhaseView::Running(b), ..h })
                        &&& step.effects.len() == 2
                    }
                    &&& !known ==> {
                        &&& goes_on(
                            h,
                            b,
                            b.results.push(
                                ToolResultView {
                                    tool_call_id: b.call.id,
                                    content: "Unknown tool: "@ + b.call.name,
                                    is_error: true,
                                },
                            ),
                            step,
                        )
                        &&& step.effects.len() >= 4
                        &&& step.effects[2] == EffectView::Emit(
                            AgentEventView::ToolComplete { name: b.call.name, success: false },
                        )
                        &&& step.effects[3] == EffectView::Signal(
                            SignalView::ToolDone { tool_name: b.call.name, success: false },
                        )
                    }
                },
                DecisionView::Skip(reason) => goes_on(
                    h,
                    b,
                    b.results.push(
                        ToolResultView {
                            tool_call_id: b.call.id,
                            content: "[rejected by user] "@ + reason,
                            is_error: true,
                        },
                    ),
                    step,
                ),
                DecisionView::Redirect(new_intent) => {
                    &&& step.action == ActionView::PollControl
                    &&& step.after.phase == PhaseView::Draining
                    &&& step.after.ctx == (ContextView {
                        messages: h.ctx.messages.push(
                            MessageView::ToolResults { results: b.results },
                        ).push(said("[User redirect] New direction: "@ + new_intent, now_ms)),
                        ..h.ctx
                    })
                },
            }
        }),
{
    match decision {
        DecisionView::Skip(reason) => {
            lemma_next(
                h,
                b,
                b.results.push(
                    ToolResultView {
                        tool_call_id: b.call.id,
                        content: "[rejected by user] "@ + reason,
                        is_error: true,
                    },
                ),
            );
        },
        DecisionView::Proceed => {
            lemma_next(
                h,
                b,
                b.results.push(
                    ToolResultView {
                        tool_call_id: b.call.id,
                        content: "Unknown tool: "@ + b.call.name,
                        is_error: true,
                    },
                ),
            );
        },
        _ => {},
    }
}

/// A call meets the capability gate with the rights that its tool needs, in the mode of the
/// session. Where the user has to be asked, the question goes to the user and the batch waits.
pub proof fn lemma_call_is_checked(h: HarnessView, event: HarnessEvent)
    requires
        h.phase is Gating,
        event is Checked,
    ensures
        event matches HarnessEvent::Checked { needed, ticket, now_ms } ==> {
            let step = harness::step_view(h, event);
            let b = h.phase->Gating_0;
            let (after, verdict) = gate::check_view(
                h.gate,
                b.call,
                h.ctx.control_mode,
                capability::caps_view(needed@),
                ticket@,
                now_ms,
            );
            let now = HarnessView { gate: after, phase: PhaseView::Draining, ..h };
            match verdict {
                GateStepView::Decided(decision) => step == now.decided(b, decision, now_ms),
                GateStepView::Ask(question) => {
                    &&& step.action == ActionView::Ask(question)
                    &&& step.after == (HarnessView { phase: PhaseView::Asking(b), ..now })
                    &&& step.effects.len() == 0
                },
            }
        },
{
    reveal(HarnessView::gated);
}

/// The answer of the user decides on the very call that was asked about. No answer is an
/// error of the turn.
pub proof fn lemma_answer_is_heard(h: HarnessView, event: HarnessEvent)
    requires
        h.phase is Asking,
        event is Answered,
    ensures
        event matches HarnessEvent::Answered { answer, now_ms } ==> {
            let step = harness::step_view(h, event);
            let b = h.phase->Asking_0;
            let (after, verdict) = gate::conclude_view(h.gate, b.call.name, answer, now_ms);
            let now = HarnessView { gate: after, phase: PhaseView::Draining, ..h };
            match verdict {
                Ok(decision) => step == now.decided(b, decision, now_ms),
                Err(e) => step == now.failed(e.message()),
            }
        },
{
    reveal(HarnessView::answered);
}

/// What a tool gave is the result of its call: a text as it is, anything else as JSON, with
/// whether it failed. An error is a failed result with its words. It is told, and the next
/// call or turn follows.
pub proof fn lemma_result_is_recorded(h: HarnessView, event: HarnessEvent)
    requires
        h.phase is Running,
        event is Ran,
    ensures
        event matches HarnessEvent::Ran(run) ==> {
            let step = harness::step_view(h, event);
            let b = h.phase->Running_0;
            let (content, failed) = match run {
                ToolRun::Finished(output) => (
                    match output.content@ {
                        JsonView::Text(t) => t,
                        other => json::written(other),
                    },
                    output.is_error,
                ),
                ToolRun::Failed(error) => (error@, true),
            };
            &&& goes_on(
                h,
                b,
                b.results.push(
                    ToolResultView { tool_call_id: b.call.id, content, is_error: failed },
                ),
                step,
            )
            &&& step.effects.len() >= 2
            &&& step.effects[0] == EffectView::Emit(
                AgentEventView::ToolComplete { name: b.call.name, success: !failed },
            )
            &&& step.effects[1] == EffectView::Signal(
                SignalView::ToolDone { tool_name: b.call.name, success: !failed },
            )
        },
{
    reveal(HarnessView::ran);
    if let HarnessEvent::Ran(run) = event {
        let b = h.phase->Running_0;
        let (content, failed) = match run {
            ToolRun::Finished(output) => (
                match output.content@ {
                    JsonView::Text(t) => t,
                    other => json::written(other),
                },
                output.is_error,
            ),
            ToolRun::Failed(error) => (error@, true),
        };
        lemma_next(
            h.at(PhaseView::Draining),
            b,
            b.results.push(ToolResultView { tool_call_id: b.call.id, content, is_error: failed }),
        );
    }
}

/// With permissions bypassed, a turn that ends on a multiple of the interval makes a
/// checkpoint, and no other turn does.
pub proof fn lemma_checkpoints(h: HarnessView)
    requires
        h.config.bypass_checkpoint_interval > 0,
    ensures
        ({
            let due = h.ctx.control_mode == ControlMode::BypassPermissions && h.ctx.taken as int
                % h.config.bypass_checkpoint_interval as int == 0;
            &&& due ==> h.turned().effects == seq![
                EffectView::Emit(
                    AgentEventView::Checkpoint {
                        step: h.ctx.taken,
                        reason: "bypass_interval"@,
                    },
                ),
                EffectView::Commit(h.ctx.session_id + " \u{2014} "@ + "bypass_interval"@),
            ]
            &&& !due ==> h.turned().effects.len() == 0
            &&& h.turned().action == ActionView::PollControl
            &&& h.turned().after == (HarnessView { phase: PhaseView::Draining, ..h })
        }),
{
    let due = h.ctx.control_mode == ControlMode::BypassPermissions && h.ctx.taken as int
        % h.config.bypass_checkpoint_interval as int == 0;
    if due {
        assert(h.turned().effects =~= seq![
            EffectView::Emit(
                AgentEventView::Checkpoint { step: h.ctx.taken, reason: "bypass_interval"@ },
            ),
            EffectView::Commit(h.ctx.session_id + " \u{2014} "@ + "bypass_interval"@),
        ]);
    }
}

/// An error is healed as often as the settings allow: the agent is asked for its prompt again
/// and the consumers are told which attempt it is. One error more fails the session.
pub proof fn lemma_errors_are_healed(h: HarnessView, error: Seq<char>)
    requires
        h.attempts < usize::MAX,
    ensures
        ({
            let step = h.failed(error);
            let attempt = (h.attempts + 1) as usize;
            if h.attempts < h.config.max_healing_attempts {
                &&& step.action == ActionView::Prompt
                &&& step.effects == seq![
                    EffectView::Emit(AgentEventView::Healing { attempt, error }),
                ]
                &&& step.after == (HarnessView {
                    attempts: attempt,
                    phase: PhaseView::Healing { error },
                    ..h
                })
            } else {
                &&& step.action == ActionView::Fail(error)
                &&& step.effects == seq![EffectView::Emit(AgentEventView::Error { error })]
                &&& step.after.phase == (PhaseView::Broken { error })
                &&& step.after.ctx == h.ctx
            }
        }),
{
    reveal(HarnessView::failed);
}

/// An error of the model is an error of the turn. The prompt that heals it tells the model
/// which attempt it is and what went wrong, also in the turns after it, and nothing of the
/// conversation is lost.
pub proof fn lemma_model_learns_of_the_error(h: HarnessView, event: HarnessEvent)
    ensures
        h.phase is Streaming ==> (event matches HarnessEvent::Failed(error)
            ==> harness::step_view(h, event) == (HarnessView {
            phase: PhaseView::Draining,
            ..h
        }).failed(error@)),
        h.phase is Healing ==> (event matches HarnessEvent::Prompted(prompt) ==> {
            let step = harness::step_view(h, event);
            let note = "[auto-heal attempt "@ + text::decimal(h.attempts as nat)
                + "] Previous turn failed: "@ + h.phase->Healing_error
                + ". Adjust your approach and continue."@;
            &&& step.action == ActionView::PollControl
            &&& step.effects.len() == 0
            &&& step.after.note == Some(note)
            &&& has_prompt(
                step.after.ctx.messages,
                h.ctx.messages,
                prompt@ + (match h.memory {
                    Some(t) => "\n\n"@ + t,
                    None => Seq::empty(),
                }) + ("\n\n"@ + note),
            )
            &&& step.after == (HarnessView {
                note: Some(note),
                ctx: ContextView { messages: step.after.ctx.messages, ..h.ctx },
                phase: PhaseView::Draining,
                ..h
            })
        }),
{
    reveal(HarnessView::healed);
    if let PhaseView::Healing { error } = h.phase {
        if let HarnessEvent::Prompted(prompt) = event {
            let note = harness::heal_text(h.attempts as nat, error);
            let now = HarnessView { note: Some(note), ..h.at(PhaseView::Draining) };
            lemma_has_prompt(h.ctx.messages, now.full_prompt(prompt@));
        }
    }
}

/// Once a session has ended or failed, nothing that happens changes it.
pub proof fn lemma_over_is_over(h: HarnessView, event: HarnessEvent)
    requires
        h.phase is Ended || h.phase is Broken,
    ensures
        harness::step_view(h, event).after == h,
        harness::step_view(h, event).effects.len() == 0,
        harness::step_view(h, event).action == ActionView::Unexpected,
{
}

proof fn lemma_managed(m: ManagerView, messages: Seq<MessageView>)
    requires
        forall|i: int| 0 <= i < messages.len() ==> !(#[trigger] messages[i] is System),
    ensures
        m.with_all(messages) == (ManagerView { history: m.history + messages, ..m }),
    decreases messages.len(),
{
    if messages.len() == 0 {
        assert(m.history + messages =~= m.history);
    } else {
        let rest = messages.drop_last();
        assert forall|i: int| 0 <= i < rest.len() implies !(#[trigger] rest[i] is System) by {
            assert(rest[i] == messages[i]);
        }
        lemma_managed(m, rest);
        assert(!(messages[messages.len() - 1] is System));
        assert((m.history + rest).push(messages.last()) =~= m.history + messages);
    }
}

proof fn lemma_managed_first(m: ManagerView, first: MessageView, rest: Seq<MessageView>)
    ensures
        m.with_all(seq![first] + rest) == m.with(first).with_all(rest),
    decreases rest.len(),
{
    let all = seq![first] + rest;
    if rest.len() == 0 {
        assert(all.drop_last() =~= Seq::<MessageView>::empty());
        assert(m.with_all(all.drop_last()) == m);
    } else {
        lemma_managed_first(m, first, rest.drop_last());
        assert(all.drop_last() =~= seq![first] + rest.drop_last());
        assert(all.last() == rest.last());
    }
}

/// Where the conversation outgrows the window it loses its oldest messages and nothing else:
/// the prompt stays in front, and the latest messages stay, in order. At least four are left
/// where there were four.
pub proof fn lemma_oldest_go(h: HarnessView)
    requires
        h.ctx.messages.len() > 0,
        h.ctx.messages[0] is System,
        forall|i: int|
            1 <= i < h.ctx.messages.len() ==> !(#[trigger] h.ctx.messages[i] is System),
    ensures
        ({
            let after = h.compacted();
            let gone = h.overflow();
            &&& gone < h.ctx.messages.len()
            &&& after.ctx.messages == seq![h.ctx.messages[0]] + h.ctx.messages.skip(
                1 + gone as int,
            )
            &&& h.ctx.messages.len() >= 5 ==> after.ctx.messages.len() >= 5
            &&& after == (HarnessView {
                ctx: ContextView { messages: after.ctx.messages, ..h.ctx },
                ..h
            })
        }),
{
    let messages = h.ctx.messages;
    let rest = messages.skip(1);
    assert(messages =~= seq![messages[0]] + rest);
    let start = ManagerView {
        config: ContextConfig {
            max_context_length: h.config.context_window,
            response_buffer: h.config.max_tokens as usize,
            min_messages_preserve: 4,
        },
        system: None,
        history: Seq::empty(),
    };
    lemma_managed_first(start, messages[0], rest);
    assert forall|i: int| 0 <= i < rest.len() implies !(#[trigger] rest[i] is System) by {
        assert(rest[i] == messages[i + 1]);
    }
    lemma_managed(start.with(messages[0]), rest);
    let m = h.managed();
    assert(start.with(messages[0]).history + rest =~= rest);
    assert(m.history == rest && m.system == Some(messages[0]));
    context_manager::lemma_compaction(m);
    assert(rest.skip(m.excess() as int) =~= messages.skip(1 + m.excess() as int));
}

/// A loop with a memory asks it, and is otherwise the loop that it was. The first thing that is
/// asked for is the prompt.
pub proof fn lemma_with_memory(plain: Harness, with: Harness, action: HarnessAction)
    requires
        call_ensures(Harness::with_memory, (plain,), with),
        call_ensures(Harness::start, (&plain,), action),
    ensures
        with@ == (HarnessView { recall: true, ..plain@ }),
        action@ is Prompt,
{
}

} // verus!
