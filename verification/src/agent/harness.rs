//! The turn loop of an agent.
//!
//! The loop is a machine that takes one event at a time and says what is to be
//! done next. One turn goes: take the waiting control messages, perceive, wait for
//! the first input, compact the conversation, stream the answer of the model, run
//! the tools it called behind the capability gate, record the results. A turn without tool
//! calls ends the session. An error is healed by telling the model of it, a limited
//! number of times.

use std::collections::VecDeque;
use vstd::prelude::*;
use crate::agent::capability;
use crate::agent::capability::Capability;
use crate::agent::context;
use crate::agent::context::Context;
use crate::agent::context::ContextView;
use crate::agent::context_manager::ContextConfig;
use crate::agent::context_manager::ContextManager;
use crate::agent::context_manager::ManagerView;
use crate::agent::control::ControlMessage;
use crate::agent::control::ControlView;
use crate::agent::gate;
use crate::agent::gate::ApprovalAnswer;
use crate::agent::gate::ApprovalRequest;
use crate::agent::gate::ApprovalRequestView;
use crate::agent::gate::CapabilityGate;
use crate::agent::gate::DecisionView;
use crate::agent::gate::GateDecision;
use crate::agent::gate::GateStep;
use crate::agent::gate::GateStepView;
use crate::agent::gate::GateView;
use crate::agent::interrupt;
use crate::agent::interrupt::Interrupt;
use crate::agent::interrupt::InterruptKind;
use crate::agent::mode::ControlMode;
use crate::agent::preamble;
use crate::agent::provider::CompletionRequest;
use crate::agent::provider::RequestView;
use crate::agent::provider::StreamChunk;
use crate::agent::provider::ToolSpecView;
use crate::agent::request;
use crate::agent::surface::SignalView;
use crate::agent::surface::SurfaceSignal;
use crate::agent::tool;
use crate::agent::tool::ToolOutput;
use crate::agent::tool::ToolRegistry;
use crate::agent::types;
use crate::agent::types::ApprovalDecision;
use crate::agent::types::ApprovalView;
use crate::agent::types::AssistantTurn;
use crate::agent::types::AssistantTurnView;
use crate::agent::types::ContentBlock;
use crate::agent::types::ConversationMessage;
use crate::agent::types::MessageView;
use crate::agent::types::ToolCall;
use crate::agent::types::ToolCallView;
use crate::agent::types::ToolResult;
use crate::agent::types::ToolResultView;
use crate::json;
use crate::json::Json;
use crate::json::JsonView;
use crate::sorted_map;
use crate::text;

verus! {

// ---------------------------------------------------------------------------
// Settings, events, actions
// ---------------------------------------------------------------------------

/// The settings of a loop.
pub struct HarnessConfig {
    pub model: String,
    pub max_tokens: u32,
    pub thinking_tokens: Option<u32>,
    /// How many tool calls of one turn are run.
    pub max_tools_per_turn: usize,
    /// How many tools a model is shown.
    pub tool_context_limit: usize,
    /// The window of the model, in tokens.
    pub context_window: usize,
    /// With permissions bypassed, a checkpoint is made every so many steps.
    pub bypass_checkpoint_interval: u32,
    /// The bits of an IEEE single.
    pub temperature: Option<u32>,
    pub max_healing_attempts: usize,
}

impl Default for HarnessConfig {
    fn default() -> (config: Self)
        ensures
            config.model@ == "auto"@,
            config.max_tokens == 8192,
            config.thinking_tokens == Some(4096u32),
            config.max_tools_per_turn == 20,
            config.tool_context_limit == 25,
            config.context_window == 120_000,
            config.bypass_checkpoint_interval == 5,
            config.temperature is None,
            config.max_healing_attempts == 3,
    {
        HarnessConfig {
            model: "auto".to_string(),
            max_tokens: 8192,
            thinking_tokens: Some(4096),
            max_tools_per_turn: 20,
            tool_context_limit: 25,
            context_window: 120_000,
            bypass_checkpoint_interval: 5,
            temperature: None,
            max_healing_attempts: 3,
        }
    }
}

/// What consumers of the loop are told.
#[allow(inconsistent_fields)]
pub enum AgentEvent {
    Thinking { text: String },
    Content { text: String },
    ToolStart { name: String, input: Json },
    ToolComplete { name: String, success: bool },
    ModeChange { mode: ControlMode },
    Checkpoint { step: u32, reason: String },
    Compacting { dropped_turns: usize },
    Healing { attempt: usize, error: String },
    Done { session_id: String, steps: u32 },
    Error { error: String },
}

/// What an event for consumers is.
#[allow(inconsistent_fields)]
#[verifier::ext_equal]
pub enum AgentEventView {
    Thinking { text: Seq<char> },
    Content { text: Seq<char> },
    ToolStart { name: Seq<char>, input: JsonView },
    ToolComplete { name: Seq<char>, success: bool },
    ModeChange { mode: ControlMode },
    Checkpoint { step: u32, reason: Seq<char> },
    Compacting { dropped_turns: usize },
    Healing { attempt: usize, error: Seq<char> },
    Done { session_id: Seq<char>, steps: u32 },
    Error { error: Seq<char> },
}

impl View for AgentEvent {
    type V = AgentEventView;

    open spec fn view(&self) -> AgentEventView {
        match self {
            AgentEvent::Thinking { text } => AgentEventView::Thinking { text: text@ },
            AgentEvent::Content { text } => AgentEventView::Content { text: text@ },
            AgentEvent::ToolStart { name, input } => AgentEventView::ToolStart {
                name: name@,
                input: input@,
            },
            AgentEvent::ToolComplete { name, success } => AgentEventView::ToolComplete {
                name: name@,
                success: *success,
            },
            AgentEvent::ModeChange { mode } => AgentEventView::ModeChange { mode: *mode },
            AgentEvent::Checkpoint { step, reason } => AgentEventView::Checkpoint {
                step: *step,
                reason: reason@,
            },
            AgentEvent::Compacting { dropped_turns } => AgentEventView::Compacting {
                dropped_turns: *dropped_turns,
            },
            AgentEvent::Healing { attempt, error } => AgentEventView::Healing {
                attempt: *attempt,
                error: error@,
            },
            AgentEvent::Done { session_id, steps } => AgentEventView::Done {
                session_id: session_id@,
                steps: *steps,
            },
            AgentEvent::Error { error } => AgentEventView::Error { error: error@ },
        }
    }
}

/// How a session ended.
#[derive(Debug, Clone, Copy, PartialEq, Eq, Structural)]
pub enum HarnessOutcome {
    Complete,
    Stopped,
    Frozen,
    StepLimit,
}

/// Whether the loop goes on after a control message.
#[derive(Debug, Clone, Copy, PartialEq, Eq, Structural)]
pub enum LoopControl {
    Continue,
    Stop,
    Freeze,
}

/// Something to be done on the side, without waiting for it.
pub enum Effect {
    /// Tell the consumers.
    Emit(AgentEvent),
    /// Tell the compositor.
    Signal(SurfaceSignal),
    /// Commit the durable state under this message.
    Commit(String),
    /// Hand an answer to whoever waits for it.
    Deliver { request_id: String, decision: ApprovalDecision },
}

/// What a side effect is.
#[verifier::ext_equal]
pub enum EffectView {
    Emit(AgentEventView),
    Signal(SignalView),
    Commit(Seq<char>),
    Deliver { request_id: Seq<char>, decision: ApprovalView },
}

impl View for Effect {
    type V = EffectView;

    open spec fn view(&self) -> EffectView {
        match self {
            Effect::Emit(e) => EffectView::Emit(e@),
            Effect::Signal(s) => EffectView::Signal(s@),
            Effect::Commit(m) => EffectView::Commit(m@),
            Effect::Deliver { request_id, decision } => EffectView::Deliver {
                request_id: request_id@,
                decision: decision@,
            },
        }
    }
}

/// What a list of side effects holds.
pub open spec fn effects_view(effects: Seq<Effect>) -> Seq<EffectView> {
    Seq::new(effects.len(), |i: int| effects[i]@)
}

/// What became of a tool that was run.
pub enum ToolRun {
    Finished(ToolOutput),
    Failed(String),
}

/// What happened.
pub enum HarnessEvent {
    /// The system prompt of the agent for the current state.
    Prompted(String),
    /// A control message came.
    Control { message: ControlMessage, now_ms: u64 },
    /// No control message waits.
    NoControl,
    /// No control message can come any more.
    ControlClosed,
    /// What was perceived.
    Perceived { blocks: Vec<ContentBlock>, now_ms: u64 },
    /// What memory holds on the hint.
    Recalled(Vec<String>),
    /// A piece of the answer.
    Chunk(StreamChunk),
    /// The answer ended.
    StreamEnded,
    /// The model or its stream failed.
    Failed(String),
    /// The rights that the tool needs, and a ticket for a question about it.
    Checked { needed: Vec<Capability>, ticket: String, now_ms: u64 },
    /// A question ended.
    Answered { answer: ApprovalAnswer, now_ms: u64 },
    /// A tool was run.
    Ran(ToolRun),
}

/// What is to be done next.
pub enum HarnessAction {
    /// Ask the agent for its system prompt.
    Prompt,
    /// Take a control message if one waits.
    PollControl,
    /// Poll the perception sources.
    Perceive,
    /// Wait for a control message.
    AwaitControl,
    /// Ask memory what it holds on the hint.
    Recall { hint: String },
    /// Send the request and stream the answer.
    Stream(CompletionRequest),
    /// Go on with the stream.
    NextChunk,
    /// Find out what rights the tool needs.
    CheckTool { name: String },
    /// Ask the user.
    Ask(ApprovalRequest),
    /// Run the tool.
    Run { name: String, input: Json },
    /// The session is over.
    Finish(HarnessOutcome),
    /// The session failed.
    Fail(String),
    /// The event does not fit the state; nothing was done.
    Unexpected,
}

/// What an action is.
#[verifier::ext_equal]
pub enum ActionView {
    Prompt,
    PollControl,
    Perceive,
    AwaitControl,
    Recall(Seq<char>),
    Stream(RequestView),
    NextChunk,
    CheckTool(Seq<char>),
    Ask(ApprovalRequestView),
    Run(Seq<char>, JsonView),
    Finish(HarnessOutcome),
    Fail(Seq<char>),
    Unexpected,
}

impl View for HarnessAction {
    type V = ActionView;

    open spec fn view(&self) -> ActionView {
        match self {
            HarnessAction::Prompt => ActionView::Prompt,
            HarnessAction::PollControl => ActionView::PollControl,
            HarnessAction::Perceive => ActionView::Perceive,
            HarnessAction::AwaitControl => ActionView::AwaitControl,
            HarnessAction::Recall { hint } => ActionView::Recall(hint@),
            HarnessAction::Stream(r) => ActionView::Stream(r@),
            HarnessAction::NextChunk => ActionView::NextChunk,
            HarnessAction::CheckTool { name } => ActionView::CheckTool(name@),
            HarnessAction::Ask(r) => ActionView::Ask(r@),
            HarnessAction::Run { name, input } => ActionView::Run(name@, input@),
            HarnessAction::Finish(o) => ActionView::Finish(*o),
            HarnessAction::Fail(e) => ActionView::Fail(e@),
            HarnessAction::Unexpected => ActionView::Unexpected,
        }
    }
}

/// What a step gives out.
pub struct Step {
    pub effects: Vec<Effect>,
    pub action: HarnessAction,
}

// ---------------------------------------------------------------------------
// The state
// ---------------------------------------------------------------------------

/// The tool calls of a turn that are worked on.
pub struct Batch {
    /// The call at hand.
    pub call: ToolCall,
    /// The calls after it.
    pub rest: VecDeque<ToolCall>,
    /// The results of the calls before it.
    pub results: Vec<ToolResult>,
}

/// What a batch is.
#[verifier::ext_equal]
pub struct BatchView {
    pub call: ToolCallView,
    pub rest: Seq<ToolCallView>,
    pub results: Seq<ToolResultView>,
}

impl View for Batch {
    type V = BatchView;

    open spec fn view(&self) -> BatchView {
        BatchView {
            call: self.call@,
            rest: types::calls_view(self.rest@),
            results: types::results_view(self.results@),
        }
    }
}

/// Where the loop stands.
pub enum Phase {
    /// Before the first prompt.
    Fresh,
    /// Taking the waiting control messages.
    Draining,
    Perceiving,
    /// Waiting for the first input.
    Waiting,
    Recalling,
    /// Waiting for the prompt of the turn.
    Prompting,
    Streaming { text: String, thinking: String, calls: Vec<ToolCall> },
    Gating(Batch),
    Asking(Batch),
    Running(Batch),
    /// Waiting for the prompt after an error.
    Healing { error: String },
    Ended(HarnessOutcome),
    Broken { error: String },
}

/// What a phase is.
#[verifier::ext_equal]
pub enum PhaseView {
    Fresh,
    Draining,
    Perceiving,
    Waiting,
    Recalling,
    Prompting,
    Streaming { text: Seq<char>, thinking: Seq<char>, calls: Seq<ToolCallView> },
    Gating(BatchView),
    Asking(BatchView),
    Running(BatchView),
    Healing { error: Seq<char> },
    Ended(HarnessOutcome),
    Broken { error: Seq<char> },
}

impl View for Phase {
    type V = PhaseView;

    open spec fn view(&self) -> PhaseView {
        match self {
            Phase::Fresh => PhaseView::Fresh,
            Phase::Draining => PhaseView::Draining,
            Phase::Perceiving => PhaseView::Perceiving,
            Phase::Waiting => PhaseView::Waiting,
            Phase::Recalling => PhaseView::Recalling,
            Phase::Prompting => PhaseView::Prompting,
            Phase::Streaming { text, thinking, calls } => PhaseView::Streaming {
                text: text@,
                thinking: thinking@,
                calls: types::calls_view(calls@),
            },
            Phase::Gating(b) => PhaseView::Gating(b@),
            Phase::Asking(b) => PhaseView::Asking(b@),
            Phase::Running(b) => PhaseView::Running(b@),
            Phase::Healing { error } => PhaseView::Healing { error: error@ },
            Phase::Ended(o) => PhaseView::Ended(*o),
            Phase::Broken { error } => PhaseView::Broken { error: error@ },
        }
    }
}

/// The loop of one session.
pub struct Harness {
    pub ctx: Context,
    pub config: HarnessConfig,
    pub tools: ToolRegistry,
    pub gate: CapabilityGate,
    /// Whether memory is to be asked before the first request.
    pub recall: bool,
    /// What memory adds to the prompt.
    pub memory: Option<String>,
    /// What the latest error adds to the prompt.
    pub note: Option<String>,
    pub attempts: usize,
    pub phase: Phase,
}

/// What a loop is.
#[verifier::ext_equal]
pub struct HarnessView {
    pub ctx: ContextView,
    pub config: HarnessConfig,
    pub tools: Seq<(Seq<char>, ToolSpecView)>,
    pub gate: GateView,
    pub recall: bool,
    pub memory: Option<Seq<char>>,
    pub note: Option<Seq<char>>,
    /// How many errors were healed.
    pub attempts: usize,
    pub phase: PhaseView,
}

impl View for Harness {
    type V = HarnessView;

    open spec fn view(&self) -> HarnessView {
        HarnessView {
            ctx: self.ctx@,
            config: self.config,
            tools: self.tools@,
            gate: self.gate@,
            recall: self.recall,
            memory: text::opt_view(self.memory),
            note: text::opt_view(self.note),
            attempts: self.attempts,
            phase: self.phase@,
        }
    }
}

/// A step as a whole: the loop after it, the side effects, the next action.
#[verifier::ext_equal]
pub struct StepView {
    pub after: HarnessView,
    pub effects: Seq<EffectView>,
    pub action: ActionView,
}

/// The step that only moves on.
pub open spec fn quiet(after: HarnessView, action: ActionView) -> StepView {
    StepView { after, effects: Seq::empty(), action }
}

/// The step with side effects before its own.
pub open spec fn preceded(effects: Seq<EffectView>, step: StepView) -> StepView {
    StepView { effects: effects + step.effects, ..step }
}

// ---------------------------------------------------------------------------
// What the steps do
// ---------------------------------------------------------------------------

/// A checkpoint: the consumers are told, and the durable state is committed.
pub open spec fn checkpoint_view(ctx: ContextView, reason: Seq<char>) -> Seq<EffectView> {
    seq![
        EffectView::Emit(AgentEventView::Checkpoint { step: ctx.taken, reason }),
        EffectView::Commit(ctx.session_id + " \u{2014} "@ + reason),
    ]
}

/// What is added to a prompt, in a paragraph of its own.
pub open spec fn paragraph(addendum: Option<Seq<char>>) -> Seq<char> {
    match addendum {
        Some(t) => "\n\n"@ + t,
        None => Seq::empty(),
    }
}

impl HarnessView {
    /// The prompt with what memory and the latest error add to it.
    pub open spec fn full_prompt(self, prompt: Seq<char>) -> Seq<char> {
        prompt + paragraph(self.memory) + paragraph(self.note)
    }

    /// The loop in another phase.
    pub open spec fn at(self, phase: PhaseView) -> HarnessView {
        HarnessView { phase, ..self }
    }

    /// The session over.
    pub open spec fn ended(self, outcome: HarnessOutcome) -> StepView {
        quiet(self.at(PhaseView::Ended(outcome)), ActionView::Finish(outcome))
    }

    /// A control message: what changes, what is done, and whether the loop goes on.
    pub open spec fn handled(self, m: ControlView, now_ms: u64) -> (
        HarnessView,
        Seq<EffectView>,
        LoopControl,
    ) {
        match m {
            ControlView::UserInput { text } => (
                HarnessView {
                    ctx: self.ctx.with_message(types::user_text_view(text, now_ms)),
                    ..self
                },
                Seq::empty(),
                LoopControl::Continue,
            ),
            ControlView::ModeChange { mode } => (
                HarnessView {
                    ctx: ContextView {
                        control_mode: mode,
                        interrupt_log: self.ctx.interrupt_log.push(
                            interrupt::plain(
                                Seq::empty(),
                                InterruptKind::Info,
                                "Mode changed to "@ + mode.title(),
                            ),
                        ),
                        ..self.ctx
                    },
                    ..self
                },
                seq![EffectView::Emit(AgentEventView::ModeChange { mode })],
                LoopControl::Continue,
            ),
            ControlView::ApprovalResponse { request_id, decision } => (
                HarnessView {
                    gate: GateView {
                        pending: self.gate.pending.remove(request_id),
                        ..self.gate
                    },
                    ..self
                },
                if self.gate.pending.contains(request_id) {
                    seq![EffectView::Deliver { request_id, decision }]
                } else {
                    Seq::empty()
                },
                LoopControl::Continue,
            ),
            ControlView::StopSession { session_id } => (self, Seq::empty(), LoopControl::Stop),
            ControlView::ParkSession { session_id } => (
                self,
                checkpoint_view(self.ctx, "park"@),
                LoopControl::Freeze,
            ),
            ControlView::MigrateSession { session_id, target_node } => (
                self,
                checkpoint_view(self.ctx, "migrate"@),
                LoopControl::Freeze,
            ),
            _ => (self, Seq::empty(), LoopControl::Continue),
        }
    }

    /// A control message between turns: the session ends, or more messages are
    /// taken.
    #[verifier::opaque]
    pub open spec fn controlled(self, m: ControlView, now_ms: u64) -> StepView {
        let (after, effects, go) = self.handled(m, now_ms);
        preceded(
            effects,
            match go {
                LoopControl::Continue => quiet(
                    after.at(PhaseView::Draining),
                    ActionView::PollControl,
                ),
                LoopControl::Stop => after.ended(HarnessOutcome::Stopped),
                LoopControl::Freeze => after.ended(HarnessOutcome::Frozen),
            },
        )
    }

    /// No control message is left: the session is at its limit, or the turn goes on.
    #[verifier::opaque]
    pub open spec fn drained(self) -> StepView {
        if self.ctx.at_limit() {
            preceded(
                checkpoint_view(self.ctx, "step_limit"@),
                self.ended(HarnessOutcome::StepLimit),
            )
        } else {
            quiet(self.at(PhaseView::Perceiving), ActionView::Perceive)
        }
    }

    /// The conversation with the limits of the window.
    pub open spec fn managed(self) -> ManagerView {
        (ManagerView {
            config: ContextConfig {
                max_context_length: self.config.context_window,
                response_buffer: self.config.max_tokens as usize,
                min_messages_preserve: 4,
            },
            system: None,
            history: Seq::empty(),
        }).with_all(self.ctx.messages)
    }

    /// How many messages the window makes go.
    pub open spec fn overflow(self) -> nat {
        self.managed().excess()
    }

    /// The loop with its conversation compacted.
    pub open spec fn compacted(self) -> HarnessView {
        let m = self.managed();
        HarnessView {
            ctx: ContextView {
                messages: (ManagerView {
                    history: m.history.skip(self.overflow() as int),
                    ..m
                }).messages(),
                ..self.ctx
            },
            ..self
        }
    }

    /// The request for the conversation.
    pub open spec fn request(self) -> RequestView {
        RequestView {
            model: self.config.model@,
            messages: request::messages_for_model(self.ctx.messages),
            tools: tool::chosen(
                self.tools,
                request::last_user_text_view(self.ctx.messages),
                self.config.tool_context_limit as nat,
            ),
            max_tokens: Some(self.config.max_tokens),
            temperature: self.config.temperature,
            thinking_tokens: self.config.thinking_tokens,
            system: context::prompt_of(self.ctx.messages),
        }
    }

    /// The model is asked, once the conversation fits its window.
    pub open spec fn requested(self) -> StepView {
        let now = self.compacted();
        StepView {
            after: now.at(
                PhaseView::Streaming {
                    text: Seq::empty(),
                    thinking: Seq::empty(),
                    calls: Seq::empty(),
                },
            ),
            effects: if self.overflow() > 0 {
                seq![
                    EffectView::Emit(
                        AgentEventView::Compacting { dropped_turns: self.overflow() as usize },
                    ),
                ]
            } else {
                Seq::empty()
            },
            action: ActionView::Stream(now.request()),
        }
    }

    /// What was perceived is recorded. With nothing but a prompt the loop waits for
    /// input. Before the first request memory is asked, where there is memory. Then the
    /// agent is asked for the prompt of the turn.
    #[verifier::opaque]
    pub open spec fn perceived(
        self,
        blocks: Seq<types::ContentBlockView>,
        now_ms: u64,
    ) -> StepView {
        let now = if blocks.len() == 0 {
            self
        } else {
            HarnessView {
                ctx: self.ctx.with_message(
                    MessageView::User { content: blocks, timestamp_ms: now_ms },
                ),
                ..self
            }
        };
        if now.ctx.messages.len() <= 1 {
            quiet(now.at(PhaseView::Waiting), ActionView::AwaitControl)
        } else if now.recall {
            quiet(
                now.at(PhaseView::Recalling),
                ActionView::Recall(request::last_user_text_view(now.ctx.messages)),
            )
        } else {
            quiet(now.at(PhaseView::Prompting), ActionView::Prompt)
        }
    }

    /// What memory holds joins the system prompt from now on.
    #[verifier::opaque]
    pub open spec fn recalled(self, lines: Seq<Seq<char>>) -> StepView {
        quiet(
            (HarnessView { recall: false, memory: preamble::preamble(lines), ..self }).at(
                PhaseView::Prompting,
            ),
            ActionView::Prompt,
        )
    }

    /// The prompt of the turn is set, and the model is asked.
    #[verifier::opaque]
    pub open spec fn prompted(self, prompt: Seq<char>) -> StepView {
        (HarnessView { ctx: self.ctx.with_prompt(self.full_prompt(prompt)), ..self }).requested()
    }

    /// The next call of the batch is checked, or the turn ends.
    pub open spec fn next_call(
        self,
        rest: Seq<ToolCallView>,
        results: Seq<ToolResultView>,
    ) -> StepView {
        if rest.len() == 0 {
            (HarnessView {
                ctx: self.ctx.with_message(MessageView::ToolResults { results }),
                ..self
            }).turned()
        } else {
            quiet(
                self.at(
                    PhaseView::Gating(
                        BatchView { call: rest[0], rest: rest.drop_first(), results },
                    ),
                ),
                ActionView::CheckTool(rest[0].name),
            )
        }
    }

    /// The turn is over: with permissions bypassed a checkpoint is due every so many
    /// steps, and the next turn begins.
    pub open spec fn turned(self) -> StepView {
        let next = quiet(self.at(PhaseView::Draining), ActionView::PollControl);
        if self.ctx.control_mode == ControlMode::BypassPermissions && self.ctx.taken
            % self.config.bypass_checkpoint_interval == 0 {
            preceded(checkpoint_view(self.ctx, "bypass_interval"@), next)
        } else {
            next
        }
    }

    /// The answer is complete. Without tool calls the session is complete, else the
    /// calls are worked on, as many as the limit allows.
    #[verifier::opaque]
    pub open spec fn streamed(
        self,
        text: Seq<char>,
        thinking: Seq<char>,
        calls: Seq<ToolCallView>,
    ) -> StepView {
        let turn = AssistantTurnView {
            thinking: non_empty(thinking),
            text: non_empty(text),
            tool_calls: calls,
        };
        let now = HarnessView {
            ctx: self.ctx.with_message(MessageView::Assistant(turn)),
            ..self
        };
        if calls.len() == 0 {
            let summary = request::last_answer_view(now.ctx.messages);
            preceded(
                seq![EffectView::Signal(SignalView::Done { summary })] + checkpoint_view(
                    now.ctx,
                    "session_complete"@,
                ) + seq![
                    EffectView::Emit(
                        AgentEventView::Done {
                            session_id: now.ctx.session_id,
                            steps: now.ctx.taken,
                        },
                    ),
                ],
                now.ended(HarnessOutcome::Complete),
            )
        } else {
            now.next_call(first(calls, self.config.max_tools_per_turn as nat), Seq::empty())
        }
    }

    /// A piece of the answer.
    #[verifier::opaque]
    pub open spec fn chunked(
        self,
        text: Seq<char>,
        thinking: Seq<char>,
        calls: Seq<ToolCallView>,
        chunk: StreamChunk,
    ) -> StepView {
        match chunk {
            StreamChunk::Text(t) => StepView {
                after: self.at(PhaseView::Streaming { text: text + t@, thinking, calls }),
                effects: seq![
                    EffectView::Emit(AgentEventView::Content { text: t@ }),
                    EffectView::Signal(SignalView::Thinking { text: t@ }),
                ],
                action: ActionView::NextChunk,
            },
            StreamChunk::Thinking(t) => StepView {
                after: self.at(PhaseView::Streaming { text, thinking: thinking + t@, calls }),
                effects: seq![EffectView::Emit(AgentEventView::Thinking { text: t@ })],
                action: ActionView::NextChunk,
            },
            StreamChunk::ToolCall { id, name, input } => quiet(
                self.at(
                    PhaseView::Streaming {
                        text,
                        thinking,
                        calls: calls.push(ToolCallView { id: id@, name: name@, input: input@ }),
                    },
                ),
                ActionView::NextChunk,
            ),
            StreamChunk::Done => self.streamed(text, thinking, calls),
        }
    }

    /// A control message during the answer: a stop ends the session at once, any
    /// other message is handled and the answer goes on.
    #[verifier::opaque]
    pub open spec fn interrupted(self, m: ControlView, now_ms: u64) -> StepView {
        if m is StopSession {
            self.ended(HarnessOutcome::Stopped)
        } else {
            let (after, effects, go) = self.handled(m, now_ms);
            preceded(effects, quiet(after, ActionView::NextChunk))
        }
    }

    /// The result of a call, which is recorded and announced.
    pub open spec fn finished_call(self, b: BatchView, result: ToolResultView) -> StepView {
        preceded(
            seq![
                EffectView::Emit(
                    AgentEventView::ToolComplete { name: b.call.name, success: !result.is_error },
                ),
                EffectView::Signal(
                    SignalView::ToolDone { tool_name: b.call.name, success: !result.is_error },
                ),
            ],
            self.next_call(b.rest, b.results.push(result)),
        )
    }

    /// What the capability gate decided on the call at hand.
    pub open spec fn decided(self, b: BatchView, decision: DecisionView, now_ms: u64) -> StepView {
        match decision {
            DecisionView::Skip(reason) => self.next_call(
                b.rest,
                b.results.push(types::rejected_view(b.call.id, reason)),
            ),
            DecisionView::Redirect(new_intent) => (HarnessView {
                ctx: self.ctx.with_message(
                    MessageView::ToolResults { results: b.results },
                ).with_message(
                    types::user_text_view("[User redirect] New direction: "@ + new_intent, now_ms),
                ),
                ..self
            }).turned(),
            DecisionView::Proceed => preceded(
                seq![
                    EffectView::Emit(
                        AgentEventView::ToolStart { name: b.call.name, input: b.call.input },
                    ),
                    EffectView::Signal(SignalView::ToolRunning { tool_name: b.call.name }),
                ],
                if sorted_map::as_map(self.tools).dom().contains(b.call.name) {
                    quiet(
                        self.at(PhaseView::Running(b)),
                        ActionView::Run(b.call.name, b.call.input),
                    )
                } else {
                    self.finished_call(
                        b,
                        ToolResultView {
                            tool_call_id: b.call.id,
                            content: "Unknown tool: "@ + b.call.name,
                            is_error: true,
                        },
                    )
                },
            ),
        }
    }

    /// The call at hand meets the capability gate.
    #[verifier::opaque]
    pub open spec fn gated(
        self,
        b: BatchView,
        needed: Seq<capability::CapabilityView>,
        ticket: Seq<char>,
        now_ms: u64,
    ) -> StepView {
        let (gate_after, step) = gate::check_view(
            self.gate,
            b.call,
            self.ctx.control_mode,
            needed,
            ticket,
            now_ms,
        );
        let now = HarnessView { gate: gate_after, ..self };
        match step {
            GateStepView::Decided(decision) => now.decided(b, decision, now_ms),
            GateStepView::Ask(question) => quiet(
                now.at(PhaseView::Asking(b)),
                ActionView::Ask(question),
            ),
        }
    }

    /// A question about the call at hand ended.
    #[verifier::opaque]
    pub open spec fn answered(self, b: BatchView, answer: ApprovalAnswer, now_ms: u64) -> StepView {
        let (gate_after, decision) = gate::conclude_view(
            self.gate,
            b.call.name,
            answer,
            now_ms,
        );
        let now = HarnessView { gate: gate_after, ..self };
        match decision {
            Ok(d) => now.decided(b, d, now_ms),
            Err(e) => now.failed(e.message()),
        }
    }

    /// A tool was run.
    #[verifier::opaque]
    pub open spec fn ran(self, b: BatchView, run: ToolRun) -> StepView {
        self.finished_call(
            b,
            match run {
                ToolRun::Finished(output) => ToolResultView {
                    tool_call_id: b.call.id,
                    content: output_text(output.content@),
                    is_error: output.is_error,
                },
                ToolRun::Failed(error) => ToolResultView {
                    tool_call_id: b.call.id,
                    content: error@,
                    is_error: true,
                },
            },
        )
    }

    /// An error: the agent is asked for its prompt to heal it, or too many errors
    /// came.
    #[verifier::opaque]
    pub open spec fn failed(self, error: Seq<char>) -> StepView {
        let attempt = if self.attempts == usize::MAX {
            self.attempts
        } else {
            (self.attempts + 1) as usize
        };
        let now = HarnessView { attempts: attempt, ..self };
        if attempt > self.config.max_healing_attempts {
            StepView {
                after: now.at(PhaseView::Broken { error }),
                effects: seq![EffectView::Emit(AgentEventView::Error { error })],
                action: ActionView::Fail(error),
            }
        } else {
            StepView {
                after: now.at(PhaseView::Healing { error }),
                effects: seq![EffectView::Emit(AgentEventView::Healing { attempt, error })],
                action: ActionView::Prompt,
            }
        }
    }

    /// The prompt is set, with what to heal, and the next turn begins.
    #[verifier::opaque]
    pub open spec fn healed(self, prompt: Seq<char>, error: Seq<char>) -> StepView {
        let now = HarnessView { note: Some(heal_text(self.attempts as nat, error)), ..self };
        quiet(
            (HarnessView { ctx: now.ctx.with_prompt(now.full_prompt(prompt)), ..now }).at(
                PhaseView::Draining,
            ),
            ActionView::PollControl,
        )
    }

    /// The first prompt is set, and the first turn begins.
    #[verifier::opaque]
    pub open spec fn started(self, prompt: Seq<char>) -> StepView {
        quiet(
            (HarnessView { ctx: self.ctx.with_prompt(prompt), ..self }).at(PhaseView::Draining),
            ActionView::PollControl,
        )
    }
}

/// The text, unless it is empty.
pub open spec fn non_empty(t: Seq<char>) -> Option<Seq<char>> {
    if t.len() == 0 {
        None
    } else {
        Some(t)
    }
}

/// The first calls, `limit` of them at most.
pub open spec fn first(calls: Seq<ToolCallView>, limit: nat) -> Seq<ToolCallView> {
    if calls.len() <= limit {
        calls
    } else {
        calls.take(limit as int)
    }
}

/// The output of a tool as text: a text as it is, anything else as JSON.
pub open spec fn output_text(content: JsonView) -> Seq<char> {
    match content {
        JsonView::Text(t) => t,
        _ => json::written(content),
    }
}

/// What the model is told of an error.
pub open spec fn heal_text(attempt: nat, error: Seq<char>) -> Seq<char> {
    "[auto-heal attempt "@ + text::decimal(attempt) + "] Previous turn failed: "@ + error
        + ". Adjust your approach and continue."@
}

/// One step of the loop. An event that does not fit the phase changes nothing.
pub open spec fn step_view(h: HarnessView, event: HarnessEvent) -> StepView {
    let base = h.at(PhaseView::Draining);
    match (h.phase, event) {
        (PhaseView::Fresh, HarnessEvent::Prompted(prompt)) => base.started(prompt@),
        (PhaseView::Draining, HarnessEvent::Control { message, now_ms }) => base.controlled(
            message@,
            now_ms,
        ),
        (PhaseView::Draining, HarnessEvent::NoControl) => base.drained(),
        (PhaseView::Draining, HarnessEvent::ControlClosed) => base.drained(),
        (PhaseView::Perceiving, HarnessEvent::Perceived { blocks, now_ms }) => base.perceived(
            types::blocks_view(blocks@),
            now_ms,
        ),
        (PhaseView::Waiting, HarnessEvent::Control { message, now_ms }) => base.controlled(
            message@,
            now_ms,
        ),
        (PhaseView::Waiting, HarnessEvent::ControlClosed) => base.ended(HarnessOutcome::Stopped),
        (PhaseView::Recalling, HarnessEvent::Recalled(lines)) => base.recalled(
            text::views(lines@),
        ),
        (PhaseView::Prompting, HarnessEvent::Prompted(prompt)) => base.prompted(prompt@),
        (PhaseView::Streaming { text, thinking, calls }, HarnessEvent::Chunk(chunk)) => base.chunked(
            text,
            thinking,
            calls,
            chunk,
        ),
        (PhaseView::Streaming { text, thinking, calls }, HarnessEvent::StreamEnded) => base.streamed(
            text,
            thinking,
            calls,
        ),
        (PhaseView::Streaming { text, thinking, calls }, HarnessEvent::Failed(error)) => base.failed(
            error@,
        ),
        (
            PhaseView::Streaming { text, thinking, calls },
            HarnessEvent::Control { message, now_ms },
        ) => h.interrupted(message@, now_ms),
        (PhaseView::Streaming { text, thinking, calls }, HarnessEvent::ControlClosed) => quiet(
            h,
            ActionView::NextChunk,
        ),
        (PhaseView::Gating(b), HarnessEvent::Checked { needed, ticket, now_ms }) => base.gated(
            b,
            capability::caps_view(needed@),
            ticket@,
            now_ms,
        ),
        (PhaseView::Asking(b), HarnessEvent::Answered { answer, now_ms }) => base.answered(
            b,
            answer,
            now_ms,
        ),
        (PhaseView::Running(b), HarnessEvent::Ran(run)) => base.ran(b, run),
        (PhaseView::Healing { error }, HarnessEvent::Prompted(prompt)) => base.healed(prompt@, error),
        _ => quiet(h, ActionView::Unexpected),
    }
}

// ---------------------------------------------------------------------------
// The machine
// ---------------------------------------------------------------------------

/// What a step did to a loop.
pub open spec fn made(after: HarnessView, step: Step) -> StepView {
    StepView { after, effects: effects_view(step.effects@), action: step.action@ }
}

fn quiet_step(action: HarnessAction) -> (step: Step)
    ensures
        effects_view(step.effects@) == Seq::<EffectView>::empty(),
        step.action@ == action@,
{
    let step = Step { effects: Vec::new(), action };
    assert(effects_view(step.effects@) =~= Seq::<EffectView>::empty());
    step
}

/// The effects of `step` behind `effects`.
fn behind(effects: Vec<Effect>, step: Step) -> (result: Step)
    ensures
        effects_view(result.effects@) == effects_view(effects@) + effects_view(step.effects@),
        result.action@ == step.action@,
{
    let mut effects = effects;
    let mut more = step.effects;
    let ghost a = effects@;
    let ghost b = more@;
    effects.append(&mut more);
    assert(effects_view(effects@) =~= effects_view(a) + effects_view(b));
    Step { effects, action: step.action }
}

fn push_effect(effects: &mut Vec<Effect>, effect: Effect)
    ensures
        effects_view(final(effects)@) == effects_view(old(effects)@).push(effect@),
{
    effects.push(effect);
    assert(effects_view(effects@) =~= effects_view(old(effects)@).push(effect@));
}

impl Harness {
    /// Whether the settings can be run with: while permissions are bypassed there is a
    /// checkpoint interval.
    pub open spec fn wf(&self) -> bool {
        self.config.bypass_checkpoint_interval > 0 || self.ctx.control_mode
            != ControlMode::BypassPermissions
    }

    /// Whether a control message can be taken: without a checkpoint interval permissions
    /// cannot come to be bypassed.
    pub open spec fn takes_message(&self, message: ControlMessage) -> bool {
        self.config.bypass_checkpoint_interval > 0 || !(message matches ControlMessage::ModeChange {
            mode,
        } && mode == ControlMode::BypassPermissions)
    }

    /// Whether an event can be taken.
    pub open spec fn takes(&self, event: HarnessEvent) -> bool {
        event matches HarnessEvent::Control { message, .. } ==> self.takes_message(message)
    }

    /// The loop of a session that has not begun.
    pub fn new(ctx: Context, config: HarnessConfig, tools: ToolRegistry, gate: CapabilityGate) -> (h:
        Self)
        requires
            config.bypass_checkpoint_interval > 0 || ctx.control_mode
                != ControlMode::BypassPermissions,
        ensures
            h.wf(),
            h@ == (HarnessView {
                ctx: ctx@,
                config,
                tools: tools@,
                gate: gate@,
                recall: false,
                memory: None,
                note: None,
                attempts: 0,
                phase: PhaseView::Fresh,
            }),
    {
        Harness {
            ctx,
            config,
            tools,
            gate,
            recall: false,
            memory: None,
            note: None,
            attempts: 0,
            phase: Phase::Fresh,
        }
    }

    /// The loop with a memory to ask.
    pub fn with_memory(self) -> (h: Self)
        requires
            self.wf(),
        ensures
            h.wf(),
            h@ == (HarnessView { recall: true, ..self@ }),
    {
        Harness { recall: true, ..self }
    }

    /// What to do first: ask the agent for its prompt.
    pub fn start(&self) -> (action: HarnessAction)
        ensures
            action@ == ActionView::Prompt,
    {
        HarnessAction::Prompt
    }

    /// Takes an event in and says what is to be done.
    pub fn step(&mut self, event: HarnessEvent) -> (step: Step)
        requires
            old(self).wf(),
            old(self).takes(event),
        ensures
            final(self).wf(),
            made(final(self)@, step) == step_view(old(self)@, event),
    {
        let ghost h = self@;
        let mut phase = Phase::Draining;
        std::mem::swap(&mut phase, &mut self.phase);
        assert(self@ == h.at(PhaseView::Draining));
        assert(h == self@.at(phase@));
        match (phase, event) {
            (Phase::Fresh, HarnessEvent::Prompted(prompt)) => self.on_started(prompt),
            (Phase::Draining, HarnessEvent::Control { message, now_ms }) => self.on_control(
                message,
                now_ms,
            ),
            (Phase::Draining, HarnessEvent::NoControl) => self.on_drained(),
            (Phase::Draining, HarnessEvent::ControlClosed) => self.on_drained(),
            (Phase::Perceiving, HarnessEvent::Perceived { blocks, now_ms }) => self.on_perceived(
                blocks,
                now_ms,
            ),
            (Phase::Waiting, HarnessEvent::Control { message, now_ms }) => self.on_control(
                message,
                now_ms,
            ),
            (Phase::Waiting, HarnessEvent::ControlClosed) => self.end(HarnessOutcome::Stopped),
            (Phase::Recalling, HarnessEvent::Recalled(lines)) => self.on_recalled(lines),
            (Phase::Prompting, HarnessEvent::Prompted(prompt)) => self.on_prompted(prompt),
            (Phase::Streaming { text, thinking, calls }, HarnessEvent::Chunk(chunk)) =>
                self.on_chunk(text, thinking, calls, chunk),
            (Phase::Streaming { text, thinking, calls }, HarnessEvent::StreamEnded) =>
                self.on_streamed(text, thinking, calls),
            (Phase::Streaming { text, thinking, calls }, HarnessEvent::Failed(error)) =>
                self.on_failed(error),
            (
                Phase::Streaming { text, thinking, calls },
                HarnessEvent::Control { message, now_ms },
            ) => self.on_interrupted(text, thinking, calls, message, now_ms),
            (Phase::Streaming { text, thinking, calls }, HarnessEvent::ControlClosed) => {
                self.phase = Phase::Streaming { text, thinking, calls };
                quiet_step(HarnessAction::NextChunk)
            },
            (Phase::Gating(batch), HarnessEvent::Checked { needed, ticket, now_ms }) =>
                self.on_checked(batch, needed, ticket, now_ms),
            (Phase::Asking(batch), HarnessEvent::Answered { answer, now_ms }) => self.on_answered(
                batch,
                answer,
                now_ms,
            ),
            (Phase::Running(batch), HarnessEvent::Ran(run)) => self.on_ran(batch, run),
            (Phase::Healing { error }, HarnessEvent::Prompted(prompt)) => self.on_healed(
                prompt,
                error,
            ),
            (phase, event) => {
                self.phase = phase;
                quiet_step(HarnessAction::Unexpected)
            },
        }
    }

    fn on_started(&mut self, prompt: String) -> (step: Step)
        requires
            old(self).wf(),
            old(self)@.phase == PhaseView::Draining,
        ensures
            final(self).wf(),
            made(final(self)@, step) == old(self)@.started(prompt@),
    {
        reveal(HarnessView::started);
        self.ctx.set_system_prompt(prompt);
        quiet_step(HarnessAction::PollControl)
    }

    fn on_healed(&mut self, prompt: String, error: String) -> (step: Step)
        requires
            old(self).wf(),
            old(self)@.phase == PhaseView::Draining,
        ensures
            final(self).wf(),
            made(final(self)@, step) == old(self)@.healed(prompt@, error@),
    {
        reveal(HarnessView::healed);
        let mut note = "[auto-heal attempt ".to_string();
        note.append(text::decimal_text(self.attempts as u64).as_str());
        note.append("] Previous turn failed: ");
        note.append(error.as_str());
        note.append(". Adjust your approach and continue.");
        self.note = Some(note);
        let full = self.full_prompt(prompt);
        self.ctx.set_system_prompt(full);
        quiet_step(HarnessAction::PollControl)
    }

    fn on_answered(&mut self, batch: Batch, answer: ApprovalAnswer, now_ms: u64) -> (step: Step)
        requires
            old(self).wf(),
        ensures
            final(self).wf(),
            made(final(self)@, step) == old(self)@.answered(batch@, answer, now_ms),
    {
        reveal(HarnessView::answered);
        match self.gate.conclude(&batch.call, answer, now_ms) {
            Ok(decision) => self.on_decided(batch, decision, now_ms),
            Err(e) => self.on_failed(e.message()),
        }
    }

    fn end(&mut self, outcome: HarnessOutcome) -> (step: Step)
        requires
            old(self).wf(),
        ensures
            final(self).wf(),
            made(final(self)@, step) == old(self)@.ended(outcome),
    {
        self.phase = Phase::Ended(outcome);
        quiet_step(HarnessAction::Finish(outcome))
    }

    /// The effects of a checkpoint.
    fn checkpoint(&self, reason: &str) -> (effects: Vec<Effect>)
        ensures
            effects_view(effects@) == checkpoint_view(self@.ctx, reason@),
    {
        let mut effects: Vec<Effect> = Vec::new();
        push_effect(
            &mut effects,
            Effect::Emit(
                AgentEvent::Checkpoint { step: self.ctx.steps_taken(), reason: reason.to_string() },
            ),
        );
        let mut message = self.ctx.session_id.clone();
        message.append(" \u{2014} ");
        message.append(reason);
        push_effect(&mut effects, Effect::Commit(message));
        assert(effects_view(effects@) =~= checkpoint_view(self@.ctx, reason@));
        effects
    }

    /// Handles a control message.
    fn handle_control(&mut self, msg: ControlMessage, now_ms: u64) -> (result: (
        Vec<Effect>,
        LoopControl,
    ))
        requires
            old(self).wf(),
            old(self).takes_message(msg),
        ensures
            final(self).wf(),
            old(self)@.handled(msg@, now_ms) == (
                final(self)@,
                effects_view(result.0@),
                result.1,
            ),
    {
        let mut effects: Vec<Effect> = Vec::new();
        assert(effects_view(effects@) =~= Seq::<EffectView>::empty());
        match msg {
            ControlMessage::UserInput { text } => {
                self.ctx.push_user_text(text, now_ms);
                (effects, LoopControl::Continue)
            },
            ControlMessage::ModeChange { mode } => {
                self.ctx.set_mode(mode);
                push_effect(&mut effects, Effect::Emit(AgentEvent::ModeChange { mode }));
                let message = "Mode changed to ".to_string().concat(mode.title_text().as_str());
                self.ctx.log_interrupt(Interrupt::info(message));
                assert(effects_view(effects@) =~= seq![
                    EffectView::Emit(AgentEventView::ModeChange { mode }),
                ]);
                (effects, LoopControl::Continue)
            },
            ControlMessage::ApprovalResponse { request_id, decision } => {
                let delivered = self.gate.resolve_approval(request_id.as_str(), decision);
                if let Some(decision) = delivered {
                    push_effect(&mut effects, Effect::Deliver { request_id, decision });
                }
                assert(effects_view(effects@) =~= old(self)@.handled(msg@, now_ms).1);
                (effects, LoopControl::Continue)
            },
            ControlMessage::StopSession { session_id } => (effects, LoopControl::Stop),
            ControlMessage::ParkSession { session_id } => (
                self.checkpoint("park"),
                LoopControl::Freeze,
            ),
            ControlMessage::MigrateSession { session_id, target_node } => (
                self.checkpoint("migrate"),
                LoopControl::Freeze,
            ),
            _ => (effects, LoopControl::Continue),
        }
    }

    fn on_control(&mut self, message: ControlMessage, now_ms: u64) -> (step: Step)
        requires
            old(self).wf(),
            old(self).takes_message(message),
            old(self)@.phase == PhaseView::Draining,
        ensures
            final(self).wf(),
            made(final(self)@, step) == old(self)@.controlled(message@, now_ms),
    {
        reveal(HarnessView::controlled);
        let (effects, go) = self.handle_control(message, now_ms);
        match go {
            LoopControl::Continue => behind(effects, quiet_step(HarnessAction::PollControl)),
            LoopControl::Stop => {
                let ending = self.end(HarnessOutcome::Stopped);
                behind(effects, ending)
            },
            LoopControl::Freeze => {
                let ending = self.end(HarnessOutcome::Frozen);
                behind(effects, ending)
            },
        }
    }

    fn on_drained(&mut self) -> (step: Step)
        requires
            old(self).wf(),
        ensures
            final(self).wf(),
            made(final(self)@, step) == old(self)@.drained(),
    {
        reveal(HarnessView::drained);
        if self.ctx.step_limit_reached() {
            let effects = self.checkpoint("step_limit");
            let ending = self.end(HarnessOutcome::StepLimit);
            behind(effects, ending)
        } else {
            self.phase = Phase::Perceiving;
            quiet_step(HarnessAction::Perceive)
        }
    }

    fn on_perceived(&mut self, blocks: Vec<ContentBlock>, now_ms: u64) -> (step: Step)
        requires
            old(self).wf(),
        ensures
            final(self).wf(),
            made(final(self)@, step) == old(self)@.perceived(
                types::blocks_view(blocks@),
                now_ms,
            ),
    {
        reveal(HarnessView::perceived);
        self.ctx.push_perception(blocks, now_ms);
        assert(self.ctx.messages@.len() == self@.ctx.messages.len());
        if self.ctx.messages.len() <= 1 {
            self.phase = Phase::Waiting;
            quiet_step(HarnessAction::AwaitControl)
        } else if self.recall {
            let hint = request::last_user_text(&self.ctx.messages);
            self.phase = Phase::Recalling;
            quiet_step(HarnessAction::Recall { hint })
        } else {
            self.phase = Phase::Prompting;
            quiet_step(HarnessAction::Prompt)
        }
    }

    fn on_recalled(&mut self, lines: Vec<String>) -> (step: Step)
        requires
            old(self).wf(),
        ensures
            final(self).wf(),
            made(final(self)@, step) == old(self)@.recalled(text::views(lines@)),
    {
        reveal(HarnessView::recalled);
        self.recall = false;
        self.memory = preamble::memory_preamble(lines.as_slice());
        self.phase = Phase::Prompting;
        quiet_step(HarnessAction::Prompt)
    }

    /// The prompt with what memory and the latest error add to it.
    fn full_prompt(&self, prompt: String) -> (full: String)
        ensures
            full@ == self@.full_prompt(prompt@),
    {
        let mut full = prompt;
        if let Some(memory) = &self.memory {
            full.append("\n\n");
            full.append(memory.as_str());
        }
        if let Some(note) = &self.note {
            full.append("\n\n");
            full.append(note.as_str());
        }
        assert(full@ =~= self@.full_prompt(prompt@));
        full
    }

    fn on_prompted(&mut self, prompt: String) -> (step: Step)
        requires
            old(self).wf(),
        ensures
            final(self).wf(),
            made(final(self)@, step) == old(self)@.prompted(prompt@),
    {
        reveal(HarnessView::prompted);
        let full = self.full_prompt(prompt);
        self.ctx.set_system_prompt(full);
        self.request_step()
    }

    /// Compacts the conversation where it outgrows the window, and says how many
    /// messages were dropped.
    fn compact_context(&mut self) -> (dropped: usize)
        requires
            old(self).wf(),
        ensures
            final(self).wf(),
            final(self)@ == old(self)@.compacted(),
            dropped == old(self)@.overflow(),
    {
        let config = ContextConfig {
            max_context_length: self.config.context_window,
            response_buffer: self.config.max_tokens as usize,
            min_messages_preserve: 4,
        };
        let mut manager = ContextManager::new(config);
        let mut messages: Vec<ConversationMessage> = Vec::new();
        std::mem::swap(&mut messages, &mut self.ctx.messages);
        manager.replace_all(messages);
        let ghost m = manager@;
        let mut dropped: usize = 0;
        if manager.needs_compaction() {
            dropped = manager.compact();
        } else {
            assert(m.excess() == 0);
            assert(m.history.skip(0) =~= m.history);
        }
        self.ctx.messages = manager.messages();
        dropped
    }

    /// The request for the conversation.
    fn build_request(&self) -> (req: CompletionRequest)
        ensures
            req@ == self@.request(),
    {
        let query = request::last_user_text(&self.ctx.messages);
        let system = match self.ctx.system_prompt() {
            Some(p) => Some(p.to_string()),
            None => None,
        };
        let req = CompletionRequest {
            model: self.config.model.clone(),
            messages: request::convert_messages(&self.ctx.messages),
            tools: self.tools.filter(query.as_str(), self.config.tool_context_limit),
            max_tokens: Some(self.config.max_tokens),
            temperature: self.config.temperature,
            thinking_tokens: self.config.thinking_tokens,
            system,
        };
        assert(req@.tools =~= self@.request().tools);
        assert(req@.messages =~= self@.request().messages);
        req
    }

    fn request_step(&mut self) -> (step: Step)
        requires
            old(self).wf(),
        ensures
            final(self).wf(),
            made(final(self)@, step) == old(self)@.requested(),
    {
        let dropped: usize = self.compact_context();
        let mut effects: Vec<Effect> = Vec::new();
        if dropped > 0 {
            push_effect(
                &mut effects,
                Effect::Emit(AgentEvent::Compacting { dropped_turns: dropped }),
            );
        }
        assert(effects_view(effects@) =~= old(self)@.requested().effects);
        let req = self.build_request();
        self.phase = Phase::Streaming {
            text: String::new(),
            thinking: String::new(),
            calls: Vec::new(),
        };
        assert(self@.phase->calls =~= Seq::<ToolCallView>::empty());
        Step { effects, action: HarnessAction::Stream(req) }
    }

    fn on_chunk(
        &mut self,
        text: String,
        thinking: String,
        calls: Vec<ToolCall>,
        chunk: StreamChunk,
    ) -> (step: Step)
        requires
            old(self).wf(),
        ensures
            final(self).wf(),
            made(final(self)@, step) == old(self)@.chunked(
                text@,
                thinking@,
                types::calls_view(calls@),
                chunk,
            ),
    {
        reveal(HarnessView::chunked);
        let mut text = text;
        let mut thinking = thinking;
        let mut calls = calls;
        match chunk {
            StreamChunk::Text(t) => {
                text.append(t.as_str());
                let mut effects: Vec<Effect> = Vec::new();
                push_effect(
                    &mut effects,
                    Effect::Emit(AgentEvent::Content { text: t.clone() }),
                );
                push_effect(&mut effects, Effect::Signal(SurfaceSignal::Thinking { text: t }));
                assert(effects_view(effects@) =~= seq![
                    EffectView::Emit(AgentEventView::Content { text: t@ }),
                    EffectView::Signal(SignalView::Thinking { text: t@ }),
                ]);
                self.phase = Phase::Streaming { text, thinking, calls };
                Step { effects, action: HarnessAction::NextChunk }
            },
            StreamChunk::Thinking(t) => {
                thinking.append(t.as_str());
                let mut effects: Vec<Effect> = Vec::new();
                push_effect(&mut effects, Effect::Emit(AgentEvent::Thinking { text: t }));
                assert(effects_view(effects@) =~= seq![
                    EffectView::Emit(AgentEventView::Thinking { text: t@ }),
                ]);
                self.phase = Phase::Streaming { text, thinking, calls };
                Step { effects, action: HarnessAction::NextChunk }
            },
            StreamChunk::ToolCall { id, name, input } => {
                let ghost before = calls@;
                let call = ToolCall { id, name, input };
                calls.push(call);
                assert(types::calls_view(calls@) =~= types::calls_view(before).push(call@));
                self.phase = Phase::Streaming { text, thinking, calls };
                quiet_step(HarnessAction::NextChunk)
            },
            StreamChunk::Done => self.on_streamed(text, thinking, calls),
        }
    }

    fn on_streamed(&mut self, text: String, thinking: String, calls: Vec<ToolCall>) -> (step: Step)
        requires
            old(self).wf(),
        ensures
            final(self).wf(),
            made(final(self)@, step) == old(self)@.streamed(
                text@,
                thinking@,
                types::calls_view(calls@),
            ),
    {
        reveal(HarnessView::streamed);
        let n: usize = calls.len();
        let batch = first_calls(&calls, self.config.max_tools_per_turn);
        let turn = AssistantTurn {
            thinking: if thinking.as_str().is_empty() {
                None
            } else {
                Some(thinking)
            },
            text: if text.as_str().is_empty() {
                None
            } else {
                Some(text)
            },
            tool_calls: calls,
        };
        self.ctx.push_assistant(turn);
        assert(types::calls_view(calls@).len() == n);
        if n == 0 {
            let summary = request::last_answer(&self.ctx.messages);
            let mut effects: Vec<Effect> = Vec::new();
            push_effect(&mut effects, Effect::Signal(SurfaceSignal::Done { summary }));
            let checkpoint = Step {
                effects: self.checkpoint("session_complete"),
                action: HarnessAction::PollControl,
            };
            let mut effects = behind(effects, checkpoint).effects;
            push_effect(
                &mut effects,
                Effect::Emit(
                    AgentEvent::Done {
                        session_id: self.ctx.session_id.clone(),
                        steps: self.ctx.steps_taken(),
                    },
                ),
            );
            let ghost now = self@;
            assert(effects_view(effects@) =~= seq![
                EffectView::Signal(SignalView::Done { summary: summary@ }),
            ] + checkpoint_view(now.ctx, "session_complete"@) + seq![
                EffectView::Emit(
                    AgentEventView::Done { session_id: now.ctx.session_id, steps: now.ctx.taken },
                ),
            ]);
            let ending = self.end(HarnessOutcome::Complete);
            behind(effects, ending)
        } else {
            let none: Vec<ToolResult> = Vec::new();
            assert(types::results_view(none@) =~= Seq::<ToolResultView>::empty());
            self.next_call(batch, none)
        }
    }

    fn next_call(&mut self, rest: VecDeque<ToolCall>, results: Vec<ToolResult>) -> (step: Step)
        requires
            old(self).wf(),
        ensures
            final(self).wf(),
            made(final(self)@, step) == old(self)@.next_call(
                types::calls_view(rest@),
                types::results_view(results@),
            ),
    {
        let mut rest = rest;
        let ghost all = rest@;
        match rest.pop_front() {
            None => {
                self.ctx.push_tool_results(results);
                self.turn_over()
            },
            Some(call) => {
                assert(call@ == types::calls_view(all)[0]);
                assert(types::calls_view(rest@) =~= types::calls_view(all).drop_first());
                let name = call.name.clone();
                self.phase = Phase::Gating(Batch { call, rest, results });
                quiet_step(HarnessAction::CheckTool { name })
            },
        }
    }

    fn turn_over(&mut self) -> (step: Step)
        requires
            old(self).wf(),
        ensures
            final(self).wf(),
            made(final(self)@, step) == old(self)@.turned(),
    {
        self.phase = Phase::Draining;
        if self.ctx.is_bypass() && self.ctx.steps_taken() % self.config.bypass_checkpoint_interval
            == 0 {
            let effects = self.checkpoint("bypass_interval");
            behind(effects, quiet_step(HarnessAction::PollControl))
        } else {
            quiet_step(HarnessAction::PollControl)
        }
    }

    fn on_interrupted(
        &mut self,
        text: String,
        thinking: String,
        calls: Vec<ToolCall>,
        message: ControlMessage,
        now_ms: u64,
    ) -> (step: Step)
        requires
            old(self).wf(),
            old(self).takes_message(message),
        ensures
            final(self).wf(),
            made(final(self)@, step) == old(self)@.at(
                PhaseView::Streaming {
                    text: text@,
                    thinking: thinking@,
                    calls: types::calls_view(calls@),
                },
            ).interrupted(message@, now_ms),
    {
        reveal(HarnessView::interrupted);
        self.phase = Phase::Streaming { text, thinking, calls };
        let stop = match &message {
            ControlMessage::StopSession { session_id } => true,
            _ => false,
        };
        if stop {
            self.end(HarnessOutcome::Stopped)
        } else {
            let (effects, go) = self.handle_control(message, now_ms);
            behind(effects, quiet_step(HarnessAction::NextChunk))
        }
    }

    fn on_checked(
        &mut self,
        batch: Batch,
        needed: Vec<Capability>,
        ticket: String,
        now_ms: u64,
    ) -> (step: Step)
        requires
            old(self).wf(),
        ensures
            final(self).wf(),
            made(final(self)@, step) == old(self)@.gated(
                batch@,
                capability::caps_view(needed@),
                ticket@,
                now_ms,
            ),
    {
        reveal(HarnessView::gated);
        let mode = self.ctx.control_mode;
        match self.gate.check(&batch.call, mode, &needed, ticket.as_str(), now_ms) {
            GateStep::Decided(decision) => self.on_decided(batch, decision, now_ms),
            GateStep::Ask(question) => {
                self.phase = Phase::Asking(batch);
                quiet_step(HarnessAction::Ask(question))
            },
        }
    }

    fn on_decided(&mut self, batch: Batch, decision: GateDecision, now_ms: u64) -> (step: Step)
        requires
            old(self).wf(),
        ensures
            final(self).wf(),
            made(final(self)@, step) == old(self)@.decided(batch@, decision@, now_ms),
    {
        match decision {
            GateDecision::Skip { reason } => {
                let result = ToolResult::rejected(batch.call.id.clone(), reason);
                let mut results = batch.results;
                let ghost before = results@;
                results.push(result);
                assert(types::results_view(results@) =~= types::results_view(before).push(result@));
                self.next_call(batch.rest, results)
            },
            GateDecision::Redirect { new_intent } => {
                let text = "[User redirect] New direction: ".to_string().concat(
                    new_intent.as_str(),
                );
                self.ctx.push_tool_results(batch.results);
                self.ctx.push_user_text(text, now_ms);
                self.turn_over()
            },
            GateDecision::Proceed => {
                let mut effects: Vec<Effect> = Vec::new();
                push_effect(
                    &mut effects,
                    Effect::Emit(
                        AgentEvent::ToolStart {
                            name: batch.call.name.clone(),
                            input: batch.call.input.copy(),
                        },
                    ),
                );
                push_effect(
                    &mut effects,
                    Effect::Signal(
                        SurfaceSignal::ToolRunning { tool_name: batch.call.name.clone() },
                    ),
                );
                assert(effects_view(effects@) =~= seq![
                    EffectView::Emit(
                        AgentEventView::ToolStart {
                            name: batch@.call.name,
                            input: batch@.call.input,
                        },
                    ),
                    EffectView::Signal(
                        SignalView::ToolRunning { tool_name: batch@.call.name },
                    ),
                ]);
                if self.tools.get(batch.call.name.as_str()).is_some() {
                    let name = batch.call.name.clone();
                    let input = batch.call.input.copy();
                    self.phase = Phase::Running(batch);
                    behind(effects, quiet_step(HarnessAction::Run { name, input }))
                } else {
                    let message = "Unknown tool: ".to_string().concat(batch.call.name.as_str());
                    let result = ToolResult::err(batch.call.id.clone(), message);
                    let finished = self.finish_call(batch, result);
                    behind(effects, finished)
                }
            },
        }
    }

    fn finish_call(&mut self, batch: Batch, result: ToolResult) -> (step: Step)
        requires
            old(self).wf(),
        ensures
            final(self).wf(),
            made(final(self)@, step) == old(self)@.finished_call(batch@, result@),
    {
        let success = !result.is_error;
        let mut effects: Vec<Effect> = Vec::new();
        push_effect(
            &mut effects,
            Effect::Emit(AgentEvent::ToolComplete { name: batch.call.name.clone(), success }),
        );
        push_effect(
            &mut effects,
            Effect::Signal(
                SurfaceSignal::ToolDone { tool_name: batch.call.name.clone(), success },
            ),
        );
        assert(effects_view(effects@) =~= seq![
            EffectView::Emit(AgentEventView::ToolComplete { name: batch@.call.name, success }),
            EffectView::Signal(SignalView::ToolDone { tool_name: batch@.call.name, success }),
        ]);
        let mut results = batch.results;
        let ghost before = results@;
        results.push(result);
        assert(types::results_view(results@) =~= types::results_view(before).push(result@));
        let next = self.next_call(batch.rest, results);
        behind(effects, next)
    }

    fn on_ran(&mut self, batch: Batch, run: ToolRun) -> (step: Step)
        requires
            old(self).wf(),
        ensures
            final(self).wf(),
            made(final(self)@, step) == old(self)@.ran(batch@, run),
    {
        reveal(HarnessView::ran);
        let id = batch.call.id.clone();
        let result = match run {
            ToolRun::Finished(output) => {
                let content = match &output.content {
                    Json::Text(t) => t.clone(),
                    other => json::write(other),
                };
                if output.is_error {
                    ToolResult::err(id, content)
                } else {
                    ToolResult::ok(id, content)
                }
            },
            ToolRun::Failed(error) => ToolResult::err(id, error),
        };
        self.finish_call(batch, result)
    }

    fn on_failed(&mut self, error: String) -> (step: Step)
        requires
            old(self).wf(),
        ensures
            final(self).wf(),
            made(final(self)@, step) == old(self)@.failed(error@),
    {
        reveal(HarnessView::failed);
        self.attempts = self.attempts.saturating_add(1);
        let mut effects: Vec<Effect> = Vec::new();
        if self.attempts > self.config.max_healing_attempts {
            push_effect(&mut effects, Effect::Emit(AgentEvent::Error { error: error.clone() }));
            assert(effects_view(effects@) =~= seq![
                EffectView::Emit(AgentEventView::Error { error: error@ }),
            ]);
            self.phase = Phase::Broken { error: error.clone() };
            Step { effects, action: HarnessAction::Fail(error) }
        } else {
            push_effect(
                &mut effects,
                Effect::Emit(
                    AgentEvent::Healing { attempt: self.attempts, error: error.clone() },
                ),
            );
            assert(effects_view(effects@) =~= seq![
                EffectView::Emit(
                    AgentEventView::Healing { attempt: self.attempts, error: error@ },
                ),
            ]);
            self.phase = Phase::Healing { error };
            Step { effects, action: HarnessAction::Prompt }
        }
    }
}

/// The first calls, `limit` of them at most.
fn first_calls(calls: &Vec<ToolCall>, limit: usize) -> (batch: VecDeque<ToolCall>)
    ensures
        types::calls_view(batch@) == first(types::calls_view(calls@), limit as nat),
{
    let ghost all = types::calls_view(calls@);
    let mut batch: VecDeque<ToolCall> = VecDeque::new();
    let mut i: usize = 0;
    while i < calls.len() && i < limit
        invariant
            i <= calls.len(),
            i <= limit,
            batch@.len() == i,
            forall|k: int| 0 <= k < i ==> (#[trigger] batch@[k])@ == calls@[k]@,
        decreases calls.len() - i,
    {
        batch.push_back(calls[i].copy());
        i += 1;
    }
    assert(types::calls_view(batch@) =~= first(all, limit as nat));
    batch
}

} // verus!
