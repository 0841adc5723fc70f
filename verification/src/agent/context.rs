//! The working memory of a running session.

use vstd::prelude::*;
use crate::agent::capability::CapabilitySet;
use crate::agent::capability::CapabilityView;
use crate::agent::interrupt;
use crate::agent::interrupt::Interrupt;
use crate::agent::interrupt::InterruptView;
use crate::agent::mode::ControlMode;
use crate::agent::state::RuntimeSnapshot;
use crate::agent::state::SnapshotView;
use crate::agent::surface::SessionLayout;
use crate::agent::types;
use crate::agent::types::AssistantTurn;
use crate::agent::types::ContentBlock;
use crate::agent::types::ConversationMessage;
use crate::agent::types::MessageView;
use crate::agent::types::ToolResult;
use crate::text;

verus! {

/// The state of a session.
pub struct Context {
    pub agent_id: String,
    pub session_id: String,
    /// The goal, for people.
    pub label: String,
    pub scenario: Option<String>,
    pub messages: Vec<ConversationMessage>,
    pub capabilities: CapabilitySet,
    pub control_mode: ControlMode,
    pub interrupt_log: Vec<Interrupt>,
    pub max_steps: Option<u32>,
    pub taken: u32,
    pub layout: SessionLayout,
    pub active_apps: Vec<String>,
}

/// What a session state is.
#[verifier::ext_equal]
pub struct ContextView {
    pub agent_id: Seq<char>,
    pub session_id: Seq<char>,
    pub label: Seq<char>,
    pub scenario: Option<Seq<char>>,
    pub messages: Seq<MessageView>,
    pub capabilities: Set<CapabilityView>,
    pub control_mode: ControlMode,
    pub interrupt_log: Seq<InterruptView>,
    pub max_steps: Option<u32>,
    pub taken: u32,
    pub layout: SessionLayout,
    pub active_apps: Seq<Seq<char>>,
}

impl View for Context {
    type V = ContextView;

    open spec fn view(&self) -> ContextView {
        ContextView {
            agent_id: self.agent_id@,
            session_id: self.session_id@,
            label: self.label@,
            scenario: text::opt_view(self.scenario),
            messages: types::messages_view(self.messages@),
            capabilities: self.capabilities@,
            control_mode: self.control_mode,
            interrupt_log: interrupt::interrupts_view(self.interrupt_log@),
            max_steps: self.max_steps,
            taken: self.taken,
            layout: self.layout,
            active_apps: text::views(self.active_apps@),
        }
    }
}

/// One step more, as far as the counter goes.
pub open spec fn one_more(n: u32) -> u32 {
    if n == u32::MAX {
        n
    } else {
        (n + 1) as u32
    }
}

/// The conversation with its system prompt set: the prompt is the first message,
/// in place of the one before where there was one.
pub open spec fn prompted(messages: Seq<MessageView>, prompt: Seq<char>) -> Seq<MessageView> {
    let message = MessageView::System { content: prompt };
    if messages.len() == 0 {
        seq![message]
    } else if messages[0] is System {
        messages.update(0, message)
    } else {
        messages.insert(0, message)
    }
}

/// The system prompt of a conversation, which is its first message.
pub open spec fn prompt_of(messages: Seq<MessageView>) -> Option<Seq<char>> {
    if messages.len() == 0 {
        None
    } else {
        match messages[0] {
            MessageView::System { content } => Some(content),
            _ => None,
        }
    }
}

impl ContextView {
    /// The state with one more message. Answers of the model count as steps.
    pub open spec fn with_message(self, message: MessageView) -> ContextView {
        ContextView {
            messages: self.messages.push(message),
            taken: if message is Assistant {
                one_more(self.taken)
            } else {
                self.taken
            },
            ..self
        }
    }

    /// The state with its system prompt set.
    pub open spec fn with_prompt(self, prompt: Seq<char>) -> ContextView {
        ContextView { messages: prompted(self.messages, prompt), ..self }
    }

    /// Whether the session has used up its steps.
    pub open spec fn at_limit(self) -> bool {
        match self.max_steps {
            Some(max) => self.taken >= max,
            None => false,
        }
    }
}

/// The state of a session that was frozen, with the rights of this host.
pub open spec fn restored(runtime: SnapshotView, capabilities: Set<CapabilityView>) -> ContextView {
    ContextView {
        agent_id: runtime.agent_id,
        session_id: runtime.session_id,
        label: runtime.session_label,
        scenario: runtime.scenario,
        messages: runtime.messages,
        capabilities,
        control_mode: runtime.control_mode,
        interrupt_log: runtime.interrupt_queue,
        max_steps: None,
        taken: runtime.step as u32,
        layout: runtime.layout,
        active_apps: runtime.active_apps,
    }
}

impl Context {
    /// The state of a new session.
    pub fn new(agent_id: String, session_id: String) -> (ctx: Self)
        ensures
            ctx@ == (ContextView {
                agent_id: agent_id@,
                session_id: session_id@,
                label: Seq::empty(),
                scenario: None,
                messages: Seq::empty(),
                capabilities: Set::empty(),
                control_mode: ControlMode::AgentMode,
                interrupt_log: Seq::empty(),
                max_steps: None,
                taken: 0,
                layout: SessionLayout::SplitTwo { ratio_agent: 30 },
                active_apps: Seq::empty(),
            }),
    {
        let ctx = Context {
            agent_id,
            session_id,
            label: String::new(),
            scenario: None,
            messages: Vec::new(),
            capabilities: CapabilitySet::new(),
            control_mode: ControlMode::default(),
            interrupt_log: Vec::new(),
            max_steps: None,
            taken: 0,
            layout: SessionLayout::default(),
            active_apps: Vec::new(),
        };
        assert(ctx@.messages =~= Seq::<MessageView>::empty());
        assert(ctx@.interrupt_log =~= Seq::<InterruptView>::empty());
        assert(ctx@.active_apps =~= Seq::<Seq<char>>::empty());
        ctx
    }

    /// The state of a session that was frozen. Rights are not frozen with it; they
    /// are those of this host.
    pub fn from_snapshot(runtime: &RuntimeSnapshot, capabilities: CapabilitySet) -> (ctx: Self)
        ensures
            ctx@ == restored(runtime@, capabilities@),
    {
        Context {
            agent_id: runtime.agent_id.clone(),
            session_id: runtime.session_id.clone(),
            label: runtime.session_label.clone(),
            scenario: text::copy_opt(&runtime.scenario),
            messages: types::copy_messages(&runtime.messages),
            capabilities,
            control_mode: runtime.control_mode,
            interrupt_log: interrupt::copy_interrupts(&runtime.interrupt_queue),
            max_steps: None,
            taken: #[verifier::truncate] (runtime.step as u32),
            layout: runtime.layout,
            active_apps: text::copy_texts(&runtime.active_apps),
        }
    }

    /// Adds a message. Answers of the model count as steps.
    pub fn push_message(&mut self, msg: ConversationMessage)
        ensures
            final(self)@ == old(self)@.with_message(msg@),
    {
        let is_assistant = match &msg {
            ConversationMessage::Assistant(turn) => true,
            _ => false,
        };
        let ghost before = self@;
        self.messages.push(msg);
        if is_assistant {
            self.taken = self.taken.saturating_add(1);
        }
        assert(self@.messages =~= before.messages.push(msg@));
    }

    /// Adds an answer of the model.
    pub fn push_assistant(&mut self, turn: AssistantTurn)
        ensures
            final(self)@ == old(self)@.with_message(MessageView::Assistant(turn@)),
    {
        self.push_message(ConversationMessage::Assistant(turn));
    }

    /// Adds the results of tool calls.
    pub fn push_tool_results(&mut self, results: Vec<ToolResult>)
        ensures
            final(self)@ == old(self)@.with_message(
                MessageView::ToolResults { results: types::results_view(results@) },
            ),
    {
        self.push_message(ConversationMessage::ToolResults { results });
    }

    /// Adds what the user said.
    pub fn push_user_text(&mut self, text: String, now_ms: u64)
        ensures
            final(self)@ == old(self)@.with_message(types::user_text_view(text@, now_ms)),
    {
        self.push_message(ConversationMessage::user_text(text, now_ms));
    }

    /// Adds what was perceived, if anything was.
    pub fn push_perception(&mut self, blocks: Vec<ContentBlock>, now_ms: u64)
        ensures
            final(self)@ == (if blocks@.len() == 0 {
                old(self)@
            } else {
                old(self)@.with_message(
                    MessageView::User {
                        content: types::blocks_view(blocks@),
                        timestamp_ms: now_ms,
                    },
                )
            }),
    {
        if blocks.len() > 0 {
            self.push_message(ConversationMessage::user(blocks, now_ms));
        }
    }

    /// The system prompt, which is the first message.
    pub fn system_prompt(&self) -> (prompt: Option<&str>)
        ensures
            match prompt {
                Some(p) => prompt_of(self@.messages) == Some(p@),
                None => prompt_of(self@.messages) is None,
            },
    {
        if self.messages.len() == 0 {
            return None;
        }
        match &self.messages[0] {
            ConversationMessage::System { content } => Some(content.as_str()),
            _ => None,
        }
    }

    /// Sets the system prompt.
    pub fn set_system_prompt(&mut self, prompt: String)
        ensures
            final(self)@ == old(self)@.with_prompt(prompt@),
    {
        let ghost before = self@;
        let msg = ConversationMessage::system(prompt);
        if self.messages.len() == 0 {
            self.messages.push(msg);
        } else {
            let replace = match &self.messages[0] {
                ConversationMessage::System { content } => true,
                _ => false,
            };
            assert(before.messages[0] == self.messages@[0]@);
            if replace {
                self.messages[0] = msg;
            } else {
                self.messages.insert(0, msg);
            }
        }
        assert(self@.messages =~= prompted(before.messages, prompt@));
    }

    /// Records an interrupt.
    pub fn log_interrupt(&mut self, interrupt: Interrupt)
        ensures
            final(self)@ == (ContextView {
                interrupt_log: old(self)@.interrupt_log.push(interrupt@),
                ..old(self)@
            }),
    {
        let ghost before = self@;
        self.interrupt_log.push(interrupt);
        assert(self@.interrupt_log =~= before.interrupt_log.push(interrupt@));
    }

    /// The number of answers of the model so far.
    pub fn steps_taken(&self) -> (n: u32)
        ensures
            n == self@.taken,
    {
        self.taken
    }

    /// Whether the session has used up its steps.
    pub fn step_limit_reached(&self) -> (r: bool)
        ensures
            r == self@.at_limit(),
    {
        match self.max_steps {
            Some(max) => self.taken >= max,
            None => false,
        }
    }

    /// Whether permissions are bypassed.
    pub fn is_bypass(&self) -> (r: bool)
        ensures
            r == (self@.control_mode == ControlMode::BypassPermissions),
    {
        self.control_mode.is_bypass()
    }

    /// Sets the control mode.
    pub fn set_mode(&mut self, mode: ControlMode)
        ensures
            final(self)@ == (ContextView { control_mode: mode, ..old(self)@ }),
    {
        self.control_mode = mode;
    }
}

/// A prompt that was set is the prompt, and the other messages stay as they were.
pub proof fn lemma_prompt(ctx: ContextView, prompt: Seq<char>)
    ensures
        prompt_of(ctx.with_prompt(prompt).messages) == Some(prompt),
        ctx.with_prompt(prompt).with_prompt(prompt) == ctx.with_prompt(prompt),
        ({
            let rest = if prompt_of(ctx.messages) is Some {
                ctx.messages.skip(1)
            } else {
                ctx.messages
            };
            ctx.with_prompt(prompt).messages.skip(1) == rest
        }),
{
    let messages = ctx.messages;
    let now = prompted(messages, prompt);
    assert(prompted(now, prompt) =~= now);
    if prompt_of(messages) is Some {
        assert(now.skip(1) =~= messages.skip(1));
    } else {
        assert(now.skip(1) =~= messages);
    }
}

// ---------------------------------------------------------------------------
// What a session keeps
// ---------------------------------------------------------------------------

/// What is said goes behind what was said before, whoever says it, and what the session is
/// otherwise stays. An answer of the model counts as one step, and nothing else does.
pub proof fn lemma_conversation_grows(ctx: ContextView, message: MessageView)
    ensures
        ({
            let after = ctx.with_message(message);
            &&& after.messages == ctx.messages + seq![message]
            &&& message is Assistant && ctx.taken < u32::MAX ==> after.taken == ctx.taken + 1
            &&& message is Assistant && ctx.taken == u32::MAX ==> after.taken == u32::MAX
            &&& !(message is Assistant) ==> after.taken == ctx.taken
            &&& after == (ContextView { messages: after.messages, taken: after.taken, ..ctx })
        }),
{
    assert(ctx.messages.push(message) =~= ctx.messages + seq![message]);
}

/// A session is at its limit exactly where it has one and has taken so many steps.
pub proof fn lemma_limit(ctx: ContextView)
    ensures
        ctx.at_limit() <==> (ctx.max_steps matches Some(max) && ctx.taken >= max),
{
}

/// A session that was frozen goes on as what it was: with its names, its conversation, its
/// interrupts, its mode, its layout and its applications. The rights are those of the host.
pub proof fn lemma_resumed(runtime: SnapshotView, capabilities: Set<CapabilityView>)
    ensures
        ({
            let ctx = restored(runtime, capabilities);
            &&& ctx.agent_id == runtime.agent_id
            &&& ctx.session_id == runtime.session_id
            &&& ctx.label == runtime.session_label
            &&& ctx.scenario == runtime.scenario
            &&& ctx.messages == runtime.messages
            &&& ctx.control_mode == runtime.control_mode
            &&& ctx.interrupt_log == runtime.interrupt_queue
            &&& ctx.layout == runtime.layout
            &&& ctx.active_apps == runtime.active_apps
            &&& ctx.capabilities == capabilities
            &&& ctx.max_steps is None
            &&& runtime.step <= u32::MAX ==> ctx.taken == runtime.step
        }),
{
}

/// A new session has nothing in it but its names: no rights and no conversation.
pub proof fn lemma_new_state(agent_id: String, session_id: String, ctx: Context)
    requires
        call_ensures(Context::new, (agent_id, session_id), ctx),
    ensures
        ctx@.agent_id == agent_id@,
        ctx@.session_id == session_id@,
        ctx@.messages.len() == 0,
        ctx@.capabilities == Set::<CapabilityView>::empty(),
        ctx@.control_mode == ControlMode::AgentMode,
        ctx@.max_steps is None,
        ctx@.taken == 0,
        ctx@.layout == (SessionLayout::SplitTwo { ratio_agent: 30 }),
{
}

/// What was perceived is said by the user, all of it, and where nothing was, nothing is said.
/// What the user types is one text.
pub proof fn lemma_user_speaks(
    a: &mut Context,
    b: &mut Context,
    blocks: Vec<ContentBlock>,
    words: String,
    now_ms: u64,
)
    requires
        call_ensures(Context::push_perception, (a, blocks, now_ms), ()),
        call_ensures(Context::push_user_text, (b, words, now_ms), ()),
    ensures
        blocks@.len() == 0 ==> final(a)@ == old(a)@,
        blocks@.len() > 0 ==> final(a)@.messages == old(a)@.messages.push(
            MessageView::User { content: types::blocks_view(blocks@), timestamp_ms: now_ms },
        ),
        final(b)@.messages.len() == old(b)@.messages.len() + 1,
        final(b)@.messages.last() matches MessageView::User { content, timestamp_ms }
            && timestamp_ms == now_ms && content == seq![
            types::ContentBlockView::Text { text: words@ },
        ],
{
}

/// An interrupt that is logged stands behind those before it, and a mode that is set is the
/// mode. Nothing else changes.
pub proof fn lemma_logged_and_set(
    a: &mut Context,
    b: &mut Context,
    interrupt: Interrupt,
    mode: ControlMode,
    bypass: bool,
)
    requires
        call_ensures(Context::log_interrupt, (a, interrupt), ()),
        call_ensures(Context::set_mode, (b, mode), ()),
        call_ensures(Context::is_bypass, (final(b),), bypass),
    ensures
        final(a)@.interrupt_log == old(a)@.interrupt_log + seq![interrupt@],
        final(a)@.messages == old(a)@.messages,
        final(b)@ == (ContextView { control_mode: mode, ..old(b)@ }),
        bypass <==> mode == ControlMode::BypassPermissions,
{
    assert(old(a)@.interrupt_log.push(interrupt@) =~= old(a)@.interrupt_log + seq![interrupt@]);
}

} // verus!
