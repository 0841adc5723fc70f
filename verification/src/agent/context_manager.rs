//! The conversation within the window of a model.
//!
//! Messages are tracked with their estimated size. When they outgrow the budget
//! the oldest go, but for the system message and the latest few.

use std::collections::VecDeque;
use vstd::prelude::*;
use crate::agent::types;
use crate::agent::types::AssistantTurnView;
use crate::agent::types::ContentBlock;
use crate::agent::types::ContentBlockView;
use crate::agent::types::ConversationMessage;
use crate::agent::types::MessageView;
use crate::agent::types::ToolCall;
use crate::agent::types::ToolCallView;
use crate::agent::types::ToolResult;
use crate::agent::types::ToolResultView;
use crate::json;
use crate::text;

verus! {

// ---------------------------------------------------------------------------
// Sizes
// ---------------------------------------------------------------------------

/// What a message costs beside its body.
pub const ROLE_OVERHEAD: usize = 4;

/// What a tool call or a tool result costs beside its body.
pub const TOOL_OVERHEAD: usize = 10;

/// The estimated tokens of a text: one for four bytes, rounded up.
pub open spec fn tokens(text: Seq<char>) -> nat {
    (text::byte_count(text) + 3) / 4
}

/// The estimated tokens of an optional text.
pub open spec fn opt_tokens(text: Option<Seq<char>>) -> nat {
    match text {
        Some(t) => tokens(t),
        None => 0,
    }
}

/// The estimated tokens of a block: an image counts half, and what is neither
/// text nor image counts as its JSON text.
pub open spec fn block_tokens(block: ContentBlockView) -> nat {
    match block {
        ContentBlockView::Text { text } => tokens(text),
        ContentBlockView::Image { media_type, data_base64 } => tokens(data_base64) / 2,
        _ => tokens(types::block_text(block)),
    }
}

/// The estimated tokens of several blocks.
pub open spec fn blocks_tokens(blocks: Seq<ContentBlockView>) -> nat
    decreases blocks.len(),
{
    if blocks.len() == 0 {
        0
    } else {
        blocks_tokens(blocks.drop_last()) + block_tokens(blocks.last())
    }
}

/// The estimated tokens of a tool call.
pub open spec fn call_tokens(call: ToolCallView) -> nat {
    TOOL_OVERHEAD as nat + tokens(call.name) + tokens(json::written(call.input))
}

/// The estimated tokens of several tool calls.
pub open spec fn calls_tokens(calls: Seq<ToolCallView>) -> nat
    decreases calls.len(),
{
    if calls.len() == 0 {
        0
    } else {
        calls_tokens(calls.drop_last()) + call_tokens(calls.last())
    }
}

/// The estimated tokens of several tool results.
pub open spec fn results_tokens(results: Seq<ToolResultView>) -> nat
    decreases results.len(),
{
    if results.len() == 0 {
        0
    } else {
        results_tokens(results.drop_last()) + (TOOL_OVERHEAD as nat + tokens(
            results.last().content,
        ))
    }
}

/// The estimated tokens of a message.
pub open spec fn message_tokens(message: MessageView) -> nat {
    let body = match message {
        MessageView::System { content } => tokens(content),
        MessageView::User { content, timestamp_ms } => blocks_tokens(content),
        MessageView::Assistant(turn) => opt_tokens(turn.thinking) + opt_tokens(turn.text)
            + calls_tokens(turn.tool_calls),
        MessageView::ToolResults { results } => results_tokens(results),
    };
    body + ROLE_OVERHEAD as nat
}

/// A size as a machine number holds it.
pub open spec fn capped(n: nat) -> usize {
    if n <= usize::MAX {
        n as usize
    } else {
        usize::MAX
    }
}

/// The estimated tokens of a text.
pub fn estimate_tokens(text: &str) -> (n: usize)
    ensures
        n == tokens(text@),
{
    let bytes: usize = text::byte_len(text);
    if bytes % 4 == 0 {
        bytes / 4
    } else {
        bytes / 4 + 1
    }
}

fn opt_estimate(text: &Option<String>) -> (n: usize)
    ensures
        n == opt_tokens(text::opt_view(*text)),
{
    match text {
        Some(t) => estimate_tokens(t.as_str()),
        None => 0,
    }
}

fn estimate_block(block: &ContentBlock) -> (n: usize)
    ensures
        n == block_tokens(block@),
{
    match block {
        ContentBlock::Text { text } => estimate_tokens(text.as_str()),
        ContentBlock::Image { media_type, data_base64 } => estimate_tokens(data_base64.as_str())
            / 2,
        other => estimate_tokens(other.json_text().as_str()),
    }
}

fn estimate_blocks(blocks: &Vec<ContentBlock>) -> (n: usize)
    ensures
        n == capped(blocks_tokens(types::blocks_view(blocks@))),
{
    let ghost all = types::blocks_view(blocks@);
    let mut n: usize = 0;
    let mut i: usize = 0;
    assert(all.take(0) =~= Seq::<ContentBlockView>::empty());
    while i < blocks.len()
        invariant
            i <= blocks.len(),
            all == types::blocks_view(blocks@),
            n == capped(blocks_tokens(all.take(i as int))),
        decreases blocks.len() - i,
    {
        assert(all.take(i + 1).drop_last() =~= all.take(i as int));
        n = n.saturating_add(estimate_block(&blocks[i]));
        i += 1;
    }
    assert(all.take(i as int) =~= all);
    n
}

fn estimate_calls(calls: &Vec<ToolCall>) -> (n: usize)
    ensures
        n == capped(calls_tokens(types::calls_view(calls@))),
{
    let ghost all = types::calls_view(calls@);
    let mut n: usize = 0;
    let mut i: usize = 0;
    assert(all.take(0) =~= Seq::<ToolCallView>::empty());
    while i < calls.len()
        invariant
            i <= calls.len(),
            all == types::calls_view(calls@),
            n == capped(calls_tokens(all.take(i as int))),
        decreases calls.len() - i,
    {
        assert(all.take(i + 1).drop_last() =~= all.take(i as int));
        let input = json::write(&calls[i].input);
        n = n.saturating_add(TOOL_OVERHEAD).saturating_add(
            estimate_tokens(calls[i].name.as_str()),
        ).saturating_add(estimate_tokens(input.as_str()));
        i += 1;
    }
    assert(all.take(i as int) =~= all);
    n
}

fn estimate_results(results: &Vec<ToolResult>) -> (n: usize)
    ensures
        n == capped(results_tokens(types::results_view(results@))),
{
    let ghost all = types::results_view(results@);
    let mut n: usize = 0;
    let mut i: usize = 0;
    assert(all.take(0) =~= Seq::<ToolResultView>::empty());
    while i < results.len()
        invariant
            i <= results.len(),
            all == types::results_view(results@),
            n == capped(results_tokens(all.take(i as int))),
        decreases results.len() - i,
    {
        assert(all.take(i + 1).drop_last() =~= all.take(i as int));
        n = n.saturating_add(TOOL_OVERHEAD).saturating_add(
            estimate_tokens(results[i].content.as_str()),
        );
        i += 1;
    }
    assert(all.take(i as int) =~= all);
    n
}

/// The estimated tokens of a message.
pub fn estimate_message_tokens(msg: &ConversationMessage) -> (n: usize)
    ensures
        n == capped(message_tokens(msg@)),
{
    let body: usize = match msg {
        ConversationMessage::System { content } => estimate_tokens(content.as_str()),
        ConversationMessage::User { content, timestamp_ms } => estimate_blocks(content),
        ConversationMessage::Assistant(turn) => {
            let thinking: usize = opt_estimate(&turn.thinking);
            let text: usize = opt_estimate(&turn.text);
            thinking.saturating_add(text).saturating_add(estimate_calls(&turn.tool_calls))
        },
        ConversationMessage::ToolResults { results } => estimate_results(results),
    };
    body.saturating_add(ROLE_OVERHEAD)
}

// ---------------------------------------------------------------------------
// The manager
// ---------------------------------------------------------------------------

/// The limits.
#[derive(Debug, Clone, Copy, PartialEq, Eq, Structural)]
pub struct ContextConfig {
    /// The window of the model, in tokens.
    pub max_context_length: usize,
    /// What is kept free for the answer.
    pub response_buffer: usize,
    /// How many messages beside the system message stay in any case.
    pub min_messages_preserve: usize,
}

impl Default for ContextConfig {
    fn default() -> (config: Self)
        ensures
            config == (ContextConfig {
                max_context_length: 128_000,
                response_buffer: 4_096,
                min_messages_preserve: 4,
            }),
    {
        ContextConfig {
            max_context_length: 128_000,
            response_buffer: 4_096,
            min_messages_preserve: 4,
        }
    }
}

struct Measured {
    message: ConversationMessage,
    tokens: usize,
}

/// What a manager is.
#[verifier::ext_equal]
pub struct ManagerView {
    pub config: ContextConfig,
    pub system: Option<MessageView>,
    /// The messages beside the system message.
    pub history: Seq<MessageView>,
}

/// The tokens of several messages.
pub open spec fn total_of(history: Seq<MessageView>) -> nat
    decreases history.len(),
{
    if history.len() == 0 {
        0
    } else {
        total_of(history.drop_last()) + capped(message_tokens(history.last())) as nat
    }
}

impl ManagerView {
    /// The tokens of all messages.
    pub open spec fn total(self) -> nat {
        total_of(self.history) + match self.system {
            Some(m) => capped(message_tokens(m)) as nat,
            None => 0,
        }
    }

    /// What the messages may take.
    pub open spec fn budget(self) -> nat {
        if self.config.max_context_length >= self.config.response_buffer {
            (self.config.max_context_length - self.config.response_buffer) as nat
        } else {
            0
        }
    }

    /// The messages in order, the system message first.
    pub open spec fn messages(self) -> Seq<MessageView> {
        match self.system {
            Some(m) => seq![m] + self.history,
            None => self.history,
        }
    }

    /// The manager with one more message. A system message replaces the one
    /// before.
    pub open spec fn with(self, message: MessageView) -> ManagerView {
        match message {
            MessageView::System { content } => ManagerView { system: Some(message), ..self },
            _ => ManagerView { history: self.history.push(message), ..self },
        }
    }

    /// The manager with several more messages.
    pub open spec fn with_all(self, messages: Seq<MessageView>) -> ManagerView
        decreases messages.len(),
    {
        if messages.len() == 0 {
            self
        } else {
            self.with_all(messages.drop_last()).with(messages.last())
        }
    }

    /// Without its first messages, but for the system message.
    pub open spec fn without_first(self, n: int) -> ManagerView {
        ManagerView { history: self.history.skip(n), ..self }
    }

    /// The manager without its oldest message.
    pub open spec fn without_oldest(self) -> ManagerView {
        ManagerView { history: self.history.drop_first(), ..self }
    }

    /// How many of the oldest messages have to go: as long as the budget is
    /// exceeded and more than the minimum is left.
    pub open spec fn excess(self) -> nat
        decreases self.history.len(),
    {
        if self.total() > self.budget() && self.history.len()
            > self.config.min_messages_preserve {
            1 + self.without_oldest().excess()
        } else {
            0
        }
    }
}

/// The tracked conversation.
pub struct ContextManager {
    config: ContextConfig,
    system: Option<Measured>,
    history: VecDeque<Measured>,
    total_tokens: u128,
}

impl View for ContextManager {
    type V = ManagerView;

    closed spec fn view(&self) -> ManagerView {
        ManagerView {
            config: self.config,
            system: match self.system {
                Some(t) => Some(t.message@),
                None => None,
            },
            history: Seq::new(self.history@.len(), |i: int| self.history@[i].message@),
        }
    }
}

proof fn lemma_total_bound(history: Seq<MessageView>)
    ensures
        total_of(history) <= history.len() * usize::MAX,
    decreases history.len(),
{
    if history.len() > 0 {
        lemma_total_bound(history.drop_last());
        assert((history.len() - 1) * usize::MAX + usize::MAX == history.len() * usize::MAX)
            by (nonlinear_arith);
    }
}

proof fn lemma_total_first(history: Seq<MessageView>)
    requires
        history.len() > 0,
    ensures
        total_of(history) == capped(message_tokens(history[0])) + total_of(history.drop_first()),
    decreases history.len(),
{
    if history.len() == 1 {
        assert(history.drop_last() =~= Seq::<MessageView>::empty());
        assert(history.drop_first() =~= Seq::<MessageView>::empty());
    } else {
        lemma_total_first(history.drop_last());
        assert(history.drop_last().drop_first() =~= history.drop_first().drop_last());
    }
}

impl ContextManager {
    /// Whether the running total and the sizes are those of the messages.
    pub closed spec fn wf(&self) -> bool {
        &&& self.total_tokens == self@.total()
        &&& forall|i: int|
            0 <= i < self.history@.len() ==> (#[trigger] self.history@[i]).tokens == capped(
                message_tokens(self.history@[i].message@),
            )
        &&& match self.system {
            Some(t) => t.tokens == capped(message_tokens(t.message@)) && t.message@ is System,
            None => true,
        }
        &&& self.history@.len() <= usize::MAX
    }

    /// The manager without messages.
    pub fn new(config: ContextConfig) -> (manager: Self)
        ensures
            manager.wf(),
            manager@ == (ManagerView { config, system: None, history: Seq::empty() }),
    {
        let manager = ContextManager {
            config,
            system: None,
            history: VecDeque::new(),
            total_tokens: 0,
        };
        assert(manager@.history =~= Seq::<MessageView>::empty());
        manager
    }

    /// Adds a message.
    pub fn push(&mut self, msg: ConversationMessage)
        requires
            old(self).wf(),
        ensures
            final(self).wf(),
            final(self)@ == old(self)@.with(msg@),
    {
        let tokens: usize = estimate_message_tokens(&msg);
        let ghost before = self@;
        let n: usize = self.history.len();
        proof {
            lemma_total_bound(self@.history);
            assert(n * usize::MAX + usize::MAX + usize::MAX <= u128::MAX) by (nonlinear_arith)
                requires
                    n <= usize::MAX,
                    usize::MAX <= 0xffff_ffff_ffff_ffff,
            ;
        }
        let is_system = match &msg {
            ConversationMessage::System { content } => true,
            _ => false,
        };
        if is_system {
            let previous: u128 = match &self.system {
                Some(t) => t.tokens as u128,
                None => 0,
            };
            self.total_tokens = self.total_tokens - previous + tokens as u128;
            self.system = Some(Measured { message: msg, tokens });
            assert(self@.history =~= before.history);
        } else {
            self.total_tokens = self.total_tokens + tokens as u128;
            self.history.push_back(Measured { message: msg, tokens });
            assert(self@.history =~= before.history.push(msg@));
            assert(self@.history.drop_last() =~= before.history);
            let longer: usize = self.history.len();
        }
    }

    /// Replaces all messages.
    pub fn replace_all(&mut self, messages: Vec<ConversationMessage>)
        requires
            old(self).wf(),
        ensures
            final(self).wf(),
            final(self)@ == (ManagerView {
                config: old(self)@.config,
                system: None,
                history: Seq::empty(),
            }).with_all(types::messages_view(messages@)),
    {
        let config = self.config;
        *self = ContextManager::new(config);
        let ghost fresh = self@;
        let ghost all = types::messages_view(messages@);
        let mut left = messages;
        let mut waiting: Vec<ConversationMessage> = Vec::new();
        while left.len() > 0
            invariant
                left@ == messages@.take(left@.len() as int),
                left@.len() + waiting@.len() == messages@.len(),
                forall|k: int|
                    0 <= k < waiting@.len() ==> (#[trigger] waiting@[k])
                        == messages@[messages@.len() - 1 - k],
            decreases left.len(),
        {
            let ghost before = left@;
            if let Some(m) = left.pop() {
                waiting.push(m);
                assert(before.drop_last() =~= messages@.take(before.len() - 1));
            }
        }
        assert(all.take(0) =~= Seq::<MessageView>::empty());
        while waiting.len() > 0
            invariant
                self.wf(),
                all == types::messages_view(messages@),
                waiting.len() <= messages@.len(),
                forall|k: int|
                    0 <= k < waiting@.len() ==> (#[trigger] waiting@[k])
                        == messages@[messages@.len() - 1 - k],
                self@ == fresh.with_all(all.take(messages@.len() - waiting@.len())),
            decreases waiting.len(),
        {
            let ghost done = messages@.len() - waiting@.len();
            assert(waiting@.last() == messages@[done]);
            assert(all.take(done + 1).drop_last() =~= all.take(done));
            if let Some(m) = waiting.pop() {
                assert(m@ == all[done]);
                self.push(m);
            }
        }
        assert(all.take(all.len() as int) =~= all);
    }

    /// The messages in order, the system message first.
    pub fn messages(&self) -> (messages: Vec<ConversationMessage>)
        ensures
            types::messages_view(messages@) == self@.messages(),
    {
        let mut messages: Vec<ConversationMessage> = Vec::new();
        if let Some(t) = &self.system {
            messages.push(t.message.copy());
        }
        let ghost head = messages@.len();
        let n: usize = self.history.len();
        let mut i: usize = 0;
        while i < n
            invariant
                i <= n == self.history@.len(),
                messages.len() == head + i,
                head <= 1,
                head == (if self@.system is Some {
                    1nat
                } else {
                    0nat
                }),
                head == 1 ==> messages@[0]@ == self@.system->0,
                forall|k: int|
                    0 <= k < i ==> (#[trigger] messages@[head + k])@ == self@.history[k],
            decreases n - i,
        {
            messages.push(self.history[i].message.copy());
            i += 1;
        }
        assert forall|k: int| 0 <= k < messages.len() implies (#[trigger] messages@[k])@
            == self@.messages()[k] by {
            if k >= head {
                assert(messages@[head + (k - head)]@ == self@.history[k - head]);
            }
        }
        assert(types::messages_view(messages@) =~= self@.messages());
        messages
    }

    /// The number of messages.
    pub fn len(&self) -> (n: usize)
        ensures
            n == capped(self@.messages().len()),
    {
        let head: usize = match &self.system {
            Some(t) => 1,
            None => 0,
        };
        self.history.len().saturating_add(head)
    }

    /// Whether there is no message.
    pub fn is_empty(&self) -> (r: bool)
        ensures
            r == (self@.messages().len() == 0),
    {
        self.history.len() == 0 && self.system.is_none()
    }

    /// The tokens of all messages.
    pub fn token_count(&self) -> (n: usize)
        requires
            self.wf(),
        ensures
            n == capped(self@.total()),
    {
        if self.total_tokens > usize::MAX as u128 {
            usize::MAX
        } else {
            self.total_tokens as usize
        }
    }

    /// What the messages may take.
    pub fn budget(&self) -> (n: usize)
        ensures
            n == self@.budget(),
    {
        self.config.max_context_length.saturating_sub(self.config.response_buffer)
    }

    /// Whether the messages take more than they may.
    pub fn needs_compaction(&self) -> (r: bool)
        requires
            self.wf(),
        ensures
            r == (self@.total() > self@.budget()),
    {
        self.total_tokens > self.budget() as u128
    }

    /// Drops the oldest messages until the budget fits or only the minimum is
    /// left, and says how many were dropped.
    pub fn compact(&mut self) -> (dropped: usize)
        requires
            old(self).wf(),
        ensures
            final(self).wf(),
            dropped == old(self)@.excess(),
            final(self)@ == (ManagerView {
                history: old(self)@.history.skip(dropped as int),
                ..old(self)@
            }),
    {
        let budget: usize = self.budget();
        let mut dropped: usize = 0;
        let ghost start = self@;
        assert(start.history.skip(0) =~= start.history);
        while self.total_tokens > budget as u128 && self.history.len()
            > self.config.min_messages_preserve
            invariant
                self.wf(),
                budget == self@.budget(),
                dropped + self.history@.len() == start.history.len(),
                start.history.len() <= usize::MAX,
                self@ == (ManagerView { history: start.history.skip(dropped as int), ..start }),
                start.excess() == dropped + self@.excess(),
            decreases self.history@.len(),
        {
            let ghost before = self@;
            let ghost queue = self.history@;
            proof {
                lemma_total_first(before.history);
            }
            if let Some(front) = self.history.pop_front() {
                assert(front == queue[0]);
                assert(front.tokens == capped(message_tokens(before.history[0])));
                self.total_tokens = self.total_tokens - front.tokens as u128;
                dropped += 1;
                assert(self@.history =~= before.history.drop_first());
                assert(before.history.drop_first() =~= start.history.skip(dropped as int));
                assert(self@ == before.without_oldest());
            }
        }
        dropped
    }
}

// ---------------------------------------------------------------------------
// What compaction promises
// ---------------------------------------------------------------------------

/// Compaction keeps the system message and the latest messages, at least the
/// minimum of them where there are so many, and afterwards the budget fits or
/// only the minimum is left. Where the budget fits already nothing is dropped. Dropping less
/// would not fit the budget, and compacting again drops nothing.
pub proof fn lemma_compaction(m: ManagerView)
    ensures
        ({
            let after = ManagerView { history: m.history.skip(m.excess() as int), ..m };
            &&& m.excess() <= m.history.len()
            &&& after.system == m.system
            &&& m.history.len() >= m.config.min_messages_preserve ==> after.history.len()
                >= m.config.min_messages_preserve
            &&& after.total() <= m.budget() || after.history.len()
                <= m.config.min_messages_preserve
            &&& m.total() <= m.budget() ==> m.excess() == 0
            &&& m.history.len() <= m.config.min_messages_preserve ==> m.excess() == 0
            &&& forall|d: int|
                0 <= d < m.excess() ==> (#[trigger] m.without_first(d)).total() > m.budget()
            &&& after == m.without_first(m.excess() as int)
            &&& after.excess() == 0
        }),
    decreases m.history.len(),
{
    if m.total() > m.budget() && m.history.len() > m.config.min_messages_preserve {
        let next = m.without_oldest();
        lemma_compaction(next);
        assert(next.history.skip(next.excess() as int) =~= m.history.skip(m.excess() as int));
        assert forall|d: int| 0 <= d < m.excess() implies (#[trigger] m.without_first(d)).total()
            > m.budget() by {
            if d == 0 {
                assert(m.history.skip(0) =~= m.history);
            } else {
                assert(m.without_first(d).history =~= next.without_first(d - 1).history);
                assert(next.without_first(d - 1).total() > next.budget());
            }
        }
    } else {
        assert(m.history.skip(0) =~= m.history);
    }
}

/// A message makes the total grow, unless it replaces a system message.
pub proof fn lemma_total_grows(m: ManagerView, message: MessageView)
    requires
        m.system is None || !(message is System),
    ensures
        m.with(message).total() == m.total() + capped(message_tokens(message)),
        m.with(message).total() > m.total(),
{
    match message {
        MessageView::System { content } => {},
        _ => {
            assert(m.with(message).history.drop_last() =~= m.history);
        },
    }
}

// ---------------------------------------------------------------------------
// What a message costs
// ---------------------------------------------------------------------------

/// A text costs a token for every four bytes that are begun.
pub proof fn lemma_text_cost(t: Seq<char>)
    ensures
        4 * tokens(t) >= text::byte_count(t),
        4 * tokens(t) < text::byte_count(t) + 4,
{
}

/// A message costs four tokens and its body. A block more adds its text, half of an image, or
/// its JSON text; a tool call more adds ten tokens, its name and its input as JSON; a tool
/// result more adds ten tokens and its content. An answer costs its thinking and its text
/// beside its calls.
pub proof fn lemma_message_cost(
    content: Seq<ContentBlockView>,
    block: ContentBlockView,
    timestamp_ms: u64,
    turn: AssistantTurnView,
    call: ToolCallView,
    results: Seq<ToolResultView>,
    result: ToolResultView,
    prompt: Seq<char>,
)
    ensures
        message_tokens(MessageView::System { content: prompt }) == 4 + tokens(prompt),
        message_tokens(MessageView::User { content: Seq::empty(), timestamp_ms }) == 4,
        message_tokens(MessageView::User { content: content.push(block), timestamp_ms })
            == message_tokens(MessageView::User { content, timestamp_ms }) + (match block {
            ContentBlockView::Text { text } => tokens(text),
            ContentBlockView::Image { data_base64, .. } => tokens(data_base64) / 2,
            _ => tokens(types::block_text(block)),
        }),
        message_tokens(
            MessageView::Assistant(
                AssistantTurnView { thinking: None, text: None, tool_calls: Seq::empty() },
            ),
        ) == 4,
        message_tokens(
            MessageView::Assistant(AssistantTurnView { thinking: Some(prompt), ..turn }),
        ) == message_tokens(MessageView::Assistant(AssistantTurnView { thinking: None, ..turn }))
            + tokens(prompt),
        message_tokens(
            MessageView::Assistant(AssistantTurnView { text: Some(prompt), ..turn }),
        ) == message_tokens(MessageView::Assistant(AssistantTurnView { text: None, ..turn }))
            + tokens(prompt),
        message_tokens(
            MessageView::Assistant(
                AssistantTurnView { tool_calls: turn.tool_calls.push(call), ..turn },
            ),
        ) == message_tokens(MessageView::Assistant(turn)) + 10 + tokens(call.name) + tokens(
            json::written(call.input),
        ),
        message_tokens(MessageView::ToolResults { results: Seq::empty() }) == 4,
        message_tokens(MessageView::ToolResults { results: results.push(result) })
            == message_tokens(MessageView::ToolResults { results }) + 10 + tokens(result.content),
{
    assert(content.push(block).drop_last() =~= content);
    assert(turn.tool_calls.push(call).drop_last() =~= turn.tool_calls);
    assert(results.push(result).drop_last() =~= results);
}

/// What the messages may take is the window without what is kept free for the answer. A new
/// prompt takes the place of the one before and is the first message; any other message is
/// the last one.
pub proof fn lemma_window(m: ManagerView, message: MessageView)
    ensures
        m.config.max_context_length >= m.config.response_buffer ==> m.budget()
            + m.config.response_buffer == m.config.max_context_length,
        m.config.max_context_length < m.config.response_buffer ==> m.budget() == 0,
        message is System ==> m.with(message).messages() == seq![message] + m.history,
        !(message is System) ==> m.with(message).messages() == m.messages().push(message),
{
    if !(message is System) {
        assert(m.with(message).messages() =~= m.messages().push(message));
    }
}

/// Compacting drops the oldest messages, as many as it says, keeps the prompt and the rest in
/// order, and is called for exactly where the messages take more than they may.
pub proof fn lemma_compacts(m: &mut ContextManager, needed: bool, dropped: usize)
    requires
        call_ensures(ContextManager::needs_compaction, (&*m,), needed),
        call_ensures(ContextManager::compact, (m,), dropped),
    ensures
        needed <==> old(m)@.total() > old(m)@.budget(),
        !needed ==> dropped == 0,
        final(m)@.history == old(m)@.history.skip(dropped as int),
        final(m)@.system == old(m)@.system,
        final(m)@.config == old(m)@.config,
        final(m)@.total() <= old(m)@.budget() || final(m)@.history.len()
            <= old(m)@.config.min_messages_preserve,
{
    lemma_compaction(old(m)@);
}

} // verus!
