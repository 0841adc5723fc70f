//! The conversation and the messages around it.

use vstd::prelude::*;
use crate::json;
use crate::json::Json;
use crate::json::JsonView;
use crate::text;

verus! {

// ---------------------------------------------------------------------------
// Content blocks
// ---------------------------------------------------------------------------

/// One block of a user message: text, a perception of the system, or an image.
pub enum ContentBlock {
    Text { text: String },
    /// The accessibility tree of a desktop session.
    WaylandTree { session_id: String, tree: Json },
    /// The state that an application pushed.
    AppState { app_id: String, state: Json },
    /// A kernel event.
    KernelEvent { kind: String, data: Json },
    /// The accessibility tree of one window of a foreign application.
    AtSpi { window_id: u64, tree: Json },
    /// An image in base64, used where no structure can be had.
    Image { media_type: String, data_base64: String },
}

/// What a content block is.
#[verifier::ext_equal]
pub enum ContentBlockView {
    Text { text: Seq<char> },
    WaylandTree { session_id: Seq<char>, tree: JsonView },
    AppState { app_id: Seq<char>, state: JsonView },
    KernelEvent { kind: Seq<char>, data: JsonView },
    AtSpi { window_id: u64, tree: JsonView },
    Image { media_type: Seq<char>, data_base64: Seq<char> },
}

impl View for ContentBlock {
    type V = ContentBlockView;

    open spec fn view(&self) -> ContentBlockView {
        match self {
            ContentBlock::Text { text } => ContentBlockView::Text { text: text@ },
            ContentBlock::WaylandTree { session_id, tree } => ContentBlockView::WaylandTree {
                session_id: session_id@,
                tree: tree@,
            },
            ContentBlock::AppState { app_id, state } => ContentBlockView::AppState {
                app_id: app_id@,
                state: state@,
            },
            ContentBlock::KernelEvent { kind, data } => ContentBlockView::KernelEvent {
                kind: kind@,
                data: data@,
            },
            ContentBlock::AtSpi { window_id, tree } => ContentBlockView::AtSpi {
                window_id: *window_id,
                tree: tree@,
            },
            ContentBlock::Image { media_type, data_base64 } => ContentBlockView::Image {
                media_type: media_type@,
                data_base64: data_base64@,
            },
        }
    }
}

/// What a list of blocks holds.
pub open spec fn blocks_view(blocks: Seq<ContentBlock>) -> Seq<ContentBlockView> {
    Seq::new(blocks.len(), |i: int| blocks[i]@)
}

/// A text as it is written in JSON.
pub open spec fn quoted(value: Seq<char>) -> Seq<char> {
    json::written(JsonView::Text(value))
}

/// The JSON text of a block, its tag first and then its fields in order.
pub open spec fn block_text(block: ContentBlockView) -> Seq<char> {
    match block {
        ContentBlockView::Text { text } => "{\"type\":\"text\",\"text\":"@ + quoted(text) + "}"@,
        ContentBlockView::WaylandTree { session_id, tree } =>
            "{\"type\":\"wayland_tree\",\"session_id\":"@ + quoted(session_id) + ",\"tree\":"@
            + json::written(tree) + "}"@,
        ContentBlockView::AppState { app_id, state } =>
            "{\"type\":\"app_state\",\"app_id\":"@ + quoted(app_id) + ",\"state\":"@
            + json::written(state) + "}"@,
        ContentBlockView::KernelEvent { kind, data } =>
            "{\"type\":\"kernel_event\",\"kind\":"@ + quoted(kind) + ",\"data\":"@
            + json::written(data) + "}"@,
        ContentBlockView::AtSpi { window_id, tree } =>
            "{\"type\":\"at_spi\",\"window_id\":"@ + text::decimal(window_id as nat)
            + ",\"tree\":"@ + json::written(tree) + "}"@,
        ContentBlockView::Image { media_type, data_base64 } =>
            "{\"type\":\"image\",\"media_type\":"@ + quoted(media_type) + ",\"data_base64\":"@
            + quoted(data_base64) + "}"@,
    }
}

fn quote(value: &String) -> (result: String)
    ensures
        result@ == quoted(value@),
{
    json::write(&Json::Text(value.clone()))
}

/// `head`, then `first`, then `middle`, then `second`, then a closing brace.
fn braced(head: &str, first: &str, middle: &str, second: &str) -> (result: String)
    ensures
        result@ == head@ + first@ + middle@ + second@ + "}"@,
{
    let mut result = head.to_string();
    result.append(first);
    result.append(middle);
    result.append(second);
    result.append("}");
    result
}

impl ContentBlock {
    /// The text block.
    pub fn text(s: String) -> (block: Self)
        ensures
            block@ == (ContentBlockView::Text { text: s@ }),
    {
        ContentBlock::Text { text: s }
    }

    /// Whether the block perceives the system: neither text nor image.
    pub fn is_perception(&self) -> (r: bool)
        ensures
            r == !(self@ is Text || self@ is Image),
    {
        !matches!(self, ContentBlock::Text { .. } | ContentBlock::Image { .. })
    }

    /// The JSON text of the block.
    pub fn json_text(&self) -> (result: String)
        ensures
            result@ == block_text(self@),
    {
        match self {
            ContentBlock::Text { text } => {
                let mut result = "{\"type\":\"text\",\"text\":".to_string();
                result.append(quote(text).as_str());
                result.append("}");
                result
            },
            ContentBlock::WaylandTree { session_id, tree } => braced(
                "{\"type\":\"wayland_tree\",\"session_id\":",
                quote(session_id).as_str(),
                ",\"tree\":",
                json::write(tree).as_str(),
            ),
            ContentBlock::AppState { app_id, state } => braced(
                "{\"type\":\"app_state\",\"app_id\":",
                quote(app_id).as_str(),
                ",\"state\":",
                json::write(state).as_str(),
            ),
            ContentBlock::KernelEvent { kind, data } => braced(
                "{\"type\":\"kernel_event\",\"kind\":",
                quote(kind).as_str(),
                ",\"data\":",
                json::write(data).as_str(),
            ),
            ContentBlock::AtSpi { window_id, tree } => braced(
                "{\"type\":\"at_spi\",\"window_id\":",
                text::decimal_text(*window_id).as_str(),
                ",\"tree\":",
                json::write(tree).as_str(),
            ),
            ContentBlock::Image { media_type, data_base64 } => braced(
                "{\"type\":\"image\",\"media_type\":",
                quote(media_type).as_str(),
                ",\"data_base64\":",
                quote(data_base64).as_str(),
            ),
        }
    }

    /// A copy of the block.
    pub fn copy(&self) -> (block: Self)
        ensures
            block@ == self@,
    {
        match self {
            ContentBlock::Text { text } => ContentBlock::Text { text: text.clone() },
            ContentBlock::WaylandTree { session_id, tree } => ContentBlock::WaylandTree {
                session_id: session_id.clone(),
                tree: tree.copy(),
            },
            ContentBlock::AppState { app_id, state } => ContentBlock::AppState {
                app_id: app_id.clone(),
                state: state.copy(),
            },
            ContentBlock::KernelEvent { kind, data } => ContentBlock::KernelEvent {
                kind: kind.clone(),
                data: data.copy(),
            },
            ContentBlock::AtSpi { window_id, tree } => ContentBlock::AtSpi {
                window_id: *window_id,
                tree: tree.copy(),
            },
            ContentBlock::Image { media_type, data_base64 } => ContentBlock::Image {
                media_type: media_type.clone(),
                data_base64: data_base64.clone(),
            },
        }
    }
}

/// Copies a list of blocks.
pub fn copy_blocks(blocks: &Vec<ContentBlock>) -> (copy: Vec<ContentBlock>)
    ensures
        blocks_view(copy@) == blocks_view(blocks@),
        copy.len() == blocks.len(),
{
    let mut copy: Vec<ContentBlock> = Vec::new();
    let mut i: usize = 0;
    while i < blocks.len()
        invariant
            i <= blocks.len(),
            copy.len() == i,
            forall|k: int| 0 <= k < i ==> (#[trigger] copy@[k])@ == blocks@[k]@,
        decreases blocks.len() - i,
    {
        copy.push(blocks[i].copy());
        i += 1;
    }
    assert(blocks_view(copy@) =~= blocks_view(blocks@));
    copy
}

// ---------------------------------------------------------------------------
// Tool calls
// ---------------------------------------------------------------------------

/// A tool invocation that the model emitted.
pub struct ToolCall {
    /// Matches the call with its result.
    pub id: String,
    pub name: String,
    pub input: Json,
}

/// What a tool call is.
#[verifier::ext_equal]
pub struct ToolCallView {
    pub id: Seq<char>,
    pub name: Seq<char>,
    pub input: JsonView,
}

impl View for ToolCall {
    type V = ToolCallView;

    open spec fn view(&self) -> ToolCallView {
        ToolCallView { id: self.id@, name: self.name@, input: self.input@ }
    }
}

/// What a list of calls holds.
pub open spec fn calls_view(calls: Seq<ToolCall>) -> Seq<ToolCallView> {
    Seq::new(calls.len(), |i: int| calls[i]@)
}

impl ToolCall {
    /// A copy of the call.
    pub fn copy(&self) -> (call: Self)
        ensures
            call@ == self@,
    {
        ToolCall { id: self.id.clone(), name: self.name.clone(), input: self.input.copy() }
    }
}

/// Copies a list of calls.
pub fn copy_calls(calls: &Vec<ToolCall>) -> (copy: Vec<ToolCall>)
    ensures
        calls_view(copy@) == calls_view(calls@),
        copy.len() == calls.len(),
{
    let mut copy: Vec<ToolCall> = Vec::new();
    let mut i: usize = 0;
    while i < calls.len()
        invariant
            i <= calls.len(),
            copy.len() == i,
            forall|k: int| 0 <= k < i ==> (#[trigger] copy@[k])@ == calls@[k]@,
        decreases calls.len() - i,
    {
        copy.push(calls[i].copy());
        i += 1;
    }
    assert(calls_view(copy@) =~= calls_view(calls@));
    copy
}

/// The result of a tool call.
pub struct ToolResult {
    pub tool_call_id: String,
    pub content: String,
    pub is_error: bool,
}

/// What a tool result is.
#[verifier::ext_equal]
pub struct ToolResultView {
    pub tool_call_id: Seq<char>,
    pub content: Seq<char>,
    pub is_error: bool,
}

impl View for ToolResult {
    type V = ToolResultView;

    open spec fn view(&self) -> ToolResultView {
        ToolResultView {
            tool_call_id: self.tool_call_id@,
            content: self.content@,
            is_error: self.is_error,
        }
    }
}

/// What a list of results holds.
pub open spec fn results_view(results: Seq<ToolResult>) -> Seq<ToolResultView> {
    Seq::new(results.len(), |i: int| results[i]@)
}

/// The result of a call that the user refused.
pub open spec fn rejected_view(id: Seq<char>, reason: Seq<char>) -> ToolResultView {
    ToolResultView {
        tool_call_id: id,
        content: "[rejected by user] "@ + reason,
        is_error: true,
    }
}

impl ToolResult {
    /// A success.
    pub fn ok(id: String, content: String) -> (result: Self)
        ensures
            result@ == (ToolResultView { tool_call_id: id@, content: content@, is_error: false }),
    {
        ToolResult { tool_call_id: id, content, is_error: false }
    }

    /// A failure.
    pub fn err(id: String, content: String) -> (result: Self)
        ensures
            result@ == (ToolResultView { tool_call_id: id@, content: content@, is_error: true }),
    {
        ToolResult { tool_call_id: id, content, is_error: true }
    }

    /// A refusal, which is a failure with the reason.
    pub fn rejected(id: String, reason: String) -> (result: Self)
        ensures
            result@ == rejected_view(id@, reason@),
    {
        let content = "[rejected by user] ".to_string().concat(reason.as_str());
        ToolResult::err(id, content)
    }

    /// A copy of the result.
    pub fn copy(&self) -> (result: Self)
        ensures
            result@ == self@,
    {
        ToolResult {
            tool_call_id: self.tool_call_id.clone(),
            content: self.content.clone(),
            is_error: self.is_error,
        }
    }
}

/// Copies a list of results.
pub fn copy_results(results: &Vec<ToolResult>) -> (copy: Vec<ToolResult>)
    ensures
        results_view(copy@) == results_view(results@),
        copy.len() == results.len(),
{
    let mut copy: Vec<ToolResult> = Vec::new();
    let mut i: usize = 0;
    while i < results.len()
        invariant
            i <= results.len(),
            copy.len() == i,
            forall|k: int| 0 <= k < i ==> (#[trigger] copy@[k])@ == results@[k]@,
        decreases results.len() - i,
    {
        copy.push(results[i].copy());
        i += 1;
    }
    assert(results_view(copy@) =~= results_view(results@));
    copy
}

// ---------------------------------------------------------------------------
// Conversation
// ---------------------------------------------------------------------------

/// What the model produced in one turn.
pub struct AssistantTurn {
    pub thinking: Option<String>,
    pub text: Option<String>,
    pub tool_calls: Vec<ToolCall>,
}

/// What a turn is.
#[verifier::ext_equal]
pub struct AssistantTurnView {
    pub thinking: Option<Seq<char>>,
    pub text: Option<Seq<char>>,
    pub tool_calls: Seq<ToolCallView>,
}

impl View for AssistantTurn {
    type V = AssistantTurnView;

    open spec fn view(&self) -> AssistantTurnView {
        AssistantTurnView {
            thinking: text::opt_view(self.thinking),
            text: text::opt_view(self.text),
            tool_calls: calls_view(self.tool_calls@),
        }
    }
}

impl Default for AssistantTurn {
    fn default() -> (turn: Self)
        ensures
            turn@ == (AssistantTurnView { thinking: None, text: None, tool_calls: Seq::empty() }),
    {
        let turn = AssistantTurn { thinking: None, text: None, tool_calls: Vec::new() };
        assert(turn@.tool_calls =~= Seq::<ToolCallView>::empty());
        turn
    }
}

impl AssistantTurn {
    /// Whether tools were called.
    pub fn has_tool_calls(&self) -> (r: bool)
        ensures
            r == (self@.tool_calls.len() > 0),
    {
        self.tool_calls.len() > 0
    }

    /// Whether the turn ends the session: no tool was called.
    pub fn is_terminal(&self) -> (r: bool)
        ensures
            r == (self@.tool_calls.len() == 0),
    {
        self.tool_calls.len() == 0
    }

    /// A copy of the turn.
    pub fn copy(&self) -> (turn: Self)
        ensures
            turn@ == self@,
    {
        AssistantTurn {
            thinking: text::copy_opt(&self.thinking),
            text: text::copy_opt(&self.text),
            tool_calls: copy_calls(&self.tool_calls),
        }
    }
}

/// A message of the conversation.
#[allow(inconsistent_fields)]
pub enum ConversationMessage {
    /// Stands once at the beginning of a session.
    System { content: String },
    /// What the user said, or what was perceived.
    User { content: Vec<ContentBlock>, timestamp_ms: u64 },
    /// What the model answered.
    Assistant(AssistantTurn),
    /// The results of the calls of the turn before.
    ToolResults { results: Vec<ToolResult> },
}

/// What a message is.
#[allow(inconsistent_fields)]
#[verifier::ext_equal]
pub enum MessageView {
    System { content: Seq<char> },
    User { content: Seq<ContentBlockView>, timestamp_ms: u64 },
    Assistant(AssistantTurnView),
    ToolResults { results: Seq<ToolResultView> },
}

impl View for ConversationMessage {
    type V = MessageView;

    open spec fn view(&self) -> MessageView {
        match self {
            ConversationMessage::System { content } => MessageView::System { content: content@ },
            ConversationMessage::User { content, timestamp_ms } => MessageView::User {
                content: blocks_view(content@),
                timestamp_ms: *timestamp_ms,
            },
            ConversationMessage::Assistant(turn) => MessageView::Assistant(turn@),
            ConversationMessage::ToolResults { results } => MessageView::ToolResults {
                results: results_view(results@),
            },
        }
    }
}

/// What a conversation holds.
pub open spec fn messages_view(messages: Seq<ConversationMessage>) -> Seq<MessageView> {
    Seq::new(messages.len(), |i: int| messages[i]@)
}

/// The user message with one text.
pub open spec fn user_text_view(text: Seq<char>, now_ms: u64) -> MessageView {
    MessageView::User { content: seq![ContentBlockView::Text { text }], timestamp_ms: now_ms }
}

impl ConversationMessage {
    /// The system message.
    pub fn system(content: String) -> (message: Self)
        ensures
            message@ == (MessageView::System { content: content@ }),
    {
        ConversationMessage::System { content }
    }

    /// The user message with these blocks, sent at `now_ms`.
    pub fn user(content: Vec<ContentBlock>, now_ms: u64) -> (message: Self)
        ensures
            message@ == (MessageView::User {
                content: blocks_view(content@),
                timestamp_ms: now_ms,
            }),
    {
        ConversationMessage::User { content, timestamp_ms: now_ms }
    }

    /// The user message with one text, sent at `now_ms`.
    pub fn user_text(text: String, now_ms: u64) -> (message: Self)
        ensures
            message@ == user_text_view(text@, now_ms),
    {
        let mut content: Vec<ContentBlock> = Vec::new();
        content.push(ContentBlock::Text { text });
        assert(blocks_view(content@) =~= seq![ContentBlockView::Text { text: text@ }]);
        ConversationMessage::user(content, now_ms)
    }

    /// A copy of the message.
    pub fn copy(&self) -> (message: Self)
        ensures
            message@ == self@,
    {
        match self {
            ConversationMessage::System { content } => ConversationMessage::System {
                content: content.clone(),
            },
            ConversationMessage::User { content, timestamp_ms } => ConversationMessage::User {
                content: copy_blocks(content),
                timestamp_ms: *timestamp_ms,
            },
            ConversationMessage::Assistant(turn) => ConversationMessage::Assistant(turn.copy()),
            ConversationMessage::ToolResults { results } => ConversationMessage::ToolResults {
                results: copy_results(results),
            },
        }
    }
}

/// Copies a conversation.
pub fn copy_messages(messages: &Vec<ConversationMessage>) -> (copy: Vec<ConversationMessage>)
    ensures
        messages_view(copy@) == messages_view(messages@),
        copy.len() == messages.len(),
{
    let mut copy: Vec<ConversationMessage> = Vec::new();
    let mut i: usize = 0;
    while i < messages.len()
        invariant
            i <= messages.len(),
            copy.len() == i,
            forall|k: int| 0 <= k < i ==> (#[trigger] copy@[k])@ == messages@[k]@,
        decreases messages.len() - i,
    {
        copy.push(messages[i].copy());
        i += 1;
    }
    assert(messages_view(copy@) =~= messages_view(messages@));
    copy
}

/// What the user answered to an approval request.
pub enum ApprovalDecision {
    Approved,
    Rejected,
    /// The user gives a new direction.
    Redirected { new_intent: String },
}

/// What an answer is.
#[verifier::ext_equal]
pub enum ApprovalView {
    Approved,
    Rejected,
    Redirected(Seq<char>),
}

impl View for ApprovalDecision {
    type V = ApprovalView;

    open spec fn view(&self) -> ApprovalView {
        match self {
            ApprovalDecision::Approved => ApprovalView::Approved,
            ApprovalDecision::Rejected => ApprovalView::Rejected,
            ApprovalDecision::Redirected { new_intent } => ApprovalView::Redirected(new_intent@),
        }
    }
}

// ---------------------------------------------------------------------------
// What the parts of a conversation are
// ---------------------------------------------------------------------------

/// The text of a block names its kind first and then holds each of its parts under its name:
/// a text quoted, a document as it is written, a number in decimal.
pub proof fn lemma_block_tells_all(
    a: Seq<char>,
    b: Seq<char>,
    n: u64,
    v: JsonView,
)
    ensures
        block_text(ContentBlockView::Text { text: a }) == "{\"type\":\"text\",\"text\":"@
            + json::written(JsonView::Text(a)) + "}"@,
        block_text(ContentBlockView::WaylandTree { session_id: a, tree: v })
            == "{\"type\":\"wayland_tree\",\"session_id\":"@ + json::written(JsonView::Text(a))
            + ",\"tree\":"@ + json::written(v) + "}"@,
        block_text(ContentBlockView::AppState { app_id: a, state: v })
            == "{\"type\":\"app_state\",\"app_id\":"@ + json::written(JsonView::Text(a))
            + ",\"state\":"@ + json::written(v) + "}"@,
        block_text(ContentBlockView::KernelEvent { kind: a, data: v })
            == "{\"type\":\"kernel_event\",\"kind\":"@ + json::written(JsonView::Text(a))
            + ",\"data\":"@ + json::written(v) + "}"@,
        block_text(ContentBlockView::AtSpi { window_id: n, tree: v })
            == "{\"type\":\"at_spi\",\"window_id\":"@ + text::decimal(n as nat) + ",\"tree\":"@
            + json::written(v) + "}"@,
        block_text(ContentBlockView::Image { media_type: a, data_base64: b })
            == "{\"type\":\"image\",\"media_type\":"@ + json::written(JsonView::Text(a))
            + ",\"data_base64\":"@ + json::written(JsonView::Text(b)) + "}"@,
{
}

/// Texts and images are what the user gives; every other block is perceived.
pub proof fn lemma_perceived(block: ContentBlock, perceived: bool)
    requires
        call_ensures(ContentBlock::is_perception, (&block,), perceived),
    ensures
        perceived == match block {
            ContentBlock::Text { .. } | ContentBlock::Image { .. } => false,
            ContentBlock::WaylandTree { .. } | ContentBlock::AppState { .. }
            | ContentBlock::KernelEvent { .. } | ContentBlock::AtSpi { .. } => true,
        },
{
}

/// A result goes with its call. A success is no error; a failure is one, and so is a refusal,
/// which gives the reason.
pub proof fn lemma_results(
    id: String,
    words: String,
    good: ToolResult,
    bad: ToolResult,
    refused: ToolResult,
)
    requires
        call_ensures(ToolResult::ok, (id, words), good),
        call_ensures(ToolResult::err, (id, words), bad),
        call_ensures(ToolResult::rejected, (id, words), refused),
    ensures
        good.tool_call_id@ == id@ && good.content@ == words@ && !good.is_error,
        bad.tool_call_id@ == id@ && bad.content@ == words@ && bad.is_error,
        refused.tool_call_id@ == id@ && refused.content@ == "[rejected by user] "@ + words@
            && refused.is_error,
{
}

/// A turn ends the session exactly where it calls no tool.
pub proof fn lemma_terminal(turn: AssistantTurn, calls: bool, ends: bool)
    requires
        call_ensures(AssistantTurn::has_tool_calls, (&turn,), calls),
        call_ensures(AssistantTurn::is_terminal, (&turn,), ends),
    ensures
        calls == (turn.tool_calls@.len() > 0),
        ends == !calls,
{
}

/// A message says what it was given, all of it and at its time.
pub proof fn lemma_said(
    words: String,
    blocks: Vec<ContentBlock>,
    now_ms: u64,
    system: ConversationMessage,
    user: ConversationMessage,
    typed: ConversationMessage,
)
    requires
        call_ensures(ConversationMessage::system, (words,), system),
        call_ensures(ConversationMessage::user, (blocks, now_ms), user),
        call_ensures(ConversationMessage::user_text, (words, now_ms), typed),
    ensures
        system matches ConversationMessage::System { content } && content@ == words@,
        user matches ConversationMessage::User { content, timestamp_ms } && timestamp_ms == now_ms
            && content@.len() == blocks@.len() && forall|i: int|
            #![trigger content@[i]]
            0 <= i < blocks@.len() ==> content@[i]@ == blocks@[i]@,
        typed@ == (MessageView::User {
            content: seq![ContentBlockView::Text { text: words@ }],
            timestamp_ms: now_ms,
        }),
{
    match user {
        ConversationMessage::User { content, timestamp_ms } => {
            assert(blocks_view(content@).len() == blocks_view(blocks@).len());
            assert forall|i: int|
                #![trigger content@[i]]
                0 <= i < blocks@.len() implies content@[i]@ == blocks@[i]@ by {
                assert(blocks_view(content@)[i] == blocks_view(blocks@)[i]);
            }
        },
        _ => {},
    }
}

} // verus!
