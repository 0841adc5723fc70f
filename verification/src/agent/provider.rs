//! What is sent to a model and what streams back.

use vstd::prelude::*;
use crate::json::Json;
use crate::json::JsonView;
use crate::text;

verus! {

/// Who speaks.
#[derive(Debug, Clone, Copy, PartialEq, Eq, Structural)]
pub enum Role {
    System,
    User,
    Assistant,
    Tool,
}

/// One block of a message to a model.
#[allow(inconsistent_fields)]
pub enum ProviderBlock {
    Text { text: String },
    Image { media_type: String, data: String },
    ToolUse { id: String, name: String, input: Json },
    ToolResult { tool_use_id: String, content: String, is_error: bool },
    Thinking { thinking: String },
}

/// What a block is.
#[allow(inconsistent_fields)]
#[verifier::ext_equal]
pub enum ProviderBlockView {
    Text { text: Seq<char> },
    Image { media_type: Seq<char>, data: Seq<char> },
    ToolUse { id: Seq<char>, name: Seq<char>, input: JsonView },
    ToolResult { tool_use_id: Seq<char>, content: Seq<char>, is_error: bool },
    Thinking { thinking: Seq<char> },
}

impl View for ProviderBlock {
    type V = ProviderBlockView;

    open spec fn view(&self) -> ProviderBlockView {
        match self {
            ProviderBlock::Text { text } => ProviderBlockView::Text { text: text@ },
            ProviderBlock::Image { media_type, data } => ProviderBlockView::Image {
                media_type: media_type@,
                data: data@,
            },
            ProviderBlock::ToolUse { id, name, input } => ProviderBlockView::ToolUse {
                id: id@,
                name: name@,
                input: input@,
            },
            ProviderBlock::ToolResult { tool_use_id, content, is_error } =>
                ProviderBlockView::ToolResult {
                    tool_use_id: tool_use_id@,
                    content: content@,
                    is_error: *is_error,
                },
            ProviderBlock::Thinking { thinking } => ProviderBlockView::Thinking {
                thinking: thinking@,
            },
        }
    }
}

/// What a list of blocks holds.
pub open spec fn provider_blocks_view(blocks: Seq<ProviderBlock>) -> Seq<ProviderBlockView> {
    Seq::new(blocks.len(), |i: int| blocks[i]@)
}

/// One message to a model.
pub struct ProviderMessage {
    pub role: Role,
    pub content: Vec<ProviderBlock>,
}

/// What a message is.
#[verifier::ext_equal]
pub struct ProviderMessageView {
    pub role: Role,
    pub content: Seq<ProviderBlockView>,
}

impl View for ProviderMessage {
    type V = ProviderMessageView;

    open spec fn view(&self) -> ProviderMessageView {
        ProviderMessageView { role: self.role, content: provider_blocks_view(self.content@) }
    }
}

/// The message with one text.
pub open spec fn one_text(role: Role, text: Seq<char>) -> ProviderMessageView {
    ProviderMessageView { role, content: seq![ProviderBlockView::Text { text }] }
}

impl ProviderMessage {
    fn of_text(role: Role, text: String) -> (message: Self)
        ensures
            message@ == one_text(role, text@),
    {
        let mut content: Vec<ProviderBlock> = Vec::new();
        content.push(ProviderBlock::Text { text });
        assert(provider_blocks_view(content@) =~= seq![
            ProviderBlockView::Text { text: text@ },
        ]);
        ProviderMessage { role, content }
    }

    /// The system message with one text.
    pub fn system(text: String) -> (message: Self)
        ensures
            message@ == one_text(Role::System, text@),
    {
        ProviderMessage::of_text(Role::System, text)
    }

    /// The user message with one text.
    pub fn user_text(text: String) -> (message: Self)
        ensures
            message@ == one_text(Role::User, text@),
    {
        ProviderMessage::of_text(Role::User, text)
    }
}

/// A tool as a model sees it.
pub struct ToolSpec {
    pub name: String,
    pub description: String,
    pub input_schema: Json,
}

/// What a tool is.
#[verifier::ext_equal]
pub struct ToolSpecView {
    pub name: Seq<char>,
    pub description: Seq<char>,
    pub input_schema: JsonView,
}

impl View for ToolSpec {
    type V = ToolSpecView;

    open spec fn view(&self) -> ToolSpecView {
        ToolSpecView {
            name: self.name@,
            description: self.description@,
            input_schema: self.input_schema@,
        }
    }
}

impl ToolSpec {
    /// A copy of the tool.
    pub fn copy(&self) -> (spec_copy: Self)
        ensures
            spec_copy@ == self@,
    {
        ToolSpec {
            name: self.name.clone(),
            description: self.description.clone(),
            input_schema: self.input_schema.copy(),
        }
    }
}

/// A request to a model.
pub struct CompletionRequest {
    pub model: String,
    pub messages: Vec<ProviderMessage>,
    pub tools: Vec<ToolSpec>,
    pub max_tokens: Option<u32>,
    /// The bits of an IEEE single.
    pub temperature: Option<u32>,
    pub thinking_tokens: Option<u32>,
    pub system: Option<String>,
}

/// What a request is.
#[verifier::ext_equal]
pub struct RequestView {
    pub model: Seq<char>,
    pub messages: Seq<ProviderMessageView>,
    pub tools: Seq<ToolSpecView>,
    pub max_tokens: Option<u32>,
    pub temperature: Option<u32>,
    pub thinking_tokens: Option<u32>,
    pub system: Option<Seq<char>>,
}

impl View for CompletionRequest {
    type V = RequestView;

    open spec fn view(&self) -> RequestView {
        RequestView {
            model: self.model@,
            messages: Seq::new(self.messages@.len(), |i: int| self.messages@[i]@),
            tools: Seq::new(self.tools@.len(), |i: int| self.tools@[i]@),
            max_tokens: self.max_tokens,
            temperature: self.temperature,
            thinking_tokens: self.thinking_tokens,
            system: text::opt_view(self.system),
        }
    }
}

/// A piece of the answer of a model.
pub enum StreamChunk {
    Text(String),
    Thinking(String),
    ToolCall { id: String, name: String, input: Json },
    Done,
}

/// A message with one text is said by the one it is made for, and holds that text and no more.
pub proof fn lemma_one_text(words: String, system: ProviderMessage, user: ProviderMessage)
    requires
        call_ensures(ProviderMessage::system, (words,), system),
        call_ensures(ProviderMessage::user_text, (words,), user),
    ensures
        system@.role == Role::System,
        user@.role == Role::User,
        system@.content == seq![ProviderBlockView::Text { text: words@ }],
        user@.content == seq![ProviderBlockView::Text { text: words@ }],
{
}

} // verus!
