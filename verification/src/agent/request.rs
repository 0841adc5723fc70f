//! The request to a model that a conversation makes.

use vstd::prelude::*;
use crate::agent::provider;
use crate::agent::provider::ProviderBlock;
use crate::agent::provider::ProviderBlockView;
use crate::agent::provider::ProviderMessage;
use crate::agent::provider::ProviderMessageView;
use crate::agent::provider::Role;
use crate::agent::types;
use crate::agent::types::AssistantTurn;
use crate::agent::types::AssistantTurnView;
use crate::agent::types::ContentBlock;
use crate::agent::types::ContentBlockView;
use crate::agent::types::ConversationMessage;
use crate::agent::types::MessageView;
use crate::agent::types::ToolCallView;
use crate::agent::types::ToolResult;
use crate::agent::types::ToolResultView;
use crate::json;
use crate::json::JsonView;
use crate::text;

verus! {

/// A user block for a model: text and images as they are, what was perceived as
/// its JSON text.
pub open spec fn block_for_model(block: ContentBlockView) -> ProviderBlockView {
    match block {
        ContentBlockView::Text { text } => ProviderBlockView::Text { text },
        ContentBlockView::Image { media_type, data_base64 } => ProviderBlockView::Image {
            media_type,
            data: data_base64,
        },
        _ => ProviderBlockView::Text { text: types::block_text(block) },
    }
}

/// A tool call for a model.
pub open spec fn call_for_model(call: ToolCallView) -> ProviderBlockView {
    ProviderBlockView::ToolUse { id: call.id, name: call.name, input: call.input }
}

/// A tool result for a model.
pub open spec fn result_for_model(result: ToolResultView) -> ProviderBlockView {
    ProviderBlockView::ToolResult {
        tool_use_id: result.tool_call_id,
        content: result.content,
        is_error: result.is_error,
    }
}

/// A turn for a model: its thinking, its text, then its calls.
pub open spec fn turn_for_model(turn: AssistantTurnView) -> Seq<ProviderBlockView> {
    let thinking = match turn.thinking {
        Some(t) => seq![ProviderBlockView::Thinking { thinking: t }],
        None => Seq::empty(),
    };
    let text = match turn.text {
        Some(t) => seq![ProviderBlockView::Text { text: t }],
        None => Seq::empty(),
    };
    thinking + text + Seq::new(turn.tool_calls.len(), |i: int| call_for_model(turn.tool_calls[i]))
}

/// The blocks of a message for a model.
pub open spec fn blocks_for_model(message: MessageView) -> Seq<ProviderBlockView> {
    match message {
        MessageView::System { content } => Seq::empty(),
        MessageView::User { content, timestamp_ms } => Seq::new(
            content.len(),
            |i: int| block_for_model(content[i]),
        ),
        MessageView::Assistant(turn) => turn_for_model(turn),
        MessageView::ToolResults { results } => Seq::new(
            results.len(),
            |i: int| result_for_model(results[i]),
        ),
    }
}

/// The role in which a message is sent.
pub open spec fn role_for_model(message: MessageView) -> Role {
    match message {
        MessageView::System { content } => Role::System,
        MessageView::User { content, timestamp_ms } => Role::User,
        MessageView::Assistant(turn) => Role::Assistant,
        MessageView::ToolResults { results } => Role::Tool,
    }
}

/// A message for a model. The system message travels apart, and a message
/// without blocks is not sent.
pub open spec fn message_for_model(message: MessageView) -> Option<ProviderMessageView> {
    if blocks_for_model(message).len() == 0 {
        None
    } else {
        Some(
            ProviderMessageView {
                role: role_for_model(message),
                content: blocks_for_model(message),
            },
        )
    }
}

/// The messages for a model.
pub open spec fn messages_for_model(messages: Seq<MessageView>) -> Seq<ProviderMessageView>
    decreases messages.len(),
{
    if messages.len() == 0 {
        Seq::empty()
    } else {
        match message_for_model(messages.last()) {
            Some(m) => messages_for_model(messages.drop_last()).push(m),
            None => messages_for_model(messages.drop_last()),
        }
    }
}

/// The first text among the blocks.
pub open spec fn first_text(blocks: Seq<ContentBlockView>) -> Option<Seq<char>>
    decreases blocks.len(),
{
    if blocks.len() == 0 {
        None
    } else {
        match blocks[0] {
            ContentBlockView::Text { text } => Some(text),
            _ => first_text(blocks.drop_first()),
        }
    }
}

/// The first text of the latest user message that has one, else nothing.
pub open spec fn last_user_text_view(messages: Seq<MessageView>) -> Seq<char>
    decreases messages.len(),
{
    if messages.len() == 0 {
        Seq::empty()
    } else {
        match messages.last() {
            MessageView::User { content, timestamp_ms } => match first_text(content) {
                Some(t) => t,
                None => last_user_text_view(messages.drop_last()),
            },
            _ => last_user_text_view(messages.drop_last()),
        }
    }
}

/// The text of the latest answer that has one, else nothing.
pub open spec fn last_answer_view(messages: Seq<MessageView>) -> Seq<char>
    decreases messages.len(),
{
    if messages.len() == 0 {
        Seq::empty()
    } else {
        match messages.last() {
            MessageView::Assistant(turn) => match turn.text {
                Some(t) => t,
                None => last_answer_view(messages.drop_last()),
            },
            _ => last_answer_view(messages.drop_last()),
        }
    }
}

fn convert_block(block: &ContentBlock) -> (result: ProviderBlock)
    ensures
        result@ == block_for_model(block@),
{
    match block {
        ContentBlock::Text { text } => ProviderBlock::Text { text: text.clone() },
        ContentBlock::Image { media_type, data_base64 } => ProviderBlock::Image {
            media_type: media_type.clone(),
            data: data_base64.clone(),
        },
        other => ProviderBlock::Text { text: other.json_text() },
    }
}

fn convert_user(content: &Vec<ContentBlock>) -> (blocks: Vec<ProviderBlock>)
    ensures
        provider::provider_blocks_view(blocks@) == Seq::new(
            content@.len(),
            |i: int| block_for_model(types::blocks_view(content@)[i]),
        ),
{
    let mut blocks: Vec<ProviderBlock> = Vec::new();
    let mut i: usize = 0;
    while i < content.len()
        invariant
            i <= content.len(),
            blocks.len() == i,
            forall|k: int| 0 <= k < i ==> (#[trigger] blocks@[k])@ == block_for_model(content@[k]@),
        decreases content.len() - i,
    {
        blocks.push(convert_block(&content[i]));
        i += 1;
    }
    assert(provider::provider_blocks_view(blocks@) =~= Seq::new(
        content@.len(),
        |i: int| block_for_model(types::blocks_view(content@)[i]),
    ));
    blocks
}

fn convert_turn(turn: &AssistantTurn) -> (blocks: Vec<ProviderBlock>)
    ensures
        provider::provider_blocks_view(blocks@) == turn_for_model(turn@),
{
    let mut blocks: Vec<ProviderBlock> = Vec::new();
    if let Some(t) = &turn.thinking {
        blocks.push(ProviderBlock::Thinking { thinking: t.clone() });
    }
    if let Some(t) = &turn.text {
        blocks.push(ProviderBlock::Text { text: t.clone() });
    }
    let ghost head = provider::provider_blocks_view(blocks@);
    let ghost calls = Seq::new(
        turn@.tool_calls.len(),
        |i: int| call_for_model(turn@.tool_calls[i]),
    );
    assert(turn_for_model(turn@) =~= head + calls);
    let mut i: usize = 0;
    assert(head =~= head + calls.take(0));
    while i < turn.tool_calls.len()
        invariant
            i <= turn.tool_calls.len(),
            calls == Seq::new(
                turn@.tool_calls.len(),
                |i: int| call_for_model(turn@.tool_calls[i]),
            ),
            provider::provider_blocks_view(blocks@) == head + calls.take(i as int),
        decreases turn.tool_calls.len() - i,
    {
        let ghost before = blocks@;
        let call = turn.tool_calls[i].copy();
        let block = ProviderBlock::ToolUse { id: call.id, name: call.name, input: call.input };
        blocks.push(block);
        assert(block@ == calls[i as int]);
        assert(provider::provider_blocks_view(blocks@) =~= provider::provider_blocks_view(
            before,
        ).push(block@));
        i += 1;
        assert(provider::provider_blocks_view(blocks@) =~= head + calls.take(i as int));
    }
    assert(calls.take(i as int) =~= calls);
    blocks
}

fn convert_results(results: &Vec<ToolResult>) -> (blocks: Vec<ProviderBlock>)
    ensures
        provider::provider_blocks_view(blocks@) == Seq::new(
            results@.len(),
            |i: int| result_for_model(types::results_view(results@)[i]),
        ),
{
    let mut blocks: Vec<ProviderBlock> = Vec::new();
    let mut i: usize = 0;
    while i < results.len()
        invariant
            i <= results.len(),
            blocks.len() == i,
            forall|k: int|
                0 <= k < i ==> (#[trigger] blocks@[k])@ == result_for_model(results@[k]@),
        decreases results.len() - i,
    {
        blocks.push(
            ProviderBlock::ToolResult {
                tool_use_id: results[i].tool_call_id.clone(),
                content: results[i].content.clone(),
                is_error: results[i].is_error,
            },
        );
        i += 1;
    }
    assert(provider::provider_blocks_view(blocks@) =~= Seq::new(
        results@.len(),
        |i: int| result_for_model(types::results_view(results@)[i]),
    ));
    blocks
}

/// A message for a model, if it is to be sent.
pub fn conversation_to_provider(msg: &ConversationMessage) -> (result: Option<ProviderMessage>)
    ensures
        (match result {
            Some(m) => Some(m@),
            None => None,
        }) == message_for_model(msg@),
{
    let (role, content): (Role, Vec<ProviderBlock>) = match msg {
        ConversationMessage::System { content } => (Role::System, Vec::new()),
        ConversationMessage::User { content, timestamp_ms } => (Role::User, convert_user(content)),
        ConversationMessage::Assistant(turn) => (Role::Assistant, convert_turn(turn)),
        ConversationMessage::ToolResults { results } => (Role::Tool, convert_results(results)),
    };
    assert(provider::provider_blocks_view(content@) =~= blocks_for_model(msg@));
    assert(content@.len() == blocks_for_model(msg@).len());
    if content.len() == 0 {
        return None;
    }
    Some(ProviderMessage { role, content })
}

/// The messages for a model.
pub fn convert_messages(messages: &Vec<ConversationMessage>) -> (result: Vec<ProviderMessage>)
    ensures
        Seq::new(result@.len(), |i: int| result@[i]@) == messages_for_model(
            types::messages_view(messages@),
        ),
{
    let ghost all = types::messages_view(messages@);
    let mut result: Vec<ProviderMessage> = Vec::new();
    let mut i: usize = 0;
    assert(all.take(0) =~= Seq::<MessageView>::empty());
    assert(Seq::new(result@.len(), |i: int| result@[i]@) =~= messages_for_model(all.take(0)));
    while i < messages.len()
        invariant
            i <= messages.len(),
            all == types::messages_view(messages@),
            Seq::new(result@.len(), |i: int| result@[i]@) == messages_for_model(
                all.take(i as int),
            ),
        decreases messages.len() - i,
    {
        assert(all.take(i + 1).drop_last() =~= all.take(i as int));
        if let Some(m) = conversation_to_provider(&messages[i]) {
            let ghost before = Seq::new(result@.len(), |i: int| result@[i]@);
            result.push(m);
            assert(Seq::new(result@.len(), |i: int| result@[i]@) =~= before.push(m@));
        }
        i += 1;
    }
    assert(all.take(i as int) =~= all);
    result
}

fn find_text(blocks: &Vec<ContentBlock>) -> (result: Option<String>)
    ensures
        text::opt_view(result) == first_text(types::blocks_view(blocks@)),
{
    let ghost all = types::blocks_view(blocks@);
    let mut i: usize = 0;
    assert(all.skip(0) =~= all);
    while i < blocks.len()
        invariant
            i <= blocks.len(),
            all == types::blocks_view(blocks@),
            first_text(all) == first_text(all.skip(i as int)),
        decreases blocks.len() - i,
    {
        assert(all.skip(i as int)[0] == blocks@[i as int]@);
        assert(all.skip(i as int).drop_first() =~= all.skip(i + 1));
        if let ContentBlock::Text { text } = &blocks[i] {
            return Some(text.clone());
        }
        i += 1;
    }
    None
}

/// The first text of the latest user message that has one, else nothing.
pub fn last_user_text(messages: &Vec<ConversationMessage>) -> (result: String)
    ensures
        result@ == last_user_text_view(types::messages_view(messages@)),
{
    let ghost all = types::messages_view(messages@);
    let mut i: usize = messages.len();
    assert(all.take(all.len() as int) =~= all);
    while i > 0
        invariant
            i <= messages.len(),
            all == types::messages_view(messages@),
            last_user_text_view(all) == last_user_text_view(all.take(i as int)),
        decreases i,
    {
        assert(all.take(i as int).last() == messages@[i - 1]@);
        assert(all.take(i as int).drop_last() =~= all.take(i - 1));
        if let ConversationMessage::User { content, timestamp_ms } = &messages[i - 1] {
            if let Some(t) = find_text(content) {
                return t;
            }
        }
        i -= 1;
    }
    String::new()
}

/// The text of the latest answer that has one, else nothing.
pub fn last_answer(messages: &Vec<ConversationMessage>) -> (result: String)
    ensures
        result@ == last_answer_view(types::messages_view(messages@)),
{
    let ghost all = types::messages_view(messages@);
    let mut i: usize = messages.len();
    assert(all.take(all.len() as int) =~= all);
    while i > 0
        invariant
            i <= messages.len(),
            all == types::messages_view(messages@),
            last_answer_view(all) == last_answer_view(all.take(i as int)),
        decreases i,
    {
        assert(all.take(i as int).last() == messages@[i - 1]@);
        assert(all.take(i as int).drop_last() =~= all.take(i - 1));
        if let ConversationMessage::Assistant(turn) = &messages[i - 1] {
            if let Some(t) = &turn.text {
                return t.clone();
            }
        }
        i -= 1;
    }
    String::new()
}

// ---------------------------------------------------------------------------
// What a request promises
// ---------------------------------------------------------------------------

/// Every answer of the model is sent back whole: its thinking, its text and then each of its
/// tool calls in order with the same id, name and input, and nothing else. An answer of
/// which nothing is left is not sent.
pub proof fn lemma_turn_is_sent_whole(turn: AssistantTurnView)
    ensures
        ({
            let thought = if turn.thinking is Some { 1int } else { 0int };
            let said = if turn.text is Some { 1int } else { 0int };
            match message_for_model(MessageView::Assistant(turn)) {
                Some(m) => {
                    &&& m.role == Role::Assistant
                    &&& m.content.len() > 0
                    &&& m.content.len() == thought + said + turn.tool_calls.len()
                    &&& turn.thinking matches Some(t) ==> m.content[0]
                        == (ProviderBlockView::Thinking { thinking: t })
                    &&& turn.text matches Some(t) ==> m.content[thought]
                        == (ProviderBlockView::Text { text: t })
                    &&& forall|i: int|
                        #![trigger turn.tool_calls[i]]
                        0 <= i < turn.tool_calls.len() ==> m.content[thought + said + i]
                            == (ProviderBlockView::ToolUse {
                            id: turn.tool_calls[i].id,
                            name: turn.tool_calls[i].name,
                            input: turn.tool_calls[i].input,
                        })
                },
                None => thought + said + turn.tool_calls.len() == 0,
            }
        }),
{
}

/// What the user said and showed is sent block by block: a text as that text, an image as
/// that image, and what was perceived as a text that holds its session, application, kind
/// or window and its tree, state or data, each as JSON.
pub proof fn lemma_user_is_sent_whole(content: Seq<ContentBlockView>, timestamp_ms: u64)
    ensures
        match message_for_model(MessageView::User { content, timestamp_ms }) {
            Some(m) => {
                &&& m.role == Role::User
                &&& m.content.len() == content.len() > 0
                &&& forall|i: int|
                    #![trigger content[i]]
                    0 <= i < content.len() ==> match (content[i], m.content[i]) {
                        (
                            ContentBlockView::Text { text },
                            ProviderBlockView::Text { text: sent },
                        ) => sent == text,
                        (
                            ContentBlockView::Image { media_type, data_base64 },
                            ProviderBlockView::Image { media_type: kind, data },
                        ) => kind == media_type && data == data_base64,
                        (
                            ContentBlockView::WaylandTree { session_id, tree },
                            ProviderBlockView::Text { text: sent },
                        ) => sent == "{\"type\":\"wayland_tree\",\"session_id\":"@ + json::written(
                            JsonView::Text(session_id),
                        ) + ",\"tree\":"@ + json::written(tree) + "}"@,
                        (
                            ContentBlockView::AppState { app_id, state },
                            ProviderBlockView::Text { text: sent },
                        ) => sent == "{\"type\":\"app_state\",\"app_id\":"@ + json::written(
                            JsonView::Text(app_id),
                        ) + ",\"state\":"@ + json::written(state) + "}"@,
                        (
                            ContentBlockView::KernelEvent { kind, data },
                            ProviderBlockView::Text { text: sent },
                        ) => sent == "{\"type\":\"kernel_event\",\"kind\":"@ + json::written(
                            JsonView::Text(kind),
                        ) + ",\"data\":"@ + json::written(data) + "}"@,
                        (
                            ContentBlockView::AtSpi { window_id, tree },
                            ProviderBlockView::Text { text: sent },
                        ) => sent == "{\"type\":\"at_spi\",\"window_id\":"@ + text::decimal(
                            window_id as nat,
                        ) + ",\"tree\":"@ + json::written(tree) + "}"@,
                        _ => false,
                    }
            },
            None => content.len() == 0,
        },
{
}

/// The results of tools are sent one by one, each under the id of its call with its content
/// and whether it failed.
pub proof fn lemma_results_are_sent_whole(results: Seq<ToolResultView>)
    ensures
        match message_for_model(MessageView::ToolResults { results }) {
            Some(m) => {
                &&& m.role == Role::Tool
                &&& m.content.len() == results.len() > 0
                &&& forall|i: int|
                    #![trigger results[i]]
                    0 <= i < results.len() ==> m.content[i] == (ProviderBlockView::ToolResult {
                        tool_use_id: results[i].tool_call_id,
                        content: results[i].content,
                        is_error: results[i].is_error,
                    })
            },
            None => results.len() == 0,
        },
{
}

/// The system prompt is no message of a request.
pub proof fn lemma_prompt_travels_apart(content: Seq<char>)
    ensures
        message_for_model(MessageView::System { content }) is None,
{
}

/// The messages of a request are those of the conversation in order: the messages for two
/// conversations, one behind the other, are the messages for the first and then those for
/// the second, and one message gives itself or nothing.
pub proof fn lemma_messages_in_order(a: Seq<MessageView>, b: Seq<MessageView>)
    ensures
        messages_for_model(a + b) == messages_for_model(a) + messages_for_model(b),
        a.len() == 0 ==> messages_for_model(a) == Seq::<ProviderMessageView>::empty(),
        a.len() == 1 ==> messages_for_model(a) == (match message_for_model(a[0]) {
            Some(m) => seq![m],
            None => Seq::empty(),
        }),
    decreases b.len(),
{
    if a.len() == 1 {
        assert(a.drop_last() =~= Seq::<MessageView>::empty());
        assert(messages_for_model(a.drop_last()) =~= Seq::<ProviderMessageView>::empty());
        assert(messages_for_model(a) =~= (match message_for_model(a[0]) {
            Some(m) => seq![m],
            None => Seq::empty(),
        }));
    }
    if b.len() == 0 {
        assert(a + b =~= a);
    } else {
        assert((a + b).drop_last() =~= a + b.drop_last());
        assert((a + b).last() == b.last());
        lemma_messages_in_order(a, b.drop_last());
        assert(messages_for_model(a + b) =~= messages_for_model(a) + messages_for_model(b));
    }
}

/// Where results directly follow the answer that called their tools, each result in the
/// request has the call of the same id in the message before it, so that the model sees the
/// call that a result answers.
pub proof fn lemma_results_follow_their_calls(
    before: Seq<MessageView>,
    turn: AssistantTurnView,
    results: Seq<ToolResultView>,
    after: Seq<MessageView>,
)
    requires
        0 < results.len() <= turn.tool_calls.len(),
        forall|i: int|
            0 <= i < results.len() ==> (#[trigger] results[i]).tool_call_id
                == turn.tool_calls[i].id,
    ensures
        ({
            let all = before.push(MessageView::Assistant(turn)).push(
                MessageView::ToolResults { results },
            ) + after;
            let sent = messages_for_model(all);
            let at = messages_for_model(before).len() as int;
            &&& at + 1 < sent.len()
            &&& sent[at].role == Role::Assistant
            &&& sent[at + 1].role == Role::Tool
            &&& sent[at + 1].content.len() == results.len()
            &&& forall|i: int|
                #![trigger results[i]]
                0 <= i < results.len() ==> {
                    &&& sent[at + 1].content[i] == (ProviderBlockView::ToolResult {
                        tool_use_id: results[i].tool_call_id,
                        content: results[i].content,
                        is_error: results[i].is_error,
                    })
                    &&& sent[at].content.contains(
                        ProviderBlockView::ToolUse {
                            id: results[i].tool_call_id,
                            name: turn.tool_calls[i].name,
                            input: turn.tool_calls[i].input,
                        },
                    )
                }
        }),
{
    let answer = MessageView::Assistant(turn);
    let outcome = MessageView::ToolResults { results };
    let two = seq![answer, outcome];
    let all = before.push(answer).push(outcome) + after;
    assert(all =~= before + (two + after));
    assert(two =~= seq![answer] + seq![outcome]);
    lemma_messages_in_order(before, two + after);
    lemma_messages_in_order(two, after);
    lemma_messages_in_order(seq![answer], seq![outcome]);
    lemma_messages_in_order(seq![outcome], after);
    lemma_turn_is_sent_whole(turn);
    lemma_results_are_sent_whole(results);
    let sent = messages_for_model(all);
    let at = messages_for_model(before).len() as int;
    assert(sent[at] == message_for_model(answer)->0);
    assert(sent[at + 1] == message_for_model(outcome)->0);
    let thought = if turn.thinking is Some { 1int } else { 0int };
    let said = if turn.text is Some { 1int } else { 0int };
    assert forall|i: int|
        #![trigger results[i]]
        0 <= i < results.len() implies sent[at].content.contains(
        ProviderBlockView::ToolUse {
            id: results[i].tool_call_id,
            name: turn.tool_calls[i].name,
            input: turn.tool_calls[i].input,
        },
    ) by {
        assert(turn.tool_calls[i].id == results[i].tool_call_id);
        assert(sent[at].content[thought + said + i] == (ProviderBlockView::ToolUse {
            id: turn.tool_calls[i].id,
            name: turn.tool_calls[i].name,
            input: turn.tool_calls[i].input,
        }));
    }
}

/// The hint is a text of the user: it is the first text of some message of the user, and no
/// later message of the user has a text. Where it is missing no message of the user has one.
pub proof fn lemma_hint_is_the_latest(messages: Seq<MessageView>)
    ensures
        (exists|i: int| 0 <= i < messages.len() && #[trigger] user_says(messages[i])) ==> exists|
            i: int,
        | #![trigger messages[i]] {
            &&& 0 <= i < messages.len()
            &&& user_says(messages[i])
            &&& says_first(messages[i], last_user_text_view(messages))
            &&& forall|j: int|
                i < j < messages.len() ==> !user_says(#[trigger] messages[j])
        },
        (forall|i: int| 0 <= i < messages.len() ==> !user_says(#[trigger] messages[i]))
            ==> last_user_text_view(messages).len() == 0,
    decreases messages.len(),
{
    if messages.len() > 0 {
        let rest = messages.drop_last();
        lemma_hint_is_the_latest(rest);
        let last = messages.len() - 1;
        if let MessageView::User { content, timestamp_ms } = messages[last] {
            lemma_first_text(content);
        }
        if user_says(messages[last]) {
            assert(says_first(messages[last], last_user_text_view(messages)));
        } else if exists|i: int| 0 <= i < messages.len() && #[trigger] user_says(messages[i]) {
            let i = choose|i: int| 0 <= i < messages.len() && #[trigger] user_says(messages[i]);
            assert(user_says(rest[i]));
            let k = choose|i: int|
                #![trigger rest[i]]
                {
                    &&& 0 <= i < rest.len()
                    &&& user_says(rest[i])
                    &&& says_first(rest[i], last_user_text_view(rest))
                    &&& forall|j: int| i < j < rest.len() ==> !user_says(#[trigger] rest[j])
                };
            assert(messages[k] == rest[k]);
            assert forall|j: int| k < j < messages.len() implies !user_says(
                #[trigger] messages[j],
            ) by {
                if j < last {
                    assert(messages[j] == rest[j]);
                }
            }
        } else {
            assert forall|i: int| 0 <= i < rest.len() implies !user_says(#[trigger] rest[i]) by {
                assert(messages[i] == rest[i]);
            }
        }
    }
}

/// Whether this is a message of the user with a text in it.
pub open spec fn user_says(message: MessageView) -> bool {
    message matches MessageView::User { content, .. } && exists|i: int|
        0 <= i < content.len() && (#[trigger] content[i]) is Text
}

/// Whether this is a message of the user whose first text this is.
pub open spec fn says_first(message: MessageView, text: Seq<char>) -> bool {
    message matches MessageView::User { content, .. } && exists|i: int|
        {
            &&& 0 <= i < content.len()
            &&& #[trigger] content[i] == (ContentBlockView::Text { text })
            &&& forall|j: int| 0 <= j < i ==> !((#[trigger] content[j]) is Text)
        }
}

proof fn lemma_first_text(blocks: Seq<ContentBlockView>)
    ensures
        match first_text(blocks) {
            Some(t) => exists|i: int|
                {
                    &&& 0 <= i < blocks.len()
                    &&& #[trigger] blocks[i] == (ContentBlockView::Text { text: t })
                    &&& forall|j: int| 0 <= j < i ==> !((#[trigger] blocks[j]) is Text)
                },
            None => forall|i: int| 0 <= i < blocks.len() ==> !((#[trigger] blocks[i]) is Text),
        },
    decreases blocks.len(),
{
    if blocks.len() > 0 && !(blocks[0] is Text) {
        let rest = blocks.drop_first();
        lemma_first_text(rest);
        match first_text(rest) {
            Some(t) => {
                let i = choose|i: int|
                    {
                        &&& 0 <= i < rest.len()
                        &&& #[trigger] rest[i] == (ContentBlockView::Text { text: t })
                        &&& forall|j: int| 0 <= j < i ==> !((#[trigger] rest[j]) is Text)
                    };
                assert(blocks[i + 1] == rest[i]);
                assert forall|j: int| 0 <= j < i + 1 implies !((#[trigger] blocks[j]) is Text) by {
                    if j > 0 {
                        assert(blocks[j] == rest[j - 1]);
                    }
                }
            },
            None => {
                assert forall|i: int| 0 <= i < blocks.len() implies !((#[trigger] blocks[i]) is Text) by {
                    if i > 0 {
                        assert(blocks[i] == rest[i - 1]);
                    }
                }
            },
        }
    } else if blocks.len() > 0 {
        assert(blocks[0] == (ContentBlockView::Text { text: first_text(blocks)->0 }));
    }
}

/// The summary of a session is the text of the latest answer that has one.
pub proof fn lemma_summary_is_the_latest(
    messages: Seq<MessageView>,
    turn: AssistantTurnView,
    after: Seq<MessageView>,
)
    requires
        turn.text is Some,
        forall|i: int|
            0 <= i < after.len() ==> ((#[trigger] after[i]) matches MessageView::Assistant(t)
                ==> t.text is None),
    ensures
        last_answer_view(messages.push(MessageView::Assistant(turn)) + after) == turn.text->0,
    decreases after.len(),
{
    let all = messages.push(MessageView::Assistant(turn)) + after;
    if after.len() == 0 {
        assert(all =~= messages.push(MessageView::Assistant(turn)));
    } else {
        assert(all.drop_last() =~= messages.push(MessageView::Assistant(turn)) + after.drop_last());
        assert(all.last() == after.last());
        lemma_summary_is_the_latest(messages, turn, after.drop_last());
    }
}

/// Of an answer that is handed to the provider no call is lost: each stands in the message with
/// its id, its name and its input.
pub proof fn lemma_calls_reach_the_provider(
    turn: AssistantTurn,
    sent: Option<ProviderMessage>,
    i: int,
)
    requires
        call_ensures(
            conversation_to_provider,
            (&ConversationMessage::Assistant(turn),),
            sent,
        ),
        0 <= i < turn.tool_calls@.len(),
    ensures
        sent matches Some(m) && m.role == Role::Assistant && exists|k: int|
            0 <= k < m.content@.len() && (#[trigger] m.content@[k])@
                == (ProviderBlockView::ToolUse {
                id: turn.tool_calls@[i].id@,
                name: turn.tool_calls@[i].name@,
                input: turn.tool_calls@[i].input@,
            }),
{
    lemma_turn_is_sent_whole(turn@);
    let thought = if turn@.thinking is Some { 1int } else { 0int };
    let said = if turn@.text is Some { 1int } else { 0int };
    let m = sent->0;
    let k = thought + said + i;
    assert(turn@.tool_calls[i] == turn.tool_calls@[i]@);
    assert(m@.content[k] == m.content@[k]@);
}

/// A conversation is handed to the provider in order: what is sent of a longer one begins with
/// what is sent of its beginning and goes on with what is sent of the rest.
pub proof fn lemma_conversation_reaches_the_provider(
    whole: Vec<ConversationMessage>,
    start: Vec<ConversationMessage>,
    rest: Vec<ConversationMessage>,
    all: Vec<ProviderMessage>,
    first: Vec<ProviderMessage>,
    then_sent: Vec<ProviderMessage>,
)
    requires
        types::messages_view(whole@) == types::messages_view(start@) + types::messages_view(rest@),
        call_ensures(convert_messages, (&whole,), all),
        call_ensures(convert_messages, (&start,), first),
        call_ensures(convert_messages, (&rest,), then_sent),
    ensures
        all@.len() == first@.len() + then_sent@.len(),
        forall|i: int| 0 <= i < first@.len() ==> (#[trigger] all@[i])@ == first@[i]@,
        forall|i: int|
            0 <= i < then_sent@.len() ==> all@[first@.len() + i]@ == (#[trigger] then_sent@[i])@,
{
    lemma_messages_in_order(types::messages_view(start@), types::messages_view(rest@));
    let a = Seq::new(all@.len(), |i: int| all@[i]@);
    let f = Seq::new(first@.len(), |i: int| first@[i]@);
    let t = Seq::new(then_sent@.len(), |i: int| then_sent@[i]@);
    assert(a == f + t);
    assert forall|i: int| 0 <= i < first@.len() implies (#[trigger] all@[i])@ == first@[i]@ by {
        assert(a[i] == f[i]);
    }
    assert forall|i: int| 0 <= i < then_sent@.len() implies all@[first@.len() + i]@ == (
    #[trigger] then_sent@[i])@ by {
        assert(a[first@.len() + i] == t[i]);
    }
}

} // verus!
