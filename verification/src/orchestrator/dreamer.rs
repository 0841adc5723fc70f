//! What is remembered of a session that has ended.
//!
//! A model is shown the conversation and asked for lasting facts, as a list of texts. What it
//! answers is read with patience: the list may stand in a fence or between other words.

use std::collections::hash_map::DefaultHasher;
use vstd::prelude::*;
use std::hash::{Hash, Hasher};
use crate::agent::provider;
use crate::agent::provider::CompletionRequest;
use crate::agent::provider::ProviderBlockView;
use crate::agent::provider::ProviderMessage;
use crate::agent::provider::RequestView;
use crate::agent::provider::Role;
use crate::agent::provider::ToolSpecView;
use crate::agent::types;
use crate::agent::types::AssistantTurnView;
use crate::agent::types::ContentBlock;
use crate::agent::types::ContentBlockView;
use crate::agent::types::ConversationMessage;
use crate::agent::types::MessageView;
use crate::agent::types::ToolResultView;
use crate::json;
use crate::json::Json;
use crate::json::JsonNumberView;
use crate::json::JsonView;
use crate::text;
use crate::text_laws;

verus! {

// ---------------------------------------------------------------------------
// The question
// ---------------------------------------------------------------------------

/// What the model is asked.
pub open spec fn distill_prompt() -> Seq<char> {
    "Analyze the conversation history. Extract ONLY permanent, durable knowledge, rules, and user preferences that should persist across future sessions. Ignore ephemeral bugs, narrative, or code snippets. Output ONLY a JSON array of strings — concise facts, no prose, no markdown fences."@
}

/// The texts among blocks.
pub open spec fn texts_of(blocks: Seq<ContentBlockView>) -> Seq<Seq<char>>
    decreases blocks.len(),
{
    if blocks.len() == 0 {
        Seq::empty()
    } else {
        match blocks.last() {
            ContentBlockView::Text { text } => texts_of(blocks.drop_last()).push(text),
            _ => texts_of(blocks.drop_last()),
        }
    }
}

/// The line of a message: what the user said and what the model answered.
pub open spec fn line_of(message: MessageView) -> Option<Seq<char>> {
    match message {
        MessageView::User { content, timestamp_ms } => {
            let said = text::joined(texts_of(content), " "@);
            if said.len() == 0 {
                None
            } else {
                Some("user: "@ + said)
            }
        },
        MessageView::Assistant(turn) => match turn.text {
            Some(t) => Some("assistant: "@ + t),
            None => None,
        },
        _ => None,
    }
}

/// The lines of a conversation.
pub open spec fn lines_of(messages: Seq<MessageView>) -> Seq<Seq<char>>
    decreases messages.len(),
{
    if messages.len() == 0 {
        Seq::empty()
    } else {
        match line_of(messages.last()) {
            Some(line) => lines_of(messages.drop_last()).push(line),
            None => lines_of(messages.drop_last()),
        }
    }
}

/// The transcript of a conversation.
pub open spec fn transcript(messages: Seq<MessageView>) -> Seq<char> {
    text::joined(lines_of(messages), "\n"@)
}

fn said_in(content: &Vec<ContentBlock>) -> (said: String)
    ensures
        said@ == text::joined(texts_of(types::blocks_view(content@)), " "@),
{
    let ghost all = types::blocks_view(content@);
    let mut texts: Vec<String> = Vec::new();
    let mut i: usize = 0;
    assert(all.take(0) =~= Seq::<ContentBlockView>::empty());
    assert(text::views(texts@) =~= Seq::<Seq<char>>::empty());
    while i < content.len()
        invariant
            i <= content.len(),
            all == types::blocks_view(content@),
            text::views(texts@) == texts_of(all.take(i as int)),
        decreases content.len() - i,
    {
        assert(all.take(i + 1).drop_last() =~= all.take(i as int));
        assert(all[i as int] == content@[i as int]@);
        if let ContentBlock::Text { text: t } = &content[i] {
            let copy = t.clone();
            proof {
                text::lemma_views_push(texts@, copy);
            }
            texts.push(copy);
        }
        i += 1;
    }
    assert(all.take(i as int) =~= all);
    text::join(&texts, " ")
}

fn message_line(message: &ConversationMessage) -> (line: Option<String>)
    ensures
        text::opt_view(line) == line_of(message@),
{
    match message {
        ConversationMessage::User { content, timestamp_ms } => {
            let said = said_in(content);
            if said.as_str().is_empty() {
                None
            } else {
                Some("user: ".to_string().concat(said.as_str()))
            }
        },
        ConversationMessage::Assistant(turn) => match &turn.text {
            Some(t) => Some("assistant: ".to_string().concat(t.as_str())),
            None => None,
        },
        _ => None,
    }
}

/// The transcript of a conversation.
pub fn format_transcript(messages: &Vec<ConversationMessage>) -> (result: String)
    ensures
        result@ == transcript(types::messages_view(messages@)),
{
    let ghost all = types::messages_view(messages@);
    let mut lines: Vec<String> = Vec::new();
    let mut i: usize = 0;
    assert(all.take(0) =~= Seq::<MessageView>::empty());
    assert(text::views(lines@) =~= Seq::<Seq<char>>::empty());
    while i < messages.len()
        invariant
            i <= messages.len(),
            all == types::messages_view(messages@),
            text::views(lines@) == lines_of(all.take(i as int)),
        decreases messages.len() - i,
    {
        assert(all.take(i + 1).drop_last() =~= all.take(i as int));
        assert(all[i as int] == messages@[i as int]@);
        if let Some(line) = message_line(&messages[i]) {
            proof {
                text::lemma_views_push(lines@, line);
            }
            lines.push(line);
        }
        i += 1;
    }
    assert(all.take(i as int) =~= all);
    text::join(&lines, "\n")
}

/// The question for a transcript.
pub open spec fn question(model: Seq<char>, transcript: Seq<char>) -> RequestView {
    RequestView {
        model,
        messages: seq![
            provider::one_text(Role::User, "Conversation history:\n"@ + transcript),
        ],
        tools: Seq::empty(),
        max_tokens: Some(1024),
        temperature: Some(0),
        thinking_tokens: None,
        system: Some(distill_prompt()),
    }
}

/// The question to ask about a conversation; none where nothing was said.
pub fn distill_request(model: &str, messages: &Vec<ConversationMessage>) -> (request: Option<
    CompletionRequest,
>)
    ensures
        match request {
            Some(r) => text::trimmed(transcript(types::messages_view(messages@))).len() > 0 && r@
                == question(model@, transcript(types::messages_view(messages@))),
            None => text::trimmed(transcript(types::messages_view(messages@))).len() == 0,
        },
{
    let said = format_transcript(messages);
    if text::trim(said.as_str()).as_str().is_empty() {
        return None;
    }
    let mut list: Vec<ProviderMessage> = Vec::new();
    let words = "Conversation history:\n".to_string().concat(said.as_str());
    list.push(ProviderMessage::user_text(words));
    let request = CompletionRequest {
        model: model.to_string(),
        messages: list,
        tools: Vec::new(),
        max_tokens: Some(1024),
        temperature: Some(0),
        thinking_tokens: None,
        system: Some(
            "Analyze the conversation history. Extract ONLY permanent, durable knowledge, rules, and user preferences that should persist across future sessions. Ignore ephemeral bugs, narrative, or code snippets. Output ONLY a JSON array of strings — concise facts, no prose, no markdown fences.".to_string(),
        ),
    };
    assert(request@.messages =~= question(model@, said@).messages);
    assert(request@.tools =~= Seq::<ToolSpecView>::empty());
    Some(request)
}

// ---------------------------------------------------------------------------
// The answer
// ---------------------------------------------------------------------------

/// The texts that a list of documents holds, where each is one.
pub open spec fn all_texts(items: Seq<JsonView>) -> Option<Seq<Seq<char>>>
    decreases items.len(),
{
    if items.len() == 0 {
        Some(Seq::empty())
    } else {
        match (all_texts(items.drop_last()), items.last()) {
            (Some(before), JsonView::Text(t)) => Some(before.push(t)),
            _ => None,
        }
    }
}

/// The list of texts that a text holds.
pub open spec fn text_list(t: Seq<char>) -> Option<Seq<Seq<char>>> {
    match json::parsed(t) {
        Some(JsonView::Array(items)) => all_texts(items),
        _ => None,
    }
}

/// What stands in a fence, without white space around it.
pub open spec fn unfenced(t: Seq<char>) -> Option<Seq<char>> {
    let body = if text::begins(t, "```json"@) {
        Some(t.skip("```json"@.len() as int))
    } else if text::begins(t, "```"@) {
        Some(t.skip("```"@.len() as int))
    } else {
        None
    };
    match body {
        Some(b) => if text::ends(b, "```"@) {
            Some(text::trimmed(b.take(b.len() - "```"@.len())))
        } else {
            None
        },
        None => None,
    }
}

/// Whether the first opening bracket stands here.
pub open spec fn first_bracket(t: Seq<char>, i: int) -> bool {
    &&& 0 <= i < t.len()
    &&& t[i] == '['
    &&& forall|k: int| 0 <= k < i ==> t[k] != '['
}

/// What stands from the first opening bracket to the last closing one.
pub open spec fn between_brackets(t: Seq<char>) -> Option<Seq<char>> {
    if t.contains('[') && t.contains(']') {
        let from = choose|i: int| first_bracket(t, i);
        let to = choose|i: int| text::last_at(t, ']', i);
        if from < to {
            Some(t.subrange(from, to + 1))
        } else {
            None
        }
    } else {
        None
    }
}

/// The list in an optional text.
pub open spec fn list_in(t: Option<Seq<char>>) -> Option<Seq<Seq<char>>> {
    match t {
        Some(inner) => text_list(inner),
        None => None,
    }
}

/// The facts in an answer: the answer is a list, or a list stands in a fence or between
/// brackets in it. An answer without a list has none.
pub open spec fn facts_in(raw: Seq<char>) -> Seq<Seq<char>> {
    let t = text::trimmed(raw);
    match text_list(t) {
        Some(facts) => facts,
        None => match list_in(unfenced(t)) {
            Some(facts) => facts,
            None => match list_in(between_brackets(t)) {
                Some(facts) => facts,
                None => Seq::empty(),
            },
        },
    }
}

proof fn lemma_texts_fail(items: Seq<JsonView>, at: int)
    requires
        0 <= at < items.len(),
        !(items[at] is Text),
    ensures
        all_texts(items) is None,
    decreases items.len(),
{
    if at < items.len() - 1 {
        assert(items.drop_last()[at] == items[at]);
        lemma_texts_fail(items.drop_last(), at);
    }
}

/// What an optional list of texts is.
pub open spec fn opt_texts(texts: Option<Vec<String>>) -> Option<Seq<Seq<char>>> {
    match texts {
        Some(list) => Some(text::views(list@)),
        None => None,
    }
}

fn read_texts(items: &Vec<Json>) -> (texts: Option<Vec<String>>)
    ensures
        opt_texts(texts) == all_texts(json::items_view(items@)),
{
    let ghost all = json::items_view(items@);
    proof {
        json::lemma_items_view(items@);
    }
    let mut list: Vec<String> = Vec::new();
    let mut i: usize = 0;
    assert(all.take(0) =~= Seq::<JsonView>::empty());
    assert(text::views(list@) =~= Seq::<Seq<char>>::empty());
    while i < items.len()
        invariant
            i <= items.len(),
            all == json::items_view(items@),
            all.len() == items.len(),
            forall|k: int| 0 <= k < items.len() ==> all[k] == (#[trigger] items@[k])@,
            all_texts(all.take(i as int)) == Some(text::views(list@)),
        decreases items.len() - i,
    {
        assert(all.take(i + 1).drop_last() =~= all.take(i as int));
        assert(all[i as int] == items@[i as int]@);
        match &items[i] {
            Json::Text(t) => {
                let copy = t.clone();
                proof {
                    text::lemma_views_push(list@, copy);
                }
                list.push(copy);
            },
            _ => {
                proof {
                    lemma_texts_fail(all, i as int);
                }
                return None;
            },
        }
        i += 1;
    }
    assert(all.take(i as int) =~= all);
    Some(list)
}

fn read_list(t: &str) -> (texts: Option<Vec<String>>)
    ensures
        opt_texts(texts) == text_list(t@),
{
    match json::parse(t) {
        Some(Json::Array(items)) => read_texts(&items),
        _ => None,
    }
}

/// What stands in a fence, without white space around it.
pub fn strip_code_fence(s: &str) -> (inner: Option<String>)
    ensures
        text::opt_view(inner) == unfenced(s@),
{
    let body = match text::strip_prefix(s, "```json") {
        Some(b) => b,
        None => match text::strip_prefix(s, "```") {
            Some(b) => b,
            None => {
                return None;
            },
        },
    };
    match text::strip_suffix(body.as_str(), "```") {
        Some(inner) => Some(text::trim(inner.as_str())),
        None => None,
    }
}

fn cut_brackets(s: &str) -> (inner: Option<String>)
    ensures
        text::opt_view(inner) == between_brackets(s@),
{
    let chars = text::chars_of(s);
    let mut from: usize = 0;
    while from < chars.len() && chars[from] != '['
        invariant
            chars@ == s@,
            from <= chars.len(),
            forall|k: int| 0 <= k < from ==> chars@[k] != '[',
        decreases chars.len() - from,
    {
        from += 1;
    }
    if from == chars.len() {
        assert(!s@.contains('['));
        return None;
    }
    assert(first_bracket(s@, from as int));
    assert(s@.contains('['));
    assert(forall|i: int| first_bracket(s@, i) ==> i == from);
    let mut end: usize = chars.len();
    while end > 0 && chars[end - 1] != ']'
        invariant
            chars@ == s@,
            end <= chars.len(),
            forall|k: int| end <= k < chars.len() ==> chars@[k] != ']',
        decreases end,
    {
        end -= 1;
    }
    if end == 0 {
        assert(!s@.contains(']'));
        return None;
    }
    assert(text::last_at(s@, ']', end - 1));
    assert(s@.contains(']'));
    assert(forall|i: int| text::last_at(s@, ']', i) ==> i == end - 1);
    if from < end - 1 {
        Some(text::text_between(&chars, from, end))
    } else {
        None
    }
}

/// The facts in an answer.
pub fn parse_facts(raw: &str) -> (facts: Vec<String>)
    ensures
        text::views(facts@) == facts_in(raw@),
{
    let t = text::trim(raw);
    if let Some(facts) = read_list(t.as_str()) {
        return facts;
    }
    if let Some(inner) = strip_code_fence(t.as_str()) {
        if let Some(facts) = read_list(inner.as_str()) {
            return facts;
        }
    }
    if let Some(inner) = cut_brackets(t.as_str()) {
        if let Some(facts) = read_list(inner.as_str()) {
            return facts;
        }
    }
    let none: Vec<String> = Vec::new();
    assert(text::views(none@) =~= Seq::<Seq<char>>::empty());
    none
}

// ---------------------------------------------------------------------------
// The facts
// ---------------------------------------------------------------------------

/// A fact that is remembered.
pub struct MemoryFact {
    pub id: String,
    pub agent_id: String,
    pub session_id: String,
    pub text: String,
    pub created_at_ms: u64,
    /// How much it matters, to a hundred.
    pub importance: u8,
    pub tags: Vec<String>,
}

/// What a fact is.
#[verifier::ext_equal]
pub struct FactView {
    pub id: Seq<char>,
    pub agent_id: Seq<char>,
    pub session_id: Seq<char>,
    pub text: Seq<char>,
    pub created_at_ms: u64,
    pub importance: u8,
    pub tags: Seq<Seq<char>>,
}

impl View for MemoryFact {
    type V = FactView;

    open spec fn view(&self) -> FactView {
        FactView {
            id: self.id@,
            agent_id: self.agent_id@,
            session_id: self.session_id@,
            text: self.text@,
            created_at_ms: self.created_at_ms,
            importance: self.importance,
            tags: text::views(self.tags@),
        }
    }
}

/// `<str as std::hash::Hash>::hash`: a text goes into a hasher. Nothing is claimed of what is
/// written.
#[verifier::external_body]
fn hash_text(text: &str, hasher: &mut DefaultHasher) {
    text.hash(hasher);
}

/// The hash of a text, a number of which nothing is known.
fn text_hash(text: &str) -> (hash: u64) {
    let mut hasher = DefaultHasher::new();
    hash_text(text, &mut hasher);
    hasher.finish()
}

/// The id of a fact: when it was found, its place in the answer, and a hash of it.
pub open spec fn fact_name(now_ms: u64, index: nat, hash: u64) -> Seq<char> {
    "distilled_"@ + text::decimal((now_ms / 1000) as nat) + "_"@ + text::decimal(index) + "_"@
        + text::decimal(hash as nat)
}

/// A fact found in a session.
pub open spec fn fact_view(
    agent_id: Seq<char>,
    session_id: Seq<char>,
    fact: Seq<char>,
    index: nat,
    now_ms: u64,
    hash: u64,
) -> FactView {
    FactView {
        id: fact_name(now_ms, index, hash),
        agent_id,
        session_id,
        text: fact,
        created_at_ms: now_ms,
        importance: 90,
        tags: seq!["distilled"@, "long_term"@],
    }
}

/// Whether a fact was made of one that is kept: its id has some hash in it.
pub open spec fn made_of(
    made: FactView,
    agent_id: Seq<char>,
    session_id: Seq<char>,
    kept: (nat, Seq<char>),
    now_ms: u64,
) -> bool {
    exists|hash: u64| is_made(made, agent_id, session_id, kept, now_ms, hash)
}

/// Whether a fact was made of one that is kept, with a hash.
pub open spec fn is_made(
    made: FactView,
    agent_id: Seq<char>,
    session_id: Seq<char>,
    kept: (nat, Seq<char>),
    now_ms: u64,
    hash: u64,
) -> bool {
    made == fact_view(agent_id, session_id, kept.1, kept.0, now_ms, hash)
}

/// Whether a fact is among those that are kept.
pub open spec fn has_fact(kept: Seq<(nat, Seq<char>)>, fact: Seq<char>) -> bool {
    exists|i: int| 0 <= i < kept.len() && (#[trigger] kept[i]).1 == fact
}

/// The facts that are kept, with their places: each one once, and no empty one.
pub open spec fn kept_facts(facts: Seq<Seq<char>>) -> Seq<(nat, Seq<char>)>
    decreases facts.len(),
{
    if facts.len() == 0 {
        Seq::empty()
    } else {
        let before = kept_facts(facts.drop_last());
        let fact = text::trimmed(facts.last());
        if fact.len() == 0 || has_fact(before, fact) {
            before
        } else {
            before.push(((facts.len() - 1) as nat, fact))
        }
    }
}

/// Makes a fact.
pub fn make_fact(
    agent_id: &str,
    session_id: &str,
    fact: &str,
    index: usize,
    now_ms: u64,
    hash: u64,
) -> (made: MemoryFact)
    ensures
        made@ == fact_view(agent_id@, session_id@, fact@, index as nat, now_ms, hash),
{
    let mut id = "distilled_".to_string();
    id.append(text::decimal_text(now_ms / 1000).as_str());
    id.append("_");
    id.append(text::decimal_text(index as u64).as_str());
    id.append("_");
    id.append(text::decimal_text(hash).as_str());
    let mut tags: Vec<String> = Vec::new();
    tags.push("distilled".to_string());
    tags.push("long_term".to_string());
    assert(text::views(tags@) =~= seq!["distilled"@, "long_term"@]);
    MemoryFact {
        id,
        agent_id: agent_id.to_string(),
        session_id: session_id.to_string(),
        text: fact.to_string(),
        created_at_ms: now_ms,
        importance: 90,
        tags,
    }
}

/// The facts to remember of a session, for what the model answered.
pub fn distill(agent_id: &str, session_id: &str, raw: &str, now_ms: u64) -> (made: Vec<MemoryFact>)
    ensures
        made@.len() == kept_facts(facts_in(raw@)).len(),
        forall|k: int|
            0 <= k < made@.len() ==> made_of(
                (#[trigger] made@[k])@,
                agent_id@,
                session_id@,
                kept_facts(facts_in(raw@))[k],
                now_ms,
            ),
{
    let facts = parse_facts(raw);
    let ghost all = text::views(facts@);
    let mut made: Vec<MemoryFact> = Vec::new();
    let mut i: usize = 0;
    assert(all.take(0) =~= Seq::<Seq<char>>::empty());
    while i < facts.len()
        invariant
            i <= facts.len(),
            all == text::views(facts@),
            made@.len() == kept_facts(all.take(i as int)).len(),
            forall|k: int|
                0 <= k < made@.len() ==> made_of(
                    (#[trigger] made@[k])@,
                    agent_id@,
                    session_id@,
                    kept_facts(all.take(i as int))[k],
                    now_ms,
                ),
        decreases facts.len() - i,
    {
        let ghost before = kept_facts(all.take(i as int));
        assert(all.take(i + 1).drop_last() =~= all.take(i as int));
        assert(all[i as int] == facts@[i as int]@);
        let fact = text::trim(facts[i].as_str());
        let mut k: usize = 0;
        let mut seen = false;
        while k < made.len()
            invariant
                k <= made.len(),
                made@.len() == before.len(),
                seen == (exists|j: int| 0 <= j < k && (#[trigger] before[j]).1 == fact@),
                forall|j: int|
                    0 <= j < made@.len() ==> (#[trigger] made@[j])@.text == before[j].1,
            decreases made.len() - k,
        {
            assert(made@[k as int]@.text == before[k as int].1);
            if text::same_text(made[k].text.as_str(), fact.as_str()) {
                seen = true;
            }
            k += 1;
        }
        assert(seen == has_fact(before, fact@));
        assert(all.take(i + 1).last() == facts@[i as int]@);
        if !fact.as_str().is_empty() && !seen {
            assert(kept_facts(all.take(i + 1)) == before.push((i as nat, fact@)));
            let hash: u64 = text_hash(fact.as_str());
            let one = make_fact(agent_id, session_id, fact.as_str(), i, now_ms, hash);
            let ghost earlier = made@;
            made.push(one);
            assert forall|j: int| 0 <= j < made@.len() implies made_of(
                (#[trigger] made@[j])@,
                agent_id@,
                session_id@,
                kept_facts(all.take(i + 1))[j],
                now_ms,
            ) by {
                if j < earlier.len() {
                    assert(made@[j] == earlier[j]);
                    assert(kept_facts(all.take(i + 1))[j] == before[j]);
                    assert(made_of(earlier[j]@, agent_id@, session_id@, before[j], now_ms));
                } else {
                    assert(made@[j] == one);
                    assert(kept_facts(all.take(i + 1))[j] == (i as nat, fact@));
                    assert(is_made(
                        one@,
                        agent_id@,
                        session_id@,
                        kept_facts(all.take(i + 1))[j],
                        now_ms,
                        hash,
                    ));
                }
            }
        }
        i += 1;
    }
    assert(all.take(i as int) =~= all);
    made
}

/// Where a fact is kept.
pub fn fact_key(fact: &MemoryFact) -> (key: String)
    ensures
        key@ == "memory/"@ + fact.agent_id@ + "/facts/"@ + fact.id@,
{
    let mut key = "memory/".to_string();
    key.append(fact.agent_id.as_str());
    key.append("/facts/");
    key.append(fact.id.as_str());
    key
}

/// The document of texts.
pub open spec fn texts_json(texts: Seq<Seq<char>>) -> JsonView {
    JsonView::Array(Seq::new(texts.len(), |i: int| JsonView::Text(texts[i])))
}

/// The document of a fact.
pub open spec fn fact_json(f: FactView) -> JsonView {
    JsonView::Object(
        Map::empty().insert("id"@, JsonView::Text(f.id)).insert(
            "agent_id"@,
            JsonView::Text(f.agent_id),
        ).insert("session_id"@, JsonView::Text(f.session_id)).insert(
            "text"@,
            JsonView::Text(f.text),
        ).insert(
            "created_at_ms"@,
            JsonView::Number(JsonNumberView::Natural(f.created_at_ms)),
        ).insert(
            "importance"@,
            JsonView::Number(JsonNumberView::Natural(f.importance as u64)),
        ).insert("tags"@, texts_json(f.tags)),
    )
}

impl MemoryFact {
    /// The document of the fact.
    pub fn to_json(&self) -> (v: Json)
        ensures
            v@ == fact_json(self@),
    {
        let mut tags: Vec<Json> = Vec::new();
        let mut i: usize = 0;
        let ghost all = texts_json(text::views(self.tags@))->Array_0;
        assert(all.take(0) =~= Seq::<JsonView>::empty());
        while i < self.tags.len()
            invariant
                i <= self.tags.len(),
                all == texts_json(text::views(self.tags@))->Array_0,
                all.len() == self.tags.len(),
                json::items_view(tags@) == all.take(i as int),
            decreases self.tags.len() - i,
        {
            let ghost before = tags@;
            tags.push(Json::of_text(self.tags[i].as_str()));
            assert(tags@.drop_last() =~= before);
            assert(all.take(i + 1) =~= all.take(i as int).push(all[i as int]));
            i += 1;
        }
        assert(all.take(i as int) =~= all);
        Json::object().with("id", Json::of_text(self.id.as_str())).with(
            "agent_id",
            Json::of_text(self.agent_id.as_str()),
        ).with("session_id", Json::of_text(self.session_id.as_str())).with(
            "text",
            Json::of_text(self.text.as_str()),
        ).with("created_at_ms", Json::of_natural(self.created_at_ms)).with(
            "importance",
            Json::of_natural(self.importance as u64),
        ).with("tags", Json::Array(tags))
    }
}

// ---------------------------------------------------------------------------
// What is promised of the facts
// ---------------------------------------------------------------------------

proof fn lemma_kept(facts: Seq<Seq<char>>)
    ensures
        forall|i: int|
            0 <= i < kept_facts(facts).len() ==> {
                let (at, fact) = #[trigger] kept_facts(facts)[i];
                at < facts.len() && fact == text::trimmed(facts[at as int]) && fact.len() > 0
            },
        forall|i: int, j: int|
            0 <= i < j < kept_facts(facts).len() ==> (#[trigger] kept_facts(facts)[i]).1 != (
            #[trigger] kept_facts(facts)[j]).1,
    decreases facts.len(),
{
    if facts.len() > 0 {
        let rest = facts.drop_last();
        lemma_kept(rest);
        let before = kept_facts(rest);
        let now = kept_facts(facts);
        assert forall|i: int| 0 <= i < now.len() implies {
            let (at, fact) = #[trigger] now[i];
            at < facts.len() && fact == text::trimmed(facts[at as int]) && fact.len() > 0
        } by {
            if i < before.len() {
                assert(now[i] == before[i]);
                assert(rest[before[i].0 as int] == facts[before[i].0 as int]);
            }
        }
        assert forall|i: int, j: int| 0 <= i < j < now.len() implies (#[trigger] now[i]).1 != (
        #[trigger] now[j]).1 by {
            assert(now[i] == before[i]);
            if j < before.len() {
                assert(now[j] == before[j]);
            } else {
                assert(!has_fact(before, now[j].1));
            }
        }
    }
}

/// Every fact that is kept stands in the answer and is not empty, none is kept twice, and
/// none of the answer is lost but for empty ones and repetitions.
pub proof fn lemma_facts_are_kept_once(facts: Seq<Seq<char>>, at: int)
    requires
        0 <= at < facts.len(),
    ensures
        forall|i: int, j: int|
            0 <= i < j < kept_facts(facts).len() ==> (#[trigger] kept_facts(facts)[i]).1 != (
            #[trigger] kept_facts(facts)[j]).1,
        forall|i: int|
            0 <= i < kept_facts(facts).len() ==> (#[trigger] kept_facts(facts)[i]).1.len() > 0
                && kept_facts(facts)[i].1 == text::trimmed(
                facts[kept_facts(facts)[i].0 as int],
            ),
        text::trimmed(facts[at]).len() > 0 ==> has_fact(
            kept_facts(facts),
            text::trimmed(facts[at]),
        ),
    decreases facts.len(),
{
    lemma_kept(facts);
    let rest = facts.drop_last();
    let before = kept_facts(rest);
    let now = kept_facts(facts);
    let fact = text::trimmed(facts[at]);
    if fact.len() > 0 {
        if at < rest.len() {
            lemma_facts_are_kept_once(rest, at);
            assert(rest[at] == facts[at]);
            let i = choose|i: int| 0 <= i < before.len() && (#[trigger] before[i]).1 == fact;
            assert(now[i] == before[i]);
        } else if !has_fact(before, fact) {
            assert(now[now.len() - 1].1 == fact);
        }
    }
}

/// A list of texts that was written is read back as it is, whatever white space is around it.
pub proof fn lemma_strict_list(raw: Seq<char>, facts: Seq<Seq<char>>)
    requires
        json::parsed(text::trimmed(raw)) == Some(texts_json(facts)),
    ensures
        facts_in(raw) == facts,
{
    lemma_texts_list(facts);
}

proof fn lemma_texts_list(facts: Seq<Seq<char>>)
    ensures
        all_texts(texts_json(facts)->Array_0) == Some(facts),
    decreases facts.len(),
{
    let items = texts_json(facts)->Array_0;
    if facts.len() > 0 {
        lemma_texts_list(facts.drop_last());
        assert(items.drop_last() =~= texts_json(facts.drop_last())->Array_0);
        assert(facts.drop_last().push(facts.last()) =~= facts);
    } else {
        assert(facts =~= Seq::empty());
    }
}

// ---------------------------------------------------------------------------
// What the model is shown
// ---------------------------------------------------------------------------

proof fn lemma_texts_concat(a: Seq<ContentBlockView>, b: Seq<ContentBlockView>)
    ensures
        texts_of(a + b) == texts_of(a) + texts_of(b),
    decreases b.len(),
{
    if b.len() == 0 {
        assert(a + b =~= a);
        assert(texts_of(a) + texts_of(b) =~= texts_of(a));
    } else {
        lemma_texts_concat(a, b.drop_last());
        assert((a + b).drop_last() =~= a + b.drop_last());
        assert(texts_of(a + b) =~= texts_of(a) + texts_of(b));
    }
}

/// The texts that the user typed are shown in order, and nothing of what is not text.
pub proof fn lemma_texts_are_shown(
    a: Seq<ContentBlockView>,
    block: ContentBlockView,
    b: Seq<ContentBlockView>,
)
    ensures
        texts_of(Seq::empty()) == Seq::<Seq<char>>::empty(),
        texts_of(a.push(block) + b) == (match block {
            ContentBlockView::Text { text } => texts_of(a).push(text) + texts_of(b),
            _ => texts_of(a) + texts_of(b),
        }),
{
    lemma_texts_concat(a.push(block), b);
    assert(a.push(block).drop_last() =~= a);
}

proof fn lemma_joined_one(t: Seq<char>, separator: Seq<char>)
    ensures
        text::joined(seq![t], separator) == t,
{
    reveal_with_fuel(text::joined, 2);
}

proof fn lemma_texts_one(block: ContentBlockView)
    ensures
        texts_of(seq![block]) == (match block {
            ContentBlockView::Text { text } => seq![text],
            _ => Seq::empty(),
        }),
{
    assert(seq![block].drop_last() =~= Seq::<ContentBlockView>::empty());
    assert(texts_of(Seq::<ContentBlockView>::empty()) =~= Seq::<Seq<char>>::empty());
    assert(texts_of(seq![block]) =~= (match block {
        ContentBlockView::Text { text } => seq![text],
        _ => Seq::empty(),
    }));
}

proof fn lemma_lines_one(message: MessageView)
    ensures
        lines_of(seq![message]) == (match line_of(message) {
            Some(line) => seq![line],
            None => Seq::empty(),
        }),
{
    assert(seq![message].drop_last() =~= Seq::<MessageView>::empty());
    assert(lines_of(Seq::<MessageView>::empty()) =~= Seq::<Seq<char>>::empty());
    assert(lines_of(seq![message]) =~= (match line_of(message) {
        Some(line) => seq![line],
        None => Seq::empty(),
    }));
}

/// What the user said is shown as said by the user, and what the model answered as said by
/// the assistant. Prompts and results of tools are not shown.
pub proof fn lemma_who_said_what(
    said: Seq<char>,
    timestamp_ms: u64,
    turn: AssistantTurnView,
    results: Seq<ToolResultView>,
)
    ensures
        said.len() > 0 ==> transcript(
            seq![
                MessageView::User {
                    content: seq![ContentBlockView::Text { text: said }],
                    timestamp_ms,
                },
            ],
        ) == "user: "@ + said,
        turn.text matches Some(t) ==> transcript(seq![MessageView::Assistant(turn)])
            == "assistant: "@ + t,
        turn.text is None ==> transcript(seq![MessageView::Assistant(turn)]).len() == 0,
        transcript(seq![MessageView::System { content: said }]).len() == 0,
        transcript(seq![MessageView::ToolResults { results }]).len() == 0,
        transcript(
            seq![MessageView::User { content: Seq::empty(), timestamp_ms }],
        ).len() == 0,
{
    let block = ContentBlockView::Text { text: said };
    let user = MessageView::User { content: seq![block], timestamp_ms };
    let silent = MessageView::User { content: Seq::empty(), timestamp_ms };
    lemma_texts_one(block);
    lemma_joined_one(said, " "@);
    lemma_lines_one(user);
    lemma_lines_one(silent);
    lemma_lines_one(MessageView::Assistant(turn));
    lemma_lines_one(MessageView::System { content: said });
    lemma_lines_one(MessageView::ToolResults { results });
    lemma_joined_one("user: "@ + said, "\n"@);
    assert(texts_of(Seq::<ContentBlockView>::empty()) =~= Seq::<Seq<char>>::empty());
    assert(text::joined(Seq::<Seq<char>>::empty(), " "@).len() == 0);
    assert(text::joined(Seq::<Seq<char>>::empty(), "\n"@).len() == 0);
    if let Some(t) = turn.text {
        lemma_joined_one("assistant: "@ + t, "\n"@);
    }
}

proof fn lemma_lines_concat(a: Seq<MessageView>, b: Seq<MessageView>)
    ensures
        lines_of(a + b) == lines_of(a) + lines_of(b),
    decreases b.len(),
{
    if b.len() == 0 {
        assert(a + b =~= a);
        assert(lines_of(a) + lines_of(b) =~= lines_of(a));
    } else {
        lemma_lines_concat(a, b.drop_last());
        assert((a + b).drop_last() =~= a + b.drop_last());
        assert(lines_of(a + b) =~= lines_of(a) + lines_of(b));
    }
}

proof fn lemma_joined_concat(a: Seq<Seq<char>>, b: Seq<Seq<char>>, separator: Seq<char>)
    requires
        a.len() > 0,
        b.len() > 0,
    ensures
        text::joined(a + b, separator) == text::joined(a, separator) + separator + text::joined(
            b,
            separator,
        ),
    decreases b.len(),
{
    let rest = b.drop_last();
    assert((a + b).drop_last() =~= a + rest);
    assert((a + b).last() == b.last());
    if rest.len() == 0 {
        assert(a + rest =~= a);
        assert(b =~= seq![b.last()]);
        lemma_joined_one(b.last(), separator);
    } else {
        lemma_joined_concat(a, rest, separator);
    }
    assert(text::joined(a + b, separator) =~= text::joined(a, separator) + separator
        + text::joined(b, separator));
}

proof fn lemma_lines_say_something(messages: Seq<MessageView>)
    ensures
        lines_of(messages).len() == 0 <==> transcript(messages).len() == 0,
    decreases messages.len(),
{
    reveal_strlit("user: ");
    reveal_strlit("assistant: ");
    if lines_of(messages).len() > 0 {
        lemma_line_is_long(messages, lines_of(messages).len() - 1);
        let lines = lines_of(messages);
        if lines.len() == 1 {
            assert(lines =~= seq![lines[0]]);
            lemma_joined_one(lines[0], "\n"@);
        } else {
            assert(lines =~= lines.drop_last() + seq![lines.last()]);
            lemma_joined_concat(lines.drop_last(), seq![lines.last()], "\n"@);
            lemma_joined_one(lines.last(), "\n"@);
        }
    }
}

proof fn lemma_line_is_long(messages: Seq<MessageView>, i: int)
    requires
        0 <= i < lines_of(messages).len(),
    ensures
        lines_of(messages)[i].len() > 0,
    decreases messages.len(),
{
    reveal_strlit("user: ");
    reveal_strlit("assistant: ");
    let rest = messages.drop_last();
    if i < lines_of(rest).len() {
        lemma_line_is_long(rest, i);
    }
}

/// The transcript of a conversation is the transcripts of its parts on lines of their own, in
/// order. A part in which nothing was said has no line.
pub proof fn lemma_transcript_in_order(a: Seq<MessageView>, b: Seq<MessageView>)
    ensures
        transcript(Seq::empty()).len() == 0,
        transcript(a).len() == 0 ==> transcript(a + b) == transcript(b),
        transcript(b).len() == 0 ==> transcript(a + b) == transcript(a),
        transcript(a).len() > 0 && transcript(b).len() > 0 ==> transcript(a + b) == transcript(a)
            + "\n"@ + transcript(b),
{
    lemma_lines_concat(a, b);
    lemma_lines_say_something(a);
    lemma_lines_say_something(b);
    assert(text::joined(Seq::<Seq<char>>::empty(), "\n"@).len() == 0);
    if lines_of(a).len() == 0 {
        assert(lines_of(a) + lines_of(b) =~= lines_of(b));
    } else if lines_of(b).len() == 0 {
        assert(lines_of(a) + lines_of(b) =~= lines_of(a));
    } else {
        lemma_joined_concat(lines_of(a), lines_of(b), "\n"@);
    }
}

/// The model is asked with the whole transcript in one message of the user, without tools and
/// without chance, for nothing but a list of lasting facts.
pub proof fn lemma_question(model: Seq<char>, shown: Seq<char>)
    ensures
        ({
            let r = question(model, shown);
            &&& r.model == model
            &&& r.messages.len() == 1
            &&& r.messages[0].role == Role::User
            &&& r.messages[0].content == seq![
                ProviderBlockView::Text { text: "Conversation history:\n"@ + shown },
            ]
            &&& r.tools.len() == 0
            &&& r.temperature == Some(0u32)
            &&& r.max_tokens == Some(1024u32)
            &&& r.thinking_tokens is None
            &&& r.system == Some(
                "Analyze the conversation history. Extract ONLY permanent, durable knowledge, rules, and user preferences that should persist across future sessions. Ignore ephemeral bugs, narrative, or code snippets. Output ONLY a JSON array of strings — concise facts, no prose, no markdown fences."@,
            )
        }),
{
}

// ---------------------------------------------------------------------------
// How an answer is read
// ---------------------------------------------------------------------------

/// Whether a text is a list of texts.
pub open spec fn is_list(t: Seq<char>) -> bool {
    json::parsed(t) matches Some(JsonView::Array(items)) && forall|i: int|
        0 <= i < items.len() ==> (#[trigger] items[i]) is Text
}

proof fn lemma_list_or_not(t: Seq<char>)
    ensures
        text_list(t) is Some <==> is_list(t),
        text_list(t) matches Some(facts) ==> json::parsed(t) == Some(texts_json(facts)),
{
    if let Some(JsonView::Array(items)) = json::parsed(t) {
        lemma_all_texts(items);
        if let Some(facts) = all_texts(items) {
            assert(items =~= texts_json(facts)->Array_0);
        }
    }
}

proof fn lemma_all_texts(items: Seq<JsonView>)
    ensures
        all_texts(items) is Some <==> forall|i: int|
            0 <= i < items.len() ==> (#[trigger] items[i]) is Text,
        all_texts(items) matches Some(facts) ==> facts.len() == items.len() && forall|i: int|
            0 <= i < items.len() ==> (#[trigger] items[i]) == JsonView::Text(facts[i]),
    decreases items.len(),
{
    if items.len() > 0 {
        let rest = items.drop_last();
        lemma_all_texts(rest);
        if all_texts(items) is Some {
            let facts = all_texts(items)->0;
            assert forall|i: int| 0 <= i < items.len() implies (#[trigger] items[i])
                == JsonView::Text(facts[i]) by {
                if i < rest.len() {
                    assert(rest[i] == items[i]);
                }
            }
        }
        if forall|i: int| 0 <= i < items.len() ==> (#[trigger] items[i]) is Text {
            assert forall|i: int| 0 <= i < rest.len() implies (#[trigger] rest[i]) is Text by {
                assert(rest[i] == items[i]);
            }
            assert(items[items.len() - 1] is Text);
        }
    }
}

/// A list in a fence is read, whether or not the fence names JSON and whatever white space is
/// around the list, where the answer as a whole is no list.
pub proof fn lemma_fenced_list(raw: Seq<char>, inner: Seq<char>, facts: Seq<Seq<char>>)
    requires
        text::trimmed(raw) == "```json"@ + inner + "```"@ || (text::trimmed(raw) == "```"@ + inner
            + "```"@ && !text::begins(text::trimmed(raw), "```json"@)),
        !is_list(text::trimmed(raw)),
        json::parsed(text::trimmed(inner)) == Some(texts_json(facts)),
    ensures
        facts_in(raw) == facts,
{
    reveal_strlit("```json");
    reveal_strlit("```");
    let t = text::trimmed(raw);
    lemma_list_or_not(t);
    lemma_texts_list(facts);
    if t == "```json"@ + inner + "```"@ {
        let b = t.skip("```json"@.len() as int);
        assert(t.subrange(0, "```json"@.len() as int) =~= "```json"@);
        assert(text::begins(t, "```json"@));
        assert(b =~= inner + "```"@);
        assert(b.subrange(b.len() - 3, b.len() as int) =~= "```"@);
        assert(text::ends(b, "```"@));
        assert(b.take(b.len() - 3) =~= inner);
    } else {
        let b = t.skip("```"@.len() as int);
        assert(t.subrange(0, "```"@.len() as int) =~= "```"@);
        assert(text::begins(t, "```"@));
        assert(b =~= inner + "```"@);
        assert(b.subrange(b.len() - 3, b.len() as int) =~= "```"@);
        assert(text::ends(b, "```"@));
        assert(b.take(b.len() - 3) =~= inner);
    }
}

/// A list between other words is read, from the first opening to the last closing bracket,
/// where neither the answer as a whole nor a fence holds a list.
pub proof fn lemma_list_between_words(
    raw: Seq<char>,
    before: Seq<char>,
    list: Seq<char>,
    after: Seq<char>,
    facts: Seq<Seq<char>>,
)
    requires
        text::trimmed(raw) == before + list + after,
        !before.contains('['),
        !after.contains(']'),
        list.len() >= 2,
        list[0] == '[',
        list[list.len() - 1] == ']',
        !is_list(text::trimmed(raw)),
        strip_gives_no_list(text::trimmed(raw)),
        json::parsed(list) == Some(texts_json(facts)),
    ensures
        facts_in(raw) == facts,
{
    let t = text::trimmed(raw);
    lemma_list_or_not(t);
    lemma_texts_list(facts);
    let from = before.len() as int;
    let to = before.len() + list.len() - 1;
    assert(t[from] == '[');
    assert(t[to] == ']');
    assert forall|k: int| 0 <= k < from implies t[k] != '[' by {
        assert(before.contains(before[k]));
    }
    assert forall|k: int| to < k < t.len() implies t[k] != ']' by {
        assert(after.contains(after[k - to - 1]));
    }
    assert(first_bracket(t, from));
    assert(text::last_at(t, ']', to));
    let f = choose|i: int| first_bracket(t, i);
    let l = choose|i: int| text::last_at(t, ']', i);
    assert(f == from) by {
        if f < from {
            assert(t[f] != '[');
        }
    }
    assert(l == to);
    assert(t.subrange(from, to + 1) =~= list);
    if let Some(inner) = unfenced(t) {
        lemma_list_or_not(inner);
    }
}

/// Whether no list stands in a fence.
pub open spec fn strip_gives_no_list(t: Seq<char>) -> bool {
    unfenced(t) matches Some(inner) ==> !is_list(inner)
}

/// The facts that are kept are numbered by their places in the answer, in ascending order,
/// and each by the first place where it stands.
pub proof fn lemma_first_places(facts: Seq<Seq<char>>)
    ensures
        forall|i: int|
            #![trigger kept_facts(facts)[i]]
            0 <= i < kept_facts(facts).len() ==> {
                let (at, fact) = kept_facts(facts)[i];
                &&& at < facts.len()
                &&& fact == text::trimmed(facts[at as int])
                &&& forall|k: int| 0 <= k < at ==> text::trimmed(#[trigger] facts[k]) != fact
            },
        forall|i: int, j: int|
            0 <= i < j < kept_facts(facts).len() ==> (#[trigger] kept_facts(facts)[i]).0 < (
            #[trigger] kept_facts(facts)[j]).0,
    decreases facts.len(),
{
    lemma_kept(facts);
    if facts.len() > 0 {
        let rest = facts.drop_last();
        lemma_first_places(rest);
        lemma_kept(rest);
        let before = kept_facts(rest);
        let now = kept_facts(facts);
        assert forall|i: int| #![trigger now[i]] 0 <= i < now.len() implies {
            let (at, fact) = now[i];
            &&& at < facts.len()
            &&& fact == text::trimmed(facts[at as int])
            &&& forall|k: int| 0 <= k < at ==> text::trimmed(#[trigger] facts[k]) != fact
        } by {
            let (at, fact) = now[i];
            assert forall|k: int| 0 <= k < at implies text::trimmed(#[trigger] facts[k]) != fact by {
                assert(rest[k] == facts[k]);
                if i < before.len() {
                    assert(now[i] == before[i]);
                } else {
                    lemma_facts_are_kept_once(rest, k);
                    if text::trimmed(facts[k]) == fact {
                        assert(has_fact(before, fact));
                    }
                }
            }
        }
        assert forall|i: int, j: int| 0 <= i < j < now.len() implies (#[trigger] now[i]).0 < (
        #[trigger] now[j]).0 by {
            assert(now[i] == before[i]);
            if j < before.len() {
                assert(now[j] == before[j]);
            }
        }
    }
}

/// A fact carries who found it, where, when and what, is of high importance, and is tagged as
/// distilled and lasting. Its id tells the second, its place and its hash.
pub proof fn lemma_fact_is_labelled(
    agent_id: Seq<char>,
    session_id: Seq<char>,
    fact: Seq<char>,
    index: nat,
    now_ms: u64,
    hash: u64,
)
    ensures
        ({
            let f = fact_view(agent_id, session_id, fact, index, now_ms, hash);
            &&& f.agent_id == agent_id
            &&& f.session_id == session_id
            &&& f.text == fact
            &&& f.created_at_ms == now_ms
            &&& f.importance == 90
            &&& f.tags == seq!["distilled"@, "long_term"@]
            &&& f.id == "distilled_"@ + text::decimal((now_ms / 1000) as nat) + "_"@
                + text::decimal(index) + "_"@ + text::decimal(hash as nat)
        }),
{
}

/// The document of a fact has all that the fact carries, each under its name, and no other
/// member.
pub proof fn lemma_fact_is_written(f: FactView)
    ensures
        fact_json(f) matches JsonView::Object(m) && {
            &&& m.dom() == set![
                "id"@,
                "agent_id"@,
                "session_id"@,
                "text"@,
                "created_at_ms"@,
                "importance"@,
                "tags"@,
            ]
            &&& m["id"@] == JsonView::Text(f.id)
            &&& m["agent_id"@] == JsonView::Text(f.agent_id)
            &&& m["session_id"@] == JsonView::Text(f.session_id)
            &&& m["text"@] == JsonView::Text(f.text)
            &&& m["created_at_ms"@] == JsonView::Number(JsonNumberView::Natural(f.created_at_ms))
            &&& m["importance"@] == JsonView::Number(
                JsonNumberView::Natural(f.importance as u64),
            )
            &&& m["tags"@] matches JsonView::Array(items) && items.len() == f.tags.len()
                && forall|i: int|
                0 <= i < items.len() ==> (#[trigger] items[i]) == JsonView::Text(f.tags[i])
        },
{
    reveal_strlit("id");
    reveal_strlit("agent_id");
    reveal_strlit("session_id");
    reveal_strlit("text");
    reveal_strlit("created_at_ms");
    reveal_strlit("importance");
    reveal_strlit("tags");
    assert("id"@.len() == 2 && "agent_id"@.len() == 8 && "session_id"@.len() == 10 && "text"@.len()
        == 4 && "created_at_ms"@.len() == 13 && "importance"@.len() == 10 && "tags"@.len() == 4);
    assert("session_id"@[0] != "importance"@[0]);
    assert("text"@[1] != "tags"@[1]);
    let m = fact_json(f)->Object_0;
    assert(m.dom() =~= set![
        "id"@,
        "agent_id"@,
        "session_id"@,
        "text"@,
        "created_at_ms"@,
        "importance"@,
        "tags"@,
    ]);
}

/// Nothing is asked where nothing was said, and otherwise the question shows the transcript of
/// the conversation to the model that was named.
pub proof fn lemma_asked_of_the_model(
    model: &str,
    messages: Vec<ConversationMessage>,
    shown: String,
    request: Option<CompletionRequest>,
)
    requires
        call_ensures(format_transcript, (&messages,), shown),
        call_ensures(distill_request, (model, &messages), request),
    ensures
        request is None <==> text::trimmed(shown@).len() == 0,
        request matches Some(r) ==> r@.model == model@ && r@.messages.len() == 1
            && r@.messages[0].content == seq![
            ProviderBlockView::Text { text: "Conversation history:\n"@ + shown@ },
        ],
{
}

/// Each fact that is kept becomes an entry of the agent and the session, with the fact as its
/// text and the time as its time, and is stored under the agent and its id.
pub proof fn lemma_distilled(
    agent_id: &str,
    session_id: &str,
    raw: &str,
    now_ms: u64,
    made: Vec<MemoryFact>,
    k: int,
    key: String,
)
    requires
        call_ensures(distill, (agent_id, session_id, raw, now_ms), made),
        0 <= k < made@.len(),
        call_ensures(fact_key, (&made@[k],), key),
    ensures
        made@.len() == kept_facts(facts_in(raw@)).len(),
        made@[k]@.agent_id == agent_id@,
        made@[k]@.session_id == session_id@,
        made@[k]@.text == kept_facts(facts_in(raw@))[k].1,
        made@[k]@.created_at_ms == now_ms,
        key@ == "memory/"@ + agent_id@ + "/facts/"@ + made@[k]@.id,
{
    assert(made_of(
        made@[k]@,
        agent_id@,
        session_id@,
        kept_facts(facts_in(raw@))[k],
        now_ms,
    ));
}

/// An answer in which no list of texts stands gives no facts: prose is never taken for one.
pub proof fn lemma_no_list_no_facts(raw: Seq<char>)
    requires
        forall|a: int, b: int|
            0 <= a <= b <= raw.len() ==> !is_list(#[trigger] raw.subrange(a, b)),
    ensures
        facts_in(raw).len() == 0,
{
    let t = text::trimmed(raw);
    let ends = text_laws::lemma_trimmed(raw);
    assert(!is_list(raw.subrange(ends.0, ends.1)));
    lemma_list_or_not(t);
    if let Some(inner) = unfenced(t) {
        reveal_strlit("```json");
        reveal_strlit("```");
        let k: int = if text::begins(t, "```json"@) {
            7
        } else {
            3
        };
        let b = t.skip(k);
        let n = b.len() - 3;
        let body = b.take(n);
        let part = text_laws::lemma_trimmed(body);
        assert(inner == body.subrange(part.0, part.1));
        let from = ends.0 + k + part.0;
        let to = ends.0 + k + part.1;
        assert(inner =~= raw.subrange(from, to));
        assert(!is_list(raw.subrange(from, to)));
        lemma_list_or_not(inner);
    }
    if let Some(inner) = between_brackets(t) {
        let from = choose|i: int| first_bracket(t, i);
        let to = choose|i: int| text::last_at(t, ']', i);
        lemma_a_bracket(t);
        assert(inner =~= raw.subrange(ends.0 + from, ends.0 + to + 1));
        assert(!is_list(raw.subrange(ends.0 + from, ends.0 + to + 1)));
        lemma_list_or_not(inner);
    }
}

proof fn lemma_a_bracket(t: Seq<char>)
    ensures
        t.contains('[') ==> exists|i: int| first_bracket(t, i),
        t.contains(']') ==> exists|i: int| text::last_at(t, ']', i),
    decreases t.len(),
{
    if t.len() > 0 {
        if t.contains('[') {
            if t[0] == '[' {
                assert(first_bracket(t, 0));
            } else {
                let rest = t.drop_first();
                let k = t.index_of('[');
                assert(rest[k - 1] == '[');
                lemma_a_bracket(rest);
                let i = choose|i: int| first_bracket(rest, i);
                assert forall|j: int| 0 <= j < i + 1 implies t[j] != '[' by {
                    if j > 0 {
                        assert(rest[j - 1] == t[j]);
                    }
                }
                assert(first_bracket(t, i + 1));
            }
        }
        if t.contains(']') {
            if t.last() == ']' {
                assert(text::last_at(t, ']', t.len() - 1));
            } else {
                let rest = t.drop_last();
                let k = t.index_of(']');
                assert(rest[k] == ']');
                lemma_a_bracket(rest);
                let i = choose|i: int| text::last_at(rest, ']', i);
                assert forall|j: int| i < j < t.len() implies t[j] != ']' by {
                    if j < rest.len() {
                        assert(rest[j] == t[j]);
                    }
                }
                assert(text::last_at(t, ']', i));
            }
        }
    }
}

} // verus!
