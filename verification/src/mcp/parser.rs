//! Tolerant streaming parser for tool calls.
//!
//! A state machine over characters finds `<tool_call>{...}</tool_call>` blocks in
//! streamed model output and tolerates malformed markup and JSON. The body of a
//! block is read in three ways, the first that succeeds wins:
//!
//! 1. the whole body as JSON,
//! 2. the largest JSON object with a call that a pattern finds in the body,
//! 3. the name and the arguments that patterns find in the body.

use vstd::prelude::*;
use crate::agent::types::ToolCall;
use crate::agent::types::ToolCallView;
use crate::json;
use crate::json::Json;
use crate::json::JsonView;
use crate::text;

verus! {

/// An object with at most one level of nested braces.
pub const JSON_PATTERN: &'static str = "\\{[^{}]*(?:\\{[^{}]*\\}[^{}]*)*\\}";

/// A `name` or `function` field with a text value.
pub const NAME_PATTERN: &'static str = "\"(?:name|function)\":\\s*\"([^\"]+)\"";

/// An `arguments` field with an object or a text.
pub const ARGS_PATTERN: &'static str =
    "\"arguments\":\\s*(\"\\{[^}]*\\}\"|\\{[^}]*\\}|\"[^\"]*\")";

/// An `input` field with an object or a text.
pub const INPUT_PATTERN: &'static str =
    "\"input\":\\s*(\"\\{[^}]*\\}\"|\\{[^}]*\\}|\"[^\"]*\")";

/// The parts of a text that match a pattern, in order and without overlap, where
/// the pattern is a regular expression.
pub uninterp spec fn pattern_matches(pattern: Seq<char>, text: Seq<char>) -> Option<Seq<Seq<char>>>;

/// What the first group of a pattern holds in its first match in a text.
pub uninterp spec fn pattern_group(pattern: Seq<char>, text: Seq<char>) -> Option<Seq<char>>;

/// `regex::Regex::find_iter`: the matches of the pattern in the text, in order,
/// or none where `regex::Regex::new` refuses the pattern. Pattern and text alone
/// decide the result.
#[verifier::external_body]
fn find_all(pattern: &str, text: &str) -> (found: Option<Vec<String>>)
    ensures
        (match found {
            Some(parts) => Some(text::views(parts@)),
            None => None,
        }) == pattern_matches(pattern@, text@),
{
    let regex = regex::Regex::new(pattern).ok()?;
    Some(regex.find_iter(text).map(|m| m.as_str().to_string()).collect())
}

/// `regex::Regex::captures`: the text of the first group in the first match, or
/// none where `regex::Regex::new` refuses the pattern, nothing matches or the
/// group has no part in the match. Pattern and text alone decide the result.
#[verifier::external_body]
fn first_group(pattern: &str, text: &str) -> (group: Option<String>)
    ensures
        text::opt_view(group) == pattern_group(pattern@, text@),
{
    let regex = regex::Regex::new(pattern).ok()?;
    regex.captures(text)?.get(1).map(|m| m.as_str().to_string())
}

// ---------------------------------------------------------------------------
// Events
// ---------------------------------------------------------------------------

/// What the parser emits.
pub enum ParsedChunk {
    /// Text for the user.
    Text(String),
    /// A tool call out of a block.
    ToolCall(ToolCall),
    /// A block that could not be read.
    Error(String),
}

/// What a chunk is.
#[verifier::ext_equal]
pub enum ChunkView {
    Text(Seq<char>),
    ToolCall(ToolCallView),
    Error(Seq<char>),
}

impl View for ParsedChunk {
    type V = ChunkView;

    open spec fn view(&self) -> ChunkView {
        match self {
            ParsedChunk::Text(t) => ChunkView::Text(t@),
            ParsedChunk::ToolCall(c) => ChunkView::ToolCall(c@),
            ParsedChunk::Error(e) => ChunkView::Error(e@),
        }
    }
}

/// What a list of chunks holds.
pub open spec fn chunks_view(chunks: Seq<ParsedChunk>) -> Seq<ChunkView> {
    Seq::new(chunks.len(), |i: int| chunks[i]@)
}

// ---------------------------------------------------------------------------
// Reading the body of a block
// ---------------------------------------------------------------------------

/// The name of the `n`-th call without a name of its own.
pub open spec fn made_id(n: u64) -> Seq<char> {
    "xml-"@ + text::decimal(n as nat)
}

/// The counter after one more name.
pub open spec fn next_count(ids: u64) -> u64 {
    if ids == u64::MAX {
        0
    } else {
        (ids + 1) as u64
    }
}

/// The arguments in a call: the field `input`, else `arguments`, else
/// `parameters`.
pub open spec fn raw_input(v: JsonView) -> Option<JsonView> {
    if v.field("input"@) is Some {
        v.field("input"@)
    } else if v.field("arguments"@) is Some {
        v.field("arguments"@)
    } else {
        v.field("parameters"@)
    }
}

/// Arguments given as a text that holds JSON are that JSON.
pub open spec fn unwrapped(raw: JsonView) -> JsonView {
    match raw {
        JsonView::Text(t) => match json::parsed(t) {
            Some(v) => v,
            None => raw,
        },
        _ => raw,
    }
}

/// The call that a document describes, and the counter after it.
pub open spec fn call_of_json(v: JsonView, ids: u64) -> (Option<ToolCallView>, u64) {
    match v.text_field("name"@) {
        None => (None, ids),
        Some(name) => {
            let input = match raw_input(v) {
                Some(raw) => unwrapped(raw),
                None => json::empty_object(),
            };
            match v.text_field("id"@) {
                Some(id) => (Some(ToolCallView { id, name, input }), ids),
                None => (
                    Some(ToolCallView { id: made_id(next_count(ids)), name, input }),
                    next_count(ids),
                ),
            }
        },
    }
}

/// Whether a text is a document that describes a call.
pub open spec fn reads_as_call(part: Seq<char>) -> bool {
    json::parsed(part) matches Some(v) && v.text_field("name"@) is Some
}

/// Which of several texts describes a call and is the largest that does; of texts of one
/// size the first.
pub open spec fn largest(parts: Seq<Seq<char>>) -> Option<int>
    decreases parts.len(),
{
    if parts.len() == 0 {
        None
    } else {
        let before = largest(parts.drop_last());
        if reads_as_call(parts.last()) && (match before {
            None => true,
            Some(i) => parts[i].len() < parts.last().len(),
        }) {
            Some(parts.len() - 1)
        } else {
            before
        }
    }
}

/// The call that the largest readable one of several texts describes.
pub open spec fn call_of_parts(parts: Seq<Seq<char>>, ids: u64) -> (Option<ToolCallView>, u64) {
    match largest(parts) {
        None => (None, ids),
        Some(i) => call_of_json(json::parsed(parts[i])->Some_0, ids),
    }
}

/// The largest text that describes a call is the largest: it describes a call, none that
/// describes one is larger, and none before it is as large. There is one where any text
/// describes a call.
pub proof fn lemma_largest(parts: Seq<Seq<char>>)
    ensures
        match largest(parts) {
            None => forall|k: int| 0 <= k < parts.len() ==> !reads_as_call(#[trigger] parts[k]),
            Some(i) => 0 <= i < parts.len() && reads_as_call(parts[i]) && (forall|k: int|
                0 <= k < parts.len() && reads_as_call(#[trigger] parts[k]) ==> parts[k].len()
                    <= parts[i].len() && (k < i ==> parts[k].len() < parts[i].len())),
        },
    decreases parts.len(),
{
    if parts.len() > 0 {
        let rest = parts.drop_last();
        lemma_largest(rest);
        assert forall|k: int| 0 <= k < rest.len() implies #[trigger] parts[k] == rest[k] by {
        }
    }
}

/// The document in arguments that a pattern found: the text as JSON, else what
/// stands between its quotes as JSON, else the empty object.
pub open spec fn found_input(args: Seq<char>) -> JsonView {
    match json::parsed(args) {
        Some(v) => v,
        None => if args.len() >= 2 && args[0] == '"' && args.last() == '"' {
            match json::parsed(args.subrange(1, args.len() - 1)) {
                Some(v) => v,
                None => json::empty_object(),
            }
        } else {
            json::empty_object()
        },
    }
}

/// The arguments that the patterns find in a body.
pub open spec fn found_args(body: Seq<char>) -> Seq<char> {
    match pattern_group(ARGS_PATTERN@, body) {
        Some(a) => a,
        None => match pattern_group(INPUT_PATTERN@, body) {
            Some(a) => a,
            None => "{}"@,
        },
    }
}

/// The call whose name and arguments the patterns find in a body.
pub open spec fn call_of_patterns(body: Seq<char>, ids: u64) -> (Option<ToolCallView>, u64) {
    match pattern_group(NAME_PATTERN@, body) {
        None => (None, ids),
        Some(name) => (
            Some(
                ToolCallView {
                    id: made_id(next_count(ids)),
                    name,
                    input: found_input(found_args(body)),
                },
            ),
            next_count(ids),
        ),
    }
}

/// The call in a trimmed body, read in the three ways.
pub open spec fn call_of_body(body: Seq<char>, ids: u64) -> (Option<ToolCallView>, u64) {
    let whole = match json::parsed(body) {
        Some(v) => call_of_json(v, ids),
        None => (None, ids),
    };
    let parts = match pattern_matches(JSON_PATTERN@, body) {
        Some(p) => p,
        None => Seq::empty(),
    };
    if whole.0 is Some {
        whole
    } else if call_of_parts(parts, ids).0 is Some {
        call_of_parts(parts, ids)
    } else {
        call_of_patterns(body, ids)
    }
}

/// What a closed block emits, and the counter after it.
pub open spec fn closed_block(content: Seq<char>, ids: u64) -> (Seq<ChunkView>, u64) {
    let body = text::trimmed(content);
    if body.len() == 0 {
        (Seq::empty(), ids)
    } else {
        match call_of_body(body, ids) {
            (Some(call), n) => (seq![ChunkView::ToolCall(call)], n),
            (None, n) => (
                seq![ChunkView::Error("failed to parse tool_call: "@ + text::clipped(body, 120))],
                n,
            ),
        }
    }
}

// ---------------------------------------------------------------------------
// The machine
// ---------------------------------------------------------------------------

/// Where the machine stands.
#[derive(Debug, Clone, Copy, PartialEq, Eq, Structural)]
pub enum State {
    /// In text.
    Outside,
    /// Behind a `<` in text.
    InsideOpenTag,
    /// In the body of a block.
    InsideContent,
    /// Behind a `<` in the body of a block.
    InsideNestedTag,
}

/// What a parser is.
#[verifier::ext_equal]
pub struct ParserView {
    pub state: State,
    /// Text that was not emitted yet, or the body of the open block.
    pub buffer: Seq<char>,
    /// What was read of the current tag.
    pub tag: Seq<char>,
    /// How many names were made.
    pub ids: u64,
}

/// A text chunk, unless there is no text.
pub open spec fn text_chunk(text: Seq<char>) -> Seq<ChunkView> {
    if text.len() == 0 {
        Seq::empty()
    } else {
        seq![ChunkView::Text(text)]
    }
}

/// A tag as it is compared.
pub open spec fn tag_name(tag: Seq<char>) -> Seq<char> {
    text::lowercase(text::trimmed(tag))
}

/// A tag between its brackets.
pub open spec fn bracketed(tag: Seq<char>) -> Seq<char> {
    seq!['<'] + tag + seq!['>']
}

/// One step on the character `c`: the next state and what is emitted.
pub open spec fn step_view(p: ParserView, c: char) -> (ParserView, Seq<ChunkView>) {
    match p.state {
        State::Outside => if c == '<' {
            (ParserView { state: State::InsideOpenTag, tag: Seq::empty(), ..p }, Seq::empty())
        } else {
            (ParserView { buffer: p.buffer.push(c), ..p }, Seq::empty())
        },
        State::InsideOpenTag => if c == '>' {
            if text::begins(tag_name(p.tag), "tool_call"@) {
                (
                    ParserView {
                        state: State::InsideContent,
                        buffer: Seq::empty(),
                        tag: Seq::empty(),
                        ..p
                    },
                    text_chunk(p.buffer),
                )
            } else {
                (
                    ParserView {
                        state: State::Outside,
                        buffer: p.buffer + bracketed(p.tag),
                        tag: Seq::empty(),
                        ..p
                    },
                    Seq::empty(),
                )
            }
        } else if c == '<' {
            (
                ParserView { buffer: p.buffer.push('<') + p.tag, tag: Seq::empty(), ..p },
                Seq::empty(),
            )
        } else {
            (ParserView { tag: p.tag.push(c), ..p }, Seq::empty())
        },
        State::InsideContent => if c == '<' {
            (
                ParserView { state: State::InsideNestedTag, tag: Seq::empty(), ..p },
                Seq::empty(),
            )
        } else {
            (ParserView { buffer: p.buffer.push(c), ..p }, Seq::empty())
        },
        State::InsideNestedTag => if c == '>' {
            if text::begins(tag_name(p.tag), "/tool_call"@) {
                let (out, ids) = closed_block(p.buffer, p.ids);
                (
                    ParserView {
                        state: State::Outside,
                        buffer: Seq::empty(),
                        tag: Seq::empty(),
                        ids,
                        ..p
                    },
                    out,
                )
            } else {
                (
                    ParserView {
                        state: State::InsideContent,
                        buffer: p.buffer + bracketed(p.tag),
                        tag: Seq::empty(),
                        ..p
                    },
                    Seq::empty(),
                )
            }
        } else if c == '<' {
            (
                ParserView { buffer: p.buffer.push('<') + p.tag, tag: Seq::empty(), ..p },
                Seq::empty(),
            )
        } else {
            (ParserView { tag: p.tag.push(c), ..p }, Seq::empty())
        },
    }
}

/// The steps on all characters of `data`.
pub open spec fn run_view(p: ParserView, data: Seq<char>) -> (ParserView, Seq<ChunkView>)
    decreases data.len(),
{
    if data.len() == 0 {
        (p, Seq::empty())
    } else {
        let (q, before) = run_view(p, data.drop_last());
        let (r, out) = step_view(q, data.last());
        (r, before + out)
    }
}

/// Text that cannot belong to a tag any more is emitted.
pub open spec fn flush_view(p: ParserView) -> (ParserView, Seq<ChunkView>) {
    if p.state == State::Outside {
        (ParserView { buffer: Seq::empty(), ..p }, text_chunk(p.buffer))
    } else {
        (p, Seq::empty())
    }
}

/// Feeding `data`: its steps, then the text that is ready.
pub open spec fn feed_view(p: ParserView, data: Seq<char>) -> (ParserView, Seq<ChunkView>) {
    let (q, out) = run_view(p, data);
    let (r, rest) = flush_view(q);
    (r, out + rest)
}

/// What the end of the stream emits.
pub open spec fn finish_view(p: ParserView) -> Seq<ChunkView> {
    match p.state {
        State::Outside => text_chunk(p.buffer),
        State::InsideOpenTag => seq![ChunkView::Text(p.buffer + seq!['<'] + p.tag)],
        State::InsideContent | State::InsideNestedTag => seq![
            ChunkView::Error(
                "unterminated <tool_call> block (got "@ + text::decimal(
                    text::byte_count(p.buffer),
                ) + " chars)"@,
            ),
        ],
    }
}

/// The parser that has read nothing and made `ids` names.
pub open spec fn fresh_view(ids: u64) -> ParserView {
    ParserView { state: State::Outside, buffer: Seq::empty(), tag: Seq::empty(), ids }
}

/// The streaming parser.
pub struct ToolCallParser {
    state: State,
    buffer: String,
    tag_buffer: Vec<char>,
    id_counter: u64,
}

impl View for ToolCallParser {
    type V = ParserView;

    closed spec fn view(&self) -> ParserView {
        ParserView {
            state: self.state,
            buffer: self.buffer@,
            tag: self.tag_buffer@,
            ids: self.id_counter,
        }
    }
}

/// The tag as it is compared.
fn name_of_tag(tag: &Vec<char>) -> (name: String)
    ensures
        name@ == tag_name(tag@),
{
    let raw = text::text_of(tag);
    let core = text::trim(raw.as_str());
    text::to_lower(core.as_str())
}

/// Appends a `<` and what was read behind it.
fn append_open(buffer: &mut String, tag: &Vec<char>)
    ensures
        final(buffer)@ == old(buffer)@.push('<') + tag@,
{
    buffer.push('<');
    buffer.append(text::text_of(tag).as_str());
}

/// Appends a text chunk, unless there is no text.
fn push_text(out: &mut Vec<ParsedChunk>, text: String)
    ensures
        chunks_view(final(out)@) == chunks_view(old(out)@) + text_chunk(text@),
{
    if text.as_str().is_empty() {
        assert(chunks_view(out@) =~= chunks_view(old(out)@) + text_chunk(text@));
    } else {
        out.push(ParsedChunk::Text(text));
        assert(chunks_view(out@) =~= chunks_view(old(out)@) + text_chunk(text@));
    }
}

impl ToolCallParser {
    /// The parser that has read nothing.
    pub fn new() -> (parser: Self)
        ensures
            parser@ == fresh_view(0),
    {
        ToolCallParser {
            state: State::Outside,
            buffer: String::new(),
            tag_buffer: Vec::new(),
            id_counter: 0,
        }
    }

    /// Reads a piece of the stream and gives out what is ready.
    pub fn feed(&mut self, data: &str) -> (out: Vec<ParsedChunk>)
        ensures
            feed_view(old(self)@, data@) == (final(self)@, chunks_view(out@)),
    {
        let chars = text::chars_of(data);
        let mut out: Vec<ParsedChunk> = Vec::new();
        let mut i: usize = 0;
        assert(data@.take(0) =~= Seq::<char>::empty());
        assert(chunks_view(out@) =~= Seq::<ChunkView>::empty());
        while i < chars.len()
            invariant
                chars@ == data@,
                i <= chars.len(),
                run_view(old(self)@, data@.take(i as int)) == (self@, chunks_view(out@)),
            decreases chars.len() - i,
        {
            assert(data@.take(i + 1).drop_last() =~= data@.take(i as int));
            self.step(chars[i], &mut out);
            i += 1;
        }
        assert(data@.take(i as int) =~= data@);
        if self.state == State::Outside {
            let ready = self.take_buffer();
            push_text(&mut out, ready);
        } else {
            assert(chunks_view(out@) + Seq::<ChunkView>::empty() =~= chunks_view(out@));
        }
        out
    }

    /// Ends the stream: what is pending is given out, and the parser is as
    /// before its first input.
    pub fn finish(&mut self) -> (out: Vec<ParsedChunk>)
        ensures
            chunks_view(out@) == finish_view(old(self)@),
            final(self)@ == fresh_view(old(self)@.ids),
    {
        let mut out: Vec<ParsedChunk> = Vec::new();
        let mut pending = self.take_buffer();
        match self.state {
            State::Outside => {
                push_text(&mut out, pending);
            },
            State::InsideContent | State::InsideNestedTag => {
                let mut message = "unterminated <tool_call> block (got ".to_string();
                let size: usize = text::byte_len(pending.as_str());
                message.append(text::decimal_text(size as u64).as_str());
                message.append(" chars)");
                out.push(ParsedChunk::Error(message));
            },
            State::InsideOpenTag => {
                pending.push('<');
                pending.append(text::text_of(&self.tag_buffer).as_str());
                assert(pending@ =~= old(self)@.buffer + seq!['<'] + old(self)@.tag);
                out.push(ParsedChunk::Text(pending));
            },
        }
        self.reset();
        assert(chunks_view(out@) =~= finish_view(old(self)@));
        out
    }

    /// Forgets what is pending.
    pub fn reset(&mut self)
        ensures
            final(self)@ == fresh_view(old(self)@.ids),
    {
        self.state = State::Outside;
        self.buffer = String::new();
        self.tag_buffer.clear();
    }

    fn take_buffer(&mut self) -> (buffer: String)
        ensures
            buffer@ == old(self)@.buffer,
            final(self)@ == (ParserView { buffer: Seq::empty(), ..old(self)@ }),
    {
        let mut buffer = String::new();
        std::mem::swap(&mut buffer, &mut self.buffer);
        buffer
    }

    /// Puts the tag back as it came.
    fn put_back_tag(&mut self)
        ensures
            final(self)@ == (ParserView {
                buffer: old(self)@.buffer + bracketed(old(self)@.tag),
                ..old(self)@
            }),
    {
        append_open(&mut self.buffer, &self.tag_buffer);
        self.buffer.push('>');
        assert(self@.buffer =~= old(self)@.buffer + bracketed(old(self)@.tag));
    }

    /// One step on one character.
    fn step(&mut self, ch: char, out: &mut Vec<ParsedChunk>)
        ensures
            step_view(old(self)@, ch).0 == final(self)@,
            chunks_view(final(out)@) == chunks_view(old(out)@) + step_view(old(self)@, ch).1,
    {
        let ghost before = chunks_view(out@);
        assert(before + Seq::<ChunkView>::empty() =~= before);
        match self.state {
            State::Outside => {
                if ch == '<' {
                    self.state = State::InsideOpenTag;
                    self.tag_buffer.clear();
                } else {
                    self.buffer.push(ch);
                }
            },
            State::InsideOpenTag => {
                if ch == '>' {
                    let tag = name_of_tag(&self.tag_buffer);
                    if text::starts_with(tag.as_str(), "tool_call") {
                        let ready = self.take_buffer();
                        push_text(out, ready);
                        self.state = State::InsideContent;
                    } else {
                        self.put_back_tag();
                        self.state = State::Outside;
                    }
                    self.tag_buffer.clear();
                } else if ch == '<' {
                    append_open(&mut self.buffer, &self.tag_buffer);
                    self.tag_buffer.clear();
                } else {
                    self.tag_buffer.push(ch);
                }
            },
            State::InsideContent => {
                if ch == '<' {
                    self.state = State::InsideNestedTag;
                    self.tag_buffer.clear();
                } else {
                    self.buffer.push(ch);
                }
            },
            State::InsideNestedTag => {
                if ch == '>' {
                    let tag = name_of_tag(&self.tag_buffer);
                    if text::starts_with(tag.as_str(), "/tool_call") {
                        self.emit_tool_call(out);
                        self.state = State::Outside;
                    } else {
                        self.put_back_tag();
                        self.state = State::InsideContent;
                    }
                    self.tag_buffer.clear();
                } else if ch == '<' {
                    append_open(&mut self.buffer, &self.tag_buffer);
                    self.tag_buffer.clear();
                } else {
                    self.tag_buffer.push(ch);
                }
            },
        }
    }

    /// Reads the body of the block that was closed.
    fn emit_tool_call(&mut self, out: &mut Vec<ParsedChunk>)
        ensures
            final(self)@ == (ParserView {
                buffer: Seq::empty(),
                ids: closed_block(old(self)@.buffer, old(self)@.ids).1,
                ..old(self)@
            }),
            chunks_view(final(out)@) == chunks_view(old(out)@) + closed_block(
                old(self)@.buffer,
                old(self)@.ids,
            ).0,
    {
        let content = self.take_buffer();
        let body = text::trim(content.as_str());
        if body.as_str().is_empty() {
            assert(chunks_view(out@) =~= chunks_view(old(out)@) + Seq::<ChunkView>::empty());
            return ;
        }
        match self.read_body(body.as_str()) {
            Some(call) => {
                out.push(ParsedChunk::ToolCall(call));
            },
            None => {
                let mut message = "failed to parse tool_call: ".to_string();
                message.append(text::clip(body.as_str(), 120).as_str());
                out.push(ParsedChunk::Error(message));
            },
        }
        assert(chunks_view(out@) =~= chunks_view(old(out)@) + closed_block(
            old(self)@.buffer,
            old(self)@.ids,
        ).0);
    }

    /// The call in a trimmed body.
    fn read_body(&mut self, body: &str) -> (call: Option<ToolCall>)
        ensures
            call_of_body(body@, old(self)@.ids) == (opt_call(call), final(self)@.ids),
            final(self)@ == (ParserView { ids: final(self)@.ids, ..old(self)@ }),
    {
        if let Some(v) = json::parse(body) {
            if let Some(call) = self.from_json(&v) {
                return Some(call);
            }
        }
        let found = find_all(JSON_PATTERN, body);
        let parts = match found {
            Some(parts) => parts,
            None => Vec::new(),
        };
        assert(found is None ==> text::views(parts@) =~= Seq::<Seq<char>>::empty());
        if let Some(v) = largest_call(&parts) {
            let call = self.from_json(&v);
            return call;
        }
        self.from_regex(body)
    }

    /// The call that a document describes.
    fn from_json(&mut self, v: &Json) -> (call: Option<ToolCall>)
        ensures
            call_of_json(v@, old(self)@.ids) == (opt_call(call), final(self)@.ids),
            final(self)@ == (ParserView { ids: final(self)@.ids, ..old(self)@ }),
    {
        let name = match v.get_text("name") {
            Some(name) => name,
            None => return None,
        };
        let raw = match v.get("input") {
            Some(raw) => Some(raw),
            None => match v.get("arguments") {
                Some(raw) => Some(raw),
                None => v.get("parameters"),
            },
        };
        let input = match raw {
            Some(Json::Text(t)) => match json::parse(t.as_str()) {
                Some(inner) => inner,
                None => Json::Text(t.clone()),
            },
            Some(other) => other.copy(),
            None => Json::object(),
        };
        let id = match v.get_text("id") {
            Some(id) => id,
            None => self.next_id(),
        };
        Some(ToolCall { id, name, input })
    }

    /// The call whose parts the patterns find.
    fn from_regex(&mut self, content: &str) -> (call: Option<ToolCall>)
        ensures
            call_of_patterns(content@, old(self)@.ids) == (opt_call(call), final(self)@.ids),
            final(self)@ == (ParserView { ids: final(self)@.ids, ..old(self)@ }),
    {
        let name = match first_group(NAME_PATTERN, content) {
            Some(name) => name,
            None => return None,
        };
        let args = match first_group(ARGS_PATTERN, content) {
            Some(args) => args,
            None => match first_group(INPUT_PATTERN, content) {
                Some(args) => args,
                None => "{}".to_string(),
            },
        };
        let input = read_found_input(args.as_str());
        let id = self.next_id();
        Some(ToolCall { id, name, input })
    }

    /// A name for a call that has none.
    fn next_id(&mut self) -> (id: String)
        ensures
            final(self)@ == (ParserView { ids: next_count(old(self)@.ids), ..old(self)@ }),
            id@ == made_id(next_count(old(self)@.ids)),
    {
        self.id_counter = self.id_counter.wrapping_add(1);
        let mut id = "xml-".to_string();
        id.append(text::decimal_text(self.id_counter).as_str());
        id
    }
}

/// The document of the largest text that describes a call.
fn largest_call(parts: &Vec<String>) -> (found: Option<Json>)
    ensures
        match (found, largest(text::views(parts@))) {
            (Some(v), Some(i)) => json::parsed(text::views(parts@)[i]) == Some(v@) && v@.text_field(
                "name"@,
            ) is Some,
            (None, None) => true,
            _ => false,
        },
{
    let ghost all = text::views(parts@);
    let mut best: Option<Json> = None;
    let mut size: usize = 0;
    let mut i: usize = 0;
    assert(all.take(0) =~= Seq::<Seq<char>>::empty());
    while i < parts.len()
        invariant
            i <= parts.len(),
            all == text::views(parts@),
            match (best, largest(all.take(i as int))) {
                (Some(v), Some(k)) => 0 <= k < i && json::parsed(all[k]) == Some(v@)
                    && v@.text_field("name"@) is Some && size == all[k].len(),
                (None, None) => true,
                _ => false,
            },
        decreases parts.len() - i,
    {
        proof {
            assert(all.take(i + 1).drop_last() =~= all.take(i as int));
            assert(all.take(i + 1).last() == parts@[i as int]@);
            lemma_largest(all.take(i as int));
        }
        let here: usize = text::chars_of(parts[i].as_str()).len();
        if best.is_none() || size < here {
            if let Some(v) = json::parse(parts[i].as_str()) {
                if v.get_text("name").is_some() {
                    best = Some(v);
                    size = here;
                }
            }
        }
        i += 1;
    }
    assert(all.take(i as int) =~= all);
    best
}

/// The document in arguments that a pattern found.
fn read_found_input(args: &str) -> (input: Json)
    ensures
        input@ == found_input(args@),
{
    if let Some(v) = json::parse(args) {
        return v;
    }
    let chars = text::chars_of(args);
    if chars.len() >= 2 && chars[0] == '"' && chars[chars.len() - 1] == '"' {
        let inner = text::text_between(&chars, 1, chars.len() - 1);
        match json::parse(inner.as_str()) {
            Some(v) => v,
            None => Json::object(),
        }
    } else {
        Json::object()
    }
}

/// The call in an optional call.
pub open spec fn opt_call(call: Option<ToolCall>) -> Option<ToolCallView> {
    match call {
        Some(c) => Some(c@),
        None => None,
    }
}

// ---------------------------------------------------------------------------
// How a stream is cut does not matter
// ---------------------------------------------------------------------------

/// The text in the chunks, put together.
pub open spec fn shown(out: Seq<ChunkView>) -> Seq<char>
    decreases out.len(),
{
    if out.len() == 0 {
        Seq::empty()
    } else {
        match out.last() {
            ChunkView::Text(t) => shown(out.drop_last()) + t,
            _ => shown(out.drop_last()),
        }
    }
}

/// The chunks that are not text.
pub open spec fn events(out: Seq<ChunkView>) -> Seq<ChunkView>
    decreases out.len(),
{
    if out.len() == 0 {
        Seq::empty()
    } else {
        match out.last() {
            ChunkView::Text(t) => events(out.drop_last()),
            _ => events(out.drop_last()).push(out.last()),
        }
    }
}

/// The pieces put together.
pub open spec fn whole(pieces: Seq<Seq<char>>) -> Seq<char>
    decreases pieces.len(),
{
    if pieces.len() == 0 {
        Seq::empty()
    } else {
        whole(pieces.drop_last()) + pieces.last()
    }
}

/// Feeding the pieces one after the other.
pub open spec fn feed_all(p: ParserView, pieces: Seq<Seq<char>>) -> (ParserView, Seq<ChunkView>)
    decreases pieces.len(),
{
    if pieces.len() == 0 {
        (p, Seq::empty())
    } else {
        let (q, before) = feed_all(p, pieces.drop_last());
        let (r, out) = feed_view(q, pieces.last());
        (r, before + out)
    }
}

/// All that a stream in these pieces gives out, its end included.
pub open spec fn stream(p: ParserView, pieces: Seq<Seq<char>>) -> Seq<ChunkView> {
    feed_all(p, pieces).1 + finish_view(feed_all(p, pieces).0)
}

proof fn lemma_out_concat(a: Seq<ChunkView>, b: Seq<ChunkView>)
    ensures
        shown(a + b) == shown(a) + shown(b),
        events(a + b) == events(a) + events(b),
    decreases b.len(),
{
    if b.len() == 0 {
        assert(a + b =~= a);
        assert(shown(a) + shown(b) =~= shown(a));
        assert(events(a) + events(b) =~= events(a));
    } else {
        assert((a + b).drop_last() =~= a + b.drop_last());
        lemma_out_concat(a, b.drop_last());
        assert(shown(a + b) =~= shown(a) + shown(b));
        assert(events(a + b) =~= events(a) + events(b));
    }
}

proof fn lemma_text_chunk(text: Seq<char>)
    ensures
        shown(text_chunk(text)) == text,
        events(text_chunk(text)) == Seq::<ChunkView>::empty(),
{
    reveal_with_fuel(shown, 2);
    reveal_with_fuel(events, 2);
    let out = text_chunk(text);
    if text.len() > 0 {
        assert(out.drop_last() =~= Seq::<ChunkView>::empty());
        assert(shown(out) =~= text);
    } else {
        assert(shown(out) =~= text);
    }
}

/// `q` has kept back the text `kept`, which `r` has given out already.
spec fn behind(q: ParserView, r: ParserView, kept: Seq<char>) -> bool {
    &&& q.state == r.state
    &&& q.tag == r.tag
    &&& q.ids == r.ids
    &&& q.buffer == kept + r.buffer
    &&& kept.len() > 0 ==> (q.state == State::Outside || q.state == State::InsideOpenTag)
}

proof fn lemma_behind_step(q: ParserView, r: ParserView, kept: Seq<char>, c: char) -> (rest: Seq<
    char,
>)
    requires
        behind(q, r, kept),
    ensures
        behind(step_view(q, c).0, step_view(r, c).0, rest),
        kept + shown(step_view(r, c).1) == shown(step_view(q, c).1) + rest,
        events(step_view(r, c).1) == events(step_view(q, c).1),
{
    let (q2, out_q) = step_view(q, c);
    let (r2, out_r) = step_view(r, c);
    if kept.len() == 0 {
        assert(q.buffer =~= r.buffer);
        assert(q =~= r);
        assert(q2.buffer =~= kept + r2.buffer);
        assert(kept + shown(out_r) =~= shown(out_q) + kept);
        kept
    } else if q.state == State::InsideOpenTag && c == '>' && text::begins(
        tag_name(q.tag),
        "tool_call"@,
    ) {
        lemma_text_chunk(q.buffer);
        lemma_text_chunk(r.buffer);
        let rest = Seq::<char>::empty();
        assert(kept + shown(out_r) =~= shown(out_q) + rest);
        assert(q2.buffer =~= rest + r2.buffer);
        rest
    } else {
        assert(out_q =~= Seq::<ChunkView>::empty());
        assert(out_r =~= Seq::<ChunkView>::empty());
        assert(q2.buffer =~= kept + r2.buffer);
        assert(kept + shown(out_r) =~= shown(out_q) + kept);
        kept
    }
}

proof fn lemma_behind_run(q: ParserView, r: ParserView, kept: Seq<char>, data: Seq<char>) -> (rest:
    Seq<char>)
    requires
        behind(q, r, kept),
    ensures
        behind(run_view(q, data).0, run_view(r, data).0, rest),
        kept + shown(run_view(r, data).1) == shown(run_view(q, data).1) + rest,
        events(run_view(r, data).1) == events(run_view(q, data).1),
    decreases data.len(),
{
    if data.len() == 0 {
        assert(kept + shown(run_view(r, data).1) =~= shown(run_view(q, data).1) + kept);
        kept
    } else {
        let before = data.drop_last();
        let middle = lemma_behind_run(q, r, kept, before);
        let (q1, out_q1) = run_view(q, before);
        let (r1, out_r1) = run_view(r, before);
        let rest = lemma_behind_step(q1, r1, middle, data.last());
        let out_q2 = step_view(q1, data.last()).1;
        let out_r2 = step_view(r1, data.last()).1;
        lemma_out_concat(out_q1, out_q2);
        lemma_out_concat(out_r1, out_r2);
        assert(kept + (shown(out_r1) + shown(out_r2)) =~= (kept + shown(out_r1)) + shown(out_r2));
        assert((shown(out_q1) + middle) + shown(out_r2) =~= shown(out_q1) + (middle + shown(
            out_r2,
        )));
        assert(shown(out_q1) + (shown(out_q2) + rest) =~= (shown(out_q1) + shown(out_q2)) + rest);
        rest
    }
}

proof fn lemma_run_concat(p: ParserView, a: Seq<char>, b: Seq<char>)
    ensures
        run_view(p, a + b).0 == run_view(run_view(p, a).0, b).0,
        run_view(p, a + b).1 == run_view(p, a).1 + run_view(run_view(p, a).0, b).1,
    decreases b.len(),
{
    if b.len() == 0 {
        assert(a + b =~= a);
        assert(run_view(p, a).1 + Seq::<ChunkView>::empty() =~= run_view(p, a).1);
    } else {
        assert((a + b).drop_last() =~= a + b.drop_last());
        lemma_run_concat(p, a, b.drop_last());
        let (q, o1) = run_view(p, a);
        let (r, o2) = run_view(q, b.drop_last());
        let o3 = step_view(r, b.last()).1;
        assert((o1 + o2) + o3 =~= o1 + (o2 + o3));
    }
}

proof fn lemma_behind_feed_all(p: ParserView, pieces: Seq<Seq<char>>) -> (kept: Seq<char>)
    ensures
        behind(run_view(p, whole(pieces)).0, feed_all(p, pieces).0, kept),
        shown(feed_all(p, pieces).1) == shown(run_view(p, whole(pieces)).1) + kept,
        events(feed_all(p, pieces).1) == events(run_view(p, whole(pieces)).1),
    decreases pieces.len(),
{
    if pieces.len() == 0 {
        let kept = Seq::<char>::empty();
        assert(p.buffer =~= kept + p.buffer);
        assert(shown(Seq::<ChunkView>::empty()) =~= shown(Seq::<ChunkView>::empty()) + kept);
        kept
    } else {
        let before = pieces.drop_last();
        let last = pieces.last();
        let kept = lemma_behind_feed_all(p, before);
        let (q, out_q) = run_view(p, whole(before));
        let (r, out_r) = feed_all(p, before);
        let rest = lemma_behind_run(q, r, kept, last);
        lemma_run_concat(p, whole(before), last);
        let (q2, out_q2) = run_view(q, last);
        let (r2, out_r2) = run_view(r, last);
        let (r3, out_r3) = flush_view(r2);
        lemma_out_concat(out_q, out_q2);
        lemma_out_concat(out_r2, out_r3);
        lemma_out_concat(out_r, out_r2 + out_r3);
        lemma_text_chunk(r2.buffer);
        let now = if r2.state == State::Outside {
            rest + r2.buffer
        } else {
            rest
        };
        let s = shown(out_q);
        let s2 = shown(out_q2);
        let t2 = shown(out_r2);
        let t3 = shown(out_r3);
        assert((s + kept) + (t2 + t3) =~= s + (kept + t2) + t3);
        assert(s + (s2 + rest) + t3 =~= (s + s2) + (rest + t3));
        assert(r2.state != State::Outside ==> rest + t3 =~= rest);
        assert(q2.buffer =~= now + r3.buffer);
        assert(events(out_r) + (events(out_r2) + events(out_r3)) =~= events(out_q) + events(out_q2));
        now
    }
}

/// However a stream is cut into pieces, the same tool calls and errors come out
/// of it in the same order, and the same text.
pub proof fn lemma_cuts_do_not_matter(p: ParserView, a: Seq<Seq<char>>, b: Seq<Seq<char>>)
    requires
        whole(a) == whole(b),
    ensures
        shown(stream(p, a)) == shown(stream(p, b)),
        events(stream(p, a)) == events(stream(p, b)),
{
    lemma_stream_as_run(p, a);
    lemma_stream_as_run(p, b);
}

proof fn lemma_stream_as_run(p: ParserView, pieces: Seq<Seq<char>>)
    ensures
        ({
            let (q, out) = run_view(p, whole(pieces));
            &&& shown(stream(p, pieces)) == shown(out + finish_view(q))
            &&& events(stream(p, pieces)) == events(out + finish_view(q))
        }),
{
    let kept = lemma_behind_feed_all(p, pieces);
    let (q, out) = run_view(p, whole(pieces));
    let (r, fed) = feed_all(p, pieces);
    lemma_out_concat(out, finish_view(q));
    lemma_out_concat(fed, finish_view(r));
    lemma_text_chunk(q.buffer);
    lemma_text_chunk(r.buffer);
    match q.state {
        State::Outside => {
            assert((shown(out) + kept) + r.buffer =~= shown(out) + (kept + r.buffer));
        },
        State::InsideOpenTag => {
            let at_q = q.buffer + seq!['<'] + q.tag;
            let at_r = r.buffer + seq!['<'] + r.tag;
            assert(at_q =~= kept + at_r);
            assert(at_q.len() > 0 && at_r.len() > 0);
            lemma_text_chunk(at_q);
            lemma_text_chunk(at_r);
            assert((shown(out) + kept) + at_r =~= shown(out) + (kept + at_r));
        },
        _ => {
            assert(kept.len() == 0);
            assert(q.buffer =~= r.buffer);
            assert(shown(out) + kept =~= shown(out));
        },
    }
}

// ---------------------------------------------------------------------------
// What a reset forgets, and the names that are made
// ---------------------------------------------------------------------------

/// Whether a name is one that the parser makes.
pub open spec fn is_made(id: Seq<char>) -> bool {
    exists|n: u64| id == #[trigger] made_id(n)
}

/// Whether two chunks are the same, up to names that the parser made.
pub open spec fn alike(a: ChunkView, b: ChunkView) -> bool {
    match (a, b) {
        (ChunkView::ToolCall(x), ChunkView::ToolCall(y)) => x.name == y.name && x.input == y.input
            && (x.id == y.id || (is_made(x.id) && is_made(y.id))),
        _ => a == b,
    }
}

/// Whether two lists of chunks are the same, up to names that the parser made.
pub open spec fn all_alike(a: Seq<ChunkView>, b: Seq<ChunkView>) -> bool {
    a.len() == b.len() && forall|i: int| 0 <= i < a.len() ==> alike(#[trigger] a[i], b[i])
}

/// `p` and `q` differ in nothing but how many names they made.
spec fn twins(p: ParserView, q: ParserView) -> bool {
    p.state == q.state && p.buffer == q.buffer && p.tag == q.tag
}

/// The chunks of an optional call.
spec fn call_chunks(call: Option<ToolCallView>) -> Seq<ChunkView> {
    match call {
        Some(c) => seq![ChunkView::ToolCall(c)],
        None => Seq::empty(),
    }
}

proof fn lemma_twin_json(v: JsonView, m: u64, n: u64)
    ensures
        all_alike(call_chunks(call_of_json(v, m).0), call_chunks(call_of_json(v, n).0)),
        call_of_json(v, m).0 is None <==> call_of_json(v, n).0 is None,
{
    assert(is_made(made_id(next_count(m))));
    assert(is_made(made_id(next_count(n))));
}

proof fn lemma_twin_body(body: Seq<char>, m: u64, n: u64)
    ensures
        all_alike(call_chunks(call_of_body(body, m).0), call_chunks(call_of_body(body, n).0)),
        call_of_body(body, m).0 is None <==> call_of_body(body, n).0 is None,
{
    assert(is_made(made_id(next_count(m))));
    assert(is_made(made_id(next_count(n))));
    if let Some(v) = json::parsed(body) {
        lemma_twin_json(v, m, n);
    }
    let parts = match pattern_matches(JSON_PATTERN@, body) {
        Some(p) => p,
        None => Seq::empty(),
    };
    if let Some(i) = largest(parts) {
        lemma_twin_json(json::parsed(parts[i])->Some_0, m, n);
    }
}

proof fn lemma_alike_concat(
    a: Seq<ChunkView>,
    b: Seq<ChunkView>,
    c: Seq<ChunkView>,
    d: Seq<ChunkView>,
)
    requires
        all_alike(a, b),
        all_alike(c, d),
    ensures
        all_alike(a + c, b + d),
{
    assert forall|i: int| 0 <= i < (a + c).len() implies alike(#[trigger] (a + c)[i], (b + d)[i]) by {
        if i < a.len() {
            assert(alike(a[i], b[i]));
        } else {
            assert(alike(c[i - a.len()], d[i - a.len()]));
        }
    }
}

proof fn lemma_twin_step(p: ParserView, q: ParserView, c: char)
    requires
        twins(p, q),
    ensures
        twins(step_view(p, c).0, step_view(q, c).0),
        all_alike(step_view(p, c).1, step_view(q, c).1),
{
    if p.state == State::InsideNestedTag && c == '>' {
        let body = text::trimmed(p.buffer);
        lemma_twin_body(body, p.ids, q.ids);
        if let Some(x) = call_of_body(body, p.ids).0 {
            let y = call_of_body(body, q.ids).0->Some_0;
            assert(alike(
                call_chunks(call_of_body(body, p.ids).0)[0],
                call_chunks(call_of_body(body, q.ids).0)[0],
            ));
        }
    }
}

proof fn lemma_twin_run(p: ParserView, q: ParserView, data: Seq<char>)
    requires
        twins(p, q),
    ensures
        twins(run_view(p, data).0, run_view(q, data).0),
        all_alike(run_view(p, data).1, run_view(q, data).1),
    decreases data.len(),
{
    if data.len() > 0 {
        let before = data.drop_last();
        lemma_twin_run(p, q, before);
        let (p1, out_p) = run_view(p, before);
        let (q1, out_q) = run_view(q, before);
        lemma_twin_step(p1, q1, data.last());
        lemma_alike_concat(
            out_p,
            out_q,
            step_view(p1, data.last()).1,
            step_view(q1, data.last()).1,
        );
    }
}

proof fn lemma_twin_feed_all(p: ParserView, q: ParserView, pieces: Seq<Seq<char>>)
    requires
        twins(p, q),
    ensures
        twins(feed_all(p, pieces).0, feed_all(q, pieces).0),
        all_alike(feed_all(p, pieces).1, feed_all(q, pieces).1),
    decreases pieces.len(),
{
    if pieces.len() > 0 {
        let before = pieces.drop_last();
        lemma_twin_feed_all(p, q, before);
        let (p1, out_p) = feed_all(p, before);
        let (q1, out_q) = feed_all(q, before);
        lemma_twin_run(p1, q1, pieces.last());
        let (p2, more_p) = run_view(p1, pieces.last());
        let (q2, more_q) = run_view(q1, pieces.last());
        lemma_alike_concat(more_p, more_q, flush_view(p2).1, flush_view(q2).1);
        lemma_alike_concat(
            out_p,
            out_q,
            feed_view(p1, pieces.last()).1,
            feed_view(q1, pieces.last()).1,
        );
    }
}

/// After a reset, in whatever state the parser was, a stream gives out what it gives out on
/// a new parser, up to the names that are made: nothing that was pending shows up.
pub proof fn lemma_reset_forgets(p: ParserView, pieces: Seq<Seq<char>>)
    ensures
        all_alike(stream(fresh_view(p.ids), pieces), stream(fresh_view(0), pieces)),
{
    let a = fresh_view(p.ids);
    let b = fresh_view(0);
    lemma_twin_feed_all(a, b, pieces);
    let (a1, out_a) = feed_all(a, pieces);
    let (b1, out_b) = feed_all(b, pieces);
    lemma_alike_concat(out_a, out_b, finish_view(a1), finish_view(b1));
}

/// The names that are made while `data` is read, in order.
pub open spec fn names_made(p: ParserView, data: Seq<char>) -> Seq<Seq<char>>
    decreases data.len(),
{
    if data.len() == 0 {
        Seq::empty()
    } else {
        let q = run_view(p, data.drop_last()).0;
        let r = step_view(q, data.last()).0;
        if r.ids == q.ids {
            names_made(p, data.drop_last())
        } else {
            names_made(p, data.drop_last()).push(made_id(r.ids))
        }
    }
}

/// Whether a name is that of a call among the chunks.
pub open spec fn names_call(out: Seq<ChunkView>, id: Seq<char>) -> bool {
    exists|i: int| 0 <= i < out.len() && (#[trigger] out[i] matches ChunkView::ToolCall(c) && c.id == id)
}

proof fn lemma_step_names(p: ParserView, c: char)
    ensures
        ({
            let (q, out) = step_view(p, c);
            q.ids == p.ids || (q.ids == next_count(p.ids) && names_call(out, made_id(q.ids)))
        }),
{
    let (q, out) = step_view(p, c);
    if q.ids != p.ids {
        assert(out[0] is ToolCall);
        assert(out[0]->ToolCall_0.id == made_id(q.ids));
    }
}

proof fn lemma_names(p: ParserView, data: Seq<char>)
    requires
        p.ids + data.len() <= u64::MAX,
    ensures
        ({
            let (q, out) = run_view(p, data);
            let names = names_made(p, data);
            &&& p.ids <= q.ids <= p.ids + data.len()
            &&& names.len() == q.ids - p.ids
            &&& forall|k: int| 0 <= k < names.len() ==> #[trigger] names[k] == made_id(
                (p.ids + 1 + k) as u64,
            )
            &&& forall|k: int| 0 <= k < names.len() ==> names_call(out, #[trigger] names[k])
        }),
    decreases data.len(),
{
    if data.len() > 0 {
        let before = data.drop_last();
        lemma_names(p, before);
        let (q, out) = run_view(p, before);
        let (r, more) = step_view(q, data.last());
        lemma_step_names(q, data.last());
        let names = names_made(p, data);
        let known = names_made(p, before);
        assert forall|k: int| 0 <= k < names.len() implies names_call(out + more, #[trigger] names[k]) by {
            if k < known.len() {
                assert(names[k] == known[k]);
                let i = choose|i: int|
                    0 <= i < out.len() && (#[trigger] out[i] matches ChunkView::ToolCall(c) && c.id
                        == known[k]);
                assert((out + more)[i] == out[i]);
            } else {
                let i = choose|i: int|
                    0 <= i < more.len() && (#[trigger] more[i] matches ChunkView::ToolCall(c)
                        && c.id == names[k]);
                assert((out + more)[out.len() + i] == more[i]);
            }
        }
    }
}

/// Each name that is made is the name of a call that comes out, and none is made twice,
/// also not after a reset, as long as the counter does not run over.
pub proof fn lemma_names_are_made_once(p: ParserView, before: Seq<char>, after: Seq<char>)
    requires
        p.ids + before.len() + after.len() <= u64::MAX,
    ensures
        ({
            let (q, out) = run_view(p, before);
            let names = names_made(p, before) + names_made(fresh_view(q.ids), after);
            &&& names.no_duplicates()
            &&& forall|k: int|
                0 <= k < names_made(p, before).len() ==> names_call(
                    out,
                    #[trigger] names_made(p, before)[k],
                )
        }),
{
    lemma_names(p, before);
    let q = run_view(p, before).0;
    lemma_names(fresh_view(q.ids), after);
    let first = names_made(p, before);
    let names = first + names_made(fresh_view(q.ids), after);
    assert forall|k: int| 0 <= k < names.len() implies #[trigger] names[k] == made_id(
        (p.ids + 1 + k) as u64,
    ) by {
        if k >= first.len() {
            let j = k - first.len();
            assert(names[k] == names_made(fresh_view(q.ids), after)[j]);
        }
    }
    assert forall|i: int, j: int| 0 <= i < names.len() && 0 <= j < names.len() && i != j implies names[i]
        != names[j] by {
        let m = (p.ids + 1 + i) as u64;
        let n = (p.ids + 1 + j) as u64;
        if made_id(m) == made_id(n) {
            let start = "xml-"@.len() as int;
            assert(made_id(m).skip(start) =~= text::decimal(m as nat));
            assert(made_id(n).skip(start) =~= text::decimal(n as nat));
            text::lemma_decimal(m as nat);
            text::lemma_decimal(n as nat);
        }
    }
}

impl Default for ToolCallParser {
    fn default() -> (parser: Self)
        ensures
            parser@ == fresh_view(0),
    {
        ToolCallParser::new()
    }
}

} // verus!
