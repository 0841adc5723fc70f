//! What a stream gives out: every character of it, but for the blocks, and for each block the
//! call that it describes.

use vstd::prelude::*;
use crate::agent::types::ToolCallView;
use crate::json;
use crate::json::JsonView;
use crate::mcp::parser;
use crate::mcp::parser::ChunkView;
use crate::mcp::parser::ParserView;
use crate::mcp::parser::State;
use crate::text;

verus! {

// ---------------------------------------------------------------------------
// The characters
// ---------------------------------------------------------------------------

/// What was read and is not given out yet: text, or what stands in the open block so far.
pub open spec fn pending(p: ParserView) -> Seq<char> {
    match p.state {
        State::Outside | State::InsideContent => p.buffer,
        State::InsideOpenTag | State::InsideNestedTag => p.buffer + seq!['<'] + p.tag,
    }
}

/// Whether the parser is in a block.
pub open spec fn in_block(p: ParserView) -> bool {
    p.state == State::InsideContent || p.state == State::InsideNestedTag
}

/// Whether a character ends a tag that reads, without white space around it and in lower
/// case, like the name.
pub open spec fn ends_tag(p: ParserView, c: char, name: Seq<char>) -> bool {
    &&& p.state == State::InsideOpenTag || p.state == State::InsideNestedTag
    &&& c == '>'
    &&& name.len() <= text::lowercase(text::trimmed(p.tag)).len()
    &&& text::lowercase(text::trimmed(p.tag)).take(name.len() as int) == name
}

/// Text outside of blocks is kept character by character as it comes, brackets and letters
/// of either case included, until a tag of a block comes: then what stood before the tag is
/// given out as one text, and the block begins empty.
pub proof fn lemma_text_is_kept(p: ParserView, c: char)
    requires
        !in_block(p),
    ensures
        ({
            let (q, out) = parser::step_view(p, c);
            if ends_tag(p, c, "tool_call"@) {
                &&& in_block(q)
                &&& pending(q).len() == 0
                &&& q.ids == p.ids
                &&& p.buffer.len() == 0 ==> out.len() == 0
                &&& p.buffer.len() > 0 ==> out == seq![ChunkView::Text(p.buffer)]
            } else {
                &&& !in_block(q)
                &&& pending(q) == pending(p).push(c)
                &&& q.ids == p.ids
                &&& out.len() == 0
                &&& c == '<' ==> q.state == State::InsideOpenTag && q.tag.len() == 0
                &&& c != '<' && c != '>' && p.state == State::InsideOpenTag ==> q.state
                    == State::InsideOpenTag && q.tag == p.tag.push(c)
                &&& c != '<' && p.state == State::Outside ==> q.state == State::Outside
                &&& c == '>' ==> q.state == State::Outside
            }
        }),
{
    let name = text::lowercase(text::trimmed(p.tag));
    let (q, out) = parser::step_view(p, c);
    if "tool_call"@.len() <= name.len() {
        assert(name.take("tool_call"@.len() as int) == name.subrange(0, "tool_call"@.len() as int));
    }
    if !ends_tag(p, c, "tool_call"@) {
        assert(pending(q) =~= pending(p).push(c));
    }
}

/// What stands in a block is kept character by character as it comes, tags of other names
/// and single brackets included, until the closing tag comes. Then the block gives out what
/// it holds, and text begins anew.
pub proof fn lemma_block_is_kept(p: ParserView, c: char)
    requires
        in_block(p),
    ensures
        ({
            let (q, out) = parser::step_view(p, c);
            if ends_tag(p, c, "/tool_call"@) {
                &&& q.state == State::Outside
                &&& pending(q).len() == 0
                &&& (out, q.ids) == parser::closed_block(p.buffer, p.ids)
            } else {
                &&& in_block(q)
                &&& pending(q) == pending(p).push(c)
                &&& q.ids == p.ids
                &&& out.len() == 0
                &&& c == '<' ==> q.state == State::InsideNestedTag && q.tag.len() == 0
                &&& c != '<' && c != '>' && p.state == State::InsideNestedTag ==> q.state
                    == State::InsideNestedTag && q.tag == p.tag.push(c)
                &&& c != '<' && p.state == State::InsideContent ==> q.state
                    == State::InsideContent
                &&& c == '>' ==> q.state == State::InsideContent
            }
        }),
{
    let name = text::lowercase(text::trimmed(p.tag));
    let (q, out) = parser::step_view(p, c);
    if "/tool_call"@.len() <= name.len() {
        assert(name.take("/tool_call"@.len() as int) == name.subrange(
            0,
            "/tool_call"@.len() as int,
        ));
    }
    if !ends_tag(p, c, "/tool_call"@) {
        assert(pending(q) =~= pending(p).push(c));
    }
}

/// What is ready when a piece was read: the text, unless a tag or a block is open. At the end
/// of the stream the rest of the text is given out as it came, and an open block is an error.
pub proof fn lemma_rest_is_given_out(p: ParserView)
    ensures
        ({
            let (q, out) = parser::flush_view(p);
            &&& p.state == State::Outside && p.buffer.len() > 0 ==> out == seq![
                ChunkView::Text(p.buffer),
            ] && q == (ParserView { buffer: Seq::empty(), ..p })
            &&& !(p.state == State::Outside && p.buffer.len() > 0) ==> out.len() == 0 && pending(q)
                == pending(p) && q.state == p.state && q.tag == p.tag && q.ids == p.ids
        }),
        !in_block(p) && pending(p).len() > 0 ==> parser::finish_view(p) == seq![
            ChunkView::Text(pending(p)),
        ],
        !in_block(p) && pending(p).len() == 0 ==> parser::finish_view(p).len() == 0,
        in_block(p) ==> parser::finish_view(p) == seq![
            ChunkView::Error(
                "unterminated <tool_call> block (got "@ + text::decimal(
                    text::byte_count(p.buffer),
                ) + " chars)"@,
            ),
        ],
{
}

/// Feeding is reading character by character and then giving out what is ready.
pub proof fn lemma_feeding(p: ParserView, data: Seq<char>, c: char)
    ensures
        parser::run_view(p, Seq::empty()) == (p, Seq::<ChunkView>::empty()),
        ({
            let (q, before) = parser::run_view(p, data);
            let (r, out) = parser::step_view(q, c);
            parser::run_view(p, data.push(c)) == (r, before + out)
        }),
        ({
            let (q, before) = parser::run_view(p, data);
            let (r, rest) = parser::flush_view(q);
            parser::feed_view(p, data) == (r, before + rest)
        }),
{
    assert(data.push(c).drop_last() =~= data);
}

// ---------------------------------------------------------------------------
// A block
// ---------------------------------------------------------------------------

proof fn lemma_run_plain(p: ParserView, data: Seq<char>)
    requires
        p.state == State::Outside || p.state == State::InsideContent,
        !data.contains('<'),
    ensures
        parser::run_view(p, data) == (
            ParserView { buffer: p.buffer + data, ..p },
            Seq::<ChunkView>::empty(),
        ),
    decreases data.len(),
{
    if data.len() == 0 {
        assert(p.buffer + data =~= p.buffer);
    } else {
        let rest = data.drop_last();
        assert forall|i: int| 0 <= i < rest.len() implies rest[i] != '<' by {
            assert(data.contains(data[i]));
        }
        lemma_run_plain(p, rest);
        assert(data.contains(data[data.len() - 1]));
        assert(p.buffer + rest.push(data.last()) =~= (p.buffer + rest).push(data.last()));
        assert(rest.push(data.last()) =~= data);
    }
}

proof fn lemma_run_tag(p: ParserView, data: Seq<char>)
    requires
        p.state == State::InsideOpenTag || p.state == State::InsideNestedTag,
        !data.contains('<'),
        !data.contains('>'),
    ensures
        parser::run_view(p, data) == (
            ParserView { tag: p.tag + data, ..p },
            Seq::<ChunkView>::empty(),
        ),
    decreases data.len(),
{
    if data.len() == 0 {
        assert(p.tag + data =~= p.tag);
    } else {
        let rest = data.drop_last();
        assert forall|i: int| 0 <= i < rest.len() implies rest[i] != '<' && rest[i] != '>' by {
            assert(data.contains(data[i]));
        }
        lemma_run_tag(p, rest);
        assert(data.contains(data[data.len() - 1]));
        assert(p.tag + rest.push(data.last()) =~= (p.tag + rest).push(data.last()));
        assert(rest.push(data.last()) =~= data);
    }
}

proof fn lemma_run_concat(p: ParserView, a: Seq<char>, b: Seq<char>)
    ensures
        ({
            let (q, first) = parser::run_view(p, a);
            let (r, second) = parser::run_view(q, b);
            parser::run_view(p, a + b) == (r, first + second)
        }),
    decreases b.len(),
{
    let (q, first) = parser::run_view(p, a);
    if b.len() == 0 {
        assert(a + b =~= a);
        assert(first + Seq::<ChunkView>::empty() =~= first);
    } else {
        let rest = b.drop_last();
        lemma_run_concat(p, a, rest);
        assert((a + b).drop_last() =~= a + rest);
        let (r, second) = parser::run_view(q, rest);
        let (t, out) = parser::step_view(r, b.last());
        assert((first + second) + out =~= first + (second + out));
    }
}

proof fn lemma_run_one(p: ParserView, c: char)
    ensures
        parser::run_view(p, seq![c]) == parser::step_view(p, c),
{
    let none = Seq::<char>::empty();
    assert(seq![c].drop_last() =~= none);
    assert(parser::run_view(p, none) == (p, Seq::<ChunkView>::empty()));
    let (q, out) = parser::step_view(p, c);
    assert(Seq::<ChunkView>::empty() + out =~= out);
    assert(seq![c].last() == c);
    assert(parser::run_view(p, seq![c]) == (q, Seq::<ChunkView>::empty() + out));
}

proof fn lemma_run_through(p: ParserView, data: Seq<char>, tag: Seq<char>)
    requires
        p.state == State::Outside || p.state == State::InsideContent,
        !data.contains('<'),
        !tag.contains('<'),
        !tag.contains('>'),
    ensures
        ({
            let q = ParserView {
                state: if p.state == State::Outside {
                    State::InsideOpenTag
                } else {
                    State::InsideNestedTag
                },
                buffer: p.buffer + data,
                tag,
                ..p
            };
            parser::run_view(p, data + seq!['<'] + tag + seq!['>']) == parser::step_view(q, '>')
        }),
{
    let q1 = ParserView { buffer: p.buffer + data, ..p };
    let q2 = parser::step_view(q1, '<').0;
    let q = ParserView { tag, ..q2 };
    let none = Seq::<ChunkView>::empty();
    lemma_run_plain(p, data);
    lemma_run_one(q1, '<');
    lemma_run_concat(p, data, seq!['<']);
    assert(none + none =~= none);
    lemma_run_tag(q2, tag);
    assert(q2.tag + tag =~= tag);
    lemma_run_concat(p, data + seq!['<'], tag);
    lemma_run_one(q, '>');
    lemma_run_concat(p, data + seq!['<'] + tag, seq!['>']);
    let out = parser::step_view(q, '>').1;
    assert(none + out =~= out);
}

/// A text and then a block, both without further brackets, give out the text and what the
/// block holds, and the parser is ready for more.
pub proof fn lemma_block_is_found(
    ids: u64,
    before: Seq<char>,
    open: Seq<char>,
    body: Seq<char>,
    close: Seq<char>,
)
    requires
        !before.contains('<'),
        !open.contains('<') && !open.contains('>'),
        !body.contains('<'),
        !close.contains('<') && !close.contains('>'),
        text::begins(text::lowercase(text::trimmed(open)), "tool_call"@),
        text::begins(text::lowercase(text::trimmed(close)), "/tool_call"@),
    ensures
        ({
            let data = before + seq!['<'] + open + seq!['>'] + (body + seq!['<'] + close + seq![
                '>',
            ]);
            let (chunks, n) = parser::closed_block(body, ids);
            parser::feed_view(parser::fresh_view(ids), data) == (
                parser::fresh_view(n),
                (if before.len() == 0 {
                    Seq::empty()
                } else {
                    seq![ChunkView::Text(before)]
                }) + chunks,
            )
        }),
{
    let p = parser::fresh_view(ids);
    let a = before + seq!['<'] + open + seq!['>'];
    let b = body + seq!['<'] + close + seq!['>'];
    lemma_run_through(p, before, open);
    assert(p.buffer + before =~= before);
    let (q, first) = parser::run_view(p, a);
    lemma_run_through(q, body, close);
    assert(q.buffer + body =~= body);
    lemma_run_concat(p, a, b);
    let (r, second) = parser::run_view(q, b);
    assert(r == parser::fresh_view(parser::closed_block(body, ids).1));
    assert((first + second) + Seq::<ChunkView>::empty() =~= first + second);
}

/// The arguments of a call: a text that holds JSON stands for that JSON, and anything else
/// for itself.
pub open spec fn meant(raw: JsonView) -> JsonView {
    if raw is Text && json::parsed(raw->Text_0) is Some {
        json::parsed(raw->Text_0)->0
    } else {
        raw
    }
}

/// A block that holds a JSON object with a name gives out one call of that name, and nothing
/// else. Its arguments are those under `input`, else those under `arguments`, else those
/// under `parameters`, else there are none. Its id is the one that it names, else a new one.
pub proof fn lemma_call_is_read(content: Seq<char>, ids: u64)
    requires
        text::trimmed(content).len() > 0,
        json::parsed(text::trimmed(content)) matches Some(JsonView::Object(m))
            && m.dom().contains("name"@) && m["name"@] is Text,
    ensures
        ({
            let m = json::parsed(text::trimmed(content))->0->Object_0;
            let (chunks, n) = parser::closed_block(content, ids);
            &&& chunks.len() == 1
            &&& chunks[0] matches ChunkView::ToolCall(call) && {
                &&& JsonView::Text(call.name) == m["name"@]
                &&& m.dom().contains("input"@) ==> call.input == meant(m["input"@])
                &&& !m.dom().contains("input"@) && m.dom().contains("arguments"@) ==> call.input
                    == meant(m["arguments"@])
                &&& !m.dom().contains("input"@) && !m.dom().contains("arguments"@)
                    && m.dom().contains("parameters"@) ==> call.input == meant(m["parameters"@])
                &&& !m.dom().contains("input"@) && !m.dom().contains("arguments"@)
                    && !m.dom().contains("parameters"@) ==> call.input == JsonView::Object(
                    Map::empty(),
                )
                &&& m.dom().contains("id"@) && m["id"@] is Text ==> JsonView::Text(call.id)
                    == m["id"@] && n == ids
                &&& !(m.dom().contains("id"@) && m["id"@] is Text) ==> n == (if ids == u64::MAX {
                    0
                } else {
                    ids + 1
                }) && call.id == "xml-"@ + text::decimal(n as nat)
            }
        }),
{
}

/// For each of the three names that arguments may have, a block with a name and these
/// arguments, and nothing else, gives out the call of that name with these arguments.
pub proof fn lemma_arguments_arrive(
    content: Seq<char>,
    ids: u64,
    field: Seq<char>,
    name: Seq<char>,
    args: Map<Seq<char>, JsonView>,
)
    requires
        text::trimmed(content).len() > 0,
        field == "input"@ || field == "arguments"@ || field == "parameters"@,
        json::parsed(text::trimmed(content)) == Some(
            JsonView::Object(
                map!["name"@ => JsonView::Text(name), field => JsonView::Object(args)],
            ),
        ),
        ids < u64::MAX,
    ensures
        parser::closed_block(content, ids) == (
            seq![
                ChunkView::ToolCall(
                    ToolCallView {
                        id: "xml-"@ + text::decimal((ids + 1) as nat),
                        name,
                        input: JsonView::Object(args),
                    },
                ),
            ],
            (ids + 1) as u64,
        ),
{
    reveal_strlit("name");
    reveal_strlit("input");
    reveal_strlit("arguments");
    reveal_strlit("parameters");
    reveal_strlit("id");
    let m = map!["name"@ => JsonView::Text(name), field => JsonView::Object(args)];
    assert("input"@ != "name"@ && "arguments"@ != "name"@ && "parameters"@ != "name"@) by {
        assert("input"@.len() == 5 && "arguments"@.len() == 9 && "parameters"@.len() == 10
            && "name"@.len() == 4);
    }
    assert("id"@.len() == 2);
    assert("input"@.len() != "arguments"@.len() && "arguments"@.len() != "parameters"@.len()
        && "input"@.len() != "parameters"@.len());
    assert(!m.dom().contains("id"@));
    assert(m["name"@] == JsonView::Text(name));
    assert(m[field] == JsonView::Object(args));
    lemma_call_is_read(content, ids);
    let chunks = parser::closed_block(content, ids).0;
    assert(chunks =~= seq![chunks[0]]);
}

/// Whether a text is a JSON object with a name.
pub open spec fn is_call(part: Seq<char>) -> bool {
    json::parsed(part) matches Some(JsonView::Object(m)) && m.dom().contains("name"@)
        && m["name"@] is Text
}

/// A block that is no call as a whole gives out what the largest object in it would give out
/// as a block of its own, where an object in it is a call.
pub proof fn lemma_largest_object_counts(content: Seq<char>, ids: u64, i: int)
    requires
        text::trimmed(content).len() > 0,
        !is_call(text::trimmed(content)),
        parser::pattern_matches(parser::JSON_PATTERN@, text::trimmed(content)) matches Some(parts)
            && {
            &&& 0 <= i < parts.len()
            &&& is_call(parts[i])
            &&& text::trimmed(parts[i]) == parts[i]
            &&& parts[i].len() > 0
            &&& forall|k: int|
                0 <= k < parts.len() && is_call(#[trigger] parts[k]) ==> parts[k].len()
                    <= parts[i].len() && (parts[k].len() == parts[i].len() ==> i <= k)
        },
    ensures
        ({
            let parts = parser::pattern_matches(
                parser::JSON_PATTERN@,
                text::trimmed(content),
            )->0;
            parser::closed_block(content, ids) == parser::closed_block(parts[i], ids)
        }),
{
    let parts = parser::pattern_matches(parser::JSON_PATTERN@, text::trimmed(content))->0;
    parser::lemma_largest(parts);
    assert forall|k: int| 0 <= k < parts.len() implies parser::reads_as_call(#[trigger] parts[k])
        == is_call(parts[k]) by {}
    assert(parser::reads_as_call(parts[i]));
    assert(parser::largest(parts) == Some(i));
}

/// A block in which there is no call as JSON gives out the call whose name the patterns find
/// in it, with the arguments that they find there and a new id. Where they find no name the
/// block is an error that shows its beginning. A block of white space gives out nothing.
pub proof fn lemma_broken_blocks(content: Seq<char>, ids: u64)
    requires
        forall|part: Seq<char>|
            (part == text::trimmed(content) || (parser::pattern_matches(
                parser::JSON_PATTERN@,
                text::trimmed(content),
            ) matches Some(parts) && parts.contains(part))) ==> !#[trigger] is_call(part),
        ids < u64::MAX,
    ensures
        ({
            let body = text::trimmed(content);
            let (chunks, n) = parser::closed_block(content, ids);
            let args = match parser::pattern_group(parser::ARGS_PATTERN@, body) {
                Some(a) => a,
                None => match parser::pattern_group(parser::INPUT_PATTERN@, body) {
                    Some(a) => a,
                    None => "{}"@,
                },
            };
            if body.len() == 0 {
                chunks.len() == 0 && n == ids
            } else {
                match parser::pattern_group(parser::NAME_PATTERN@, body) {
                    None => n == ids && chunks == seq![
                        ChunkView::Error(
                            "failed to parse tool_call: "@ + text::clipped(body, 120),
                        ),
                    ],
                    Some(name) => {
                        &&& n == ids + 1
                        &&& chunks.len() == 1
                        &&& chunks[0] matches ChunkView::ToolCall(call) && {
                            &&& call.name == name
                            &&& call.id == "xml-"@ + text::decimal(n as nat)
                            &&& json::parsed(args) matches Some(v) ==> call.input == v
                            &&& json::parsed(args) is None && args.len() >= 2 && args[0] == '"'
                                && args[args.len() - 1] == '"' && json::parsed(
                                args.subrange(1, args.len() - 1),
                            ) is Some ==> call.input == json::parsed(
                                args.subrange(1, args.len() - 1),
                            )->0
                            &&& json::parsed(args) is None && !(args.len() >= 2 && args[0] == '"'
                                && args[args.len() - 1] == '"' && json::parsed(
                                args.subrange(1, args.len() - 1),
                            ) is Some) ==> call.input == JsonView::Object(Map::empty())
                        }
                    },
                }
            }
        }),
{
    let body = text::trimmed(content);
    assert(!is_call(body));
    if body.len() > 0 {
        if let Some(parts) = parser::pattern_matches(parser::JSON_PATTERN@, body) {
            parser::lemma_largest(parts);
            assert forall|k: int| 0 <= k < parts.len() implies !parser::reads_as_call(
                #[trigger] parts[k],
            ) by {
                assert(parts.contains(parts[k]));
                assert(!is_call(parts[k]));
            }
        }
    }
}

} // verus!
