//! The host's side of a connection with an artifact.
//!
//! The artifact greets with its name and its tools. From then on the host sends it
//! tool calls and settles them as replies come in, and brokers the requests to the
//! network that the artifact makes.

use vstd::prelude::*;
use crate::agent::error::Error;
use crate::agent::error::ErrorView;
use crate::json;
use crate::json::Json;
use crate::json::JsonNumber;
use crate::json::JsonNumberView;
use crate::json::JsonView;
use crate::mcp::hub;
use crate::mcp::hub::RegisteredServer;
use crate::mcp::hub::ServerView;
use crate::mcp::rpc;
use crate::mcp::rpc::JsonRpc;
use crate::mcp::rpc::RpcView;
use crate::net;
use crate::net::EgressError;
use crate::net::EgressErrorView;
use crate::net::FetchRequest;
use crate::net::FetchRequestView;
use crate::net::FetchResponse;
use crate::net::FetchResponseView;
use crate::sorted_map;
use crate::sorted_map::SortedMap;
use crate::text;

verus! {

// ---------------------------------------------------------------------------
// The greeting
// ---------------------------------------------------------------------------

/// The text, or another where there is none.
pub open spec fn text_or(text: Option<Seq<char>>, other: Seq<char>) -> Seq<char> {
    match text {
        Some(t) => t,
        None => other,
    }
}

/// What the host answers a greeting.
pub open spec fn welcome(msg: JsonView) -> RpcView {
    rpc::reply(
        msg.at("id"@),
        JsonView::Object(Map::empty().insert("protocolVersion"@, JsonView::Text("0.1.0"@))),
    )
}

/// The server that a greeting announces.
pub open spec fn announced(msg: JsonView) -> ServerView {
    ServerView {
        artifact_id: text_or(msg.at("params"@).at("artifactId"@).text(), "unknown"@),
        version: text_or(msg.at("params"@).at("version"@).text(), "0.0.0"@),
        tools: hub::declared(msg.at("params"@).at("tools"@)),
    }
}

/// Whether a message is a greeting.
pub open spec fn is_greeting(msg: JsonView) -> bool {
    msg.at("method"@).text() == Some("initialize"@)
}

/// A greeting that was accepted.
pub struct Greeting {
    pub server: RegisteredServer,
    /// The line to answer with.
    pub reply: String,
}

fn text_of_member(v: &Json, name: &str, other: &str) -> (t: String)
    ensures
        t@ == text_or(v@.at(name@).text(), other@),
{
    match v.at(name) {
        Json::Text(t) => t,
        _ => other.to_string(),
    }
}

/// Accepts the first message of a connection if it is a greeting.
pub fn greet_message(msg: &Json) -> (greeting: Option<Greeting>)
    ensures
        match greeting {
            Some(g) => is_greeting(msg@) && g.server@ == announced(msg@) && g.reply@
                == rpc::rpc_line(welcome(msg@)),
            None => !is_greeting(msg@),
        },
{
    let method = text_of_member(msg, "method", "");
    let is_text = match msg.at("method") {
        Json::Text(_) => true,
        _ => false,
    };
    if !is_text || !text::same_text(method.as_str(), "initialize") {
        return None;
    }
    let params = msg.at("params");
    let server = RegisteredServer {
        artifact_id: text_of_member(&params, "artifactId", "unknown"),
        version: text_of_member(&params, "version", "0.0.0"),
        tools: hub::read_tools(&params.at("tools")),
    };
    let result = Json::object().with("protocolVersion", Json::of_text("0.1.0"));
    let reply = JsonRpc::reply(msg.at("id"), result).line();
    Some(Greeting { server, reply })
}

/// Accepts the first line of a connection if it holds a greeting.
pub fn greet(line: &str) -> (greeting: Option<Greeting>)
    ensures
        match (greeting, json::parsed(line@)) {
            (Some(g), Some(msg)) => is_greeting(msg) && g.server@ == announced(msg) && g.reply@
                == rpc::rpc_line(welcome(msg)),
            (Some(g), None) => false,
            (None, Some(msg)) => !is_greeting(msg),
            (None, None) => true,
        },
{
    match json::parse(line) {
        Some(msg) => greet_message(&msg),
        None => None,
    }
}

// ---------------------------------------------------------------------------
// The connection
// ---------------------------------------------------------------------------

/// What a connection is.
#[verifier::ext_equal]
pub struct ConnectionView {
    /// The artifact at the other end, as it greeted.
    pub artifact_id: Seq<char>,
    /// Whether requests to the network are brokered.
    pub brokered: bool,
    /// The number of the last call.
    pub last: u64,
    /// The calls without a reply: who waits for each, by its id.
    pub pending: Map<Seq<char>, u64>,
}

/// What an incoming message asks of the host.
pub enum ServerStep {
    /// Nothing.
    Ignore,
    /// To tell the one who waits what became of the call.
    Settle { ticket: u64, result: Result<Json, Error> },
    /// To make a request to the network for the artifact.
    Fetch { app: String, id: Json, request: FetchRequest },
    /// To send a line.
    Reply { line: String },
}

/// What a step is.
#[allow(inconsistent_fields)]
#[verifier::ext_equal]
pub enum ServerStepView {
    Ignore,
    Settle { ticket: u64, result: Result<JsonView, ErrorView> },
    Fetch { app: Seq<char>, id: JsonView, request: FetchRequestView },
    Reply { line: Seq<char> },
}

/// What a result is.
pub open spec fn result_view(r: Result<Json, Error>) -> Result<JsonView, ErrorView> {
    match r {
        Ok(v) => Ok(v@),
        Err(e) => Err(e@),
    }
}

impl View for ServerStep {
    type V = ServerStepView;

    open spec fn view(&self) -> ServerStepView {
        match self {
            ServerStep::Ignore => ServerStepView::Ignore,
            ServerStep::Settle { ticket, result } => ServerStepView::Settle {
                ticket: *ticket,
                result: result_view(*result),
            },
            ServerStep::Fetch { app, id, request } => ServerStepView::Fetch {
                app: app@,
                id: id@,
                request: request@,
            },
            ServerStep::Reply { line } => ServerStepView::Reply { line: line@ },
        }
    }
}

/// The number of the call after this one.
pub open spec fn next_number(n: u64) -> u64 {
    if n == u64::MAX {
        0
    } else {
        (n + 1) as u64
    }
}

/// The id of the next call.
pub open spec fn next_id(c: ConnectionView) -> Seq<char> {
    text::decimal(next_number(c.last) as nat)
}

/// The message of a call.
pub open spec fn call_message(id: Seq<char>, tool: Seq<char>, input: JsonView) -> RpcView {
    rpc::request(
        JsonView::Text(id),
        "tools/call"@,
        JsonView::Object(
            Map::empty().insert("name"@, JsonView::Text(tool)).insert("arguments"@, input),
        ),
    )
}

/// The connection after the next call, for which the one with the ticket waits.
pub open spec fn called(c: ConnectionView, ticket: u64) -> ConnectionView {
    ConnectionView {
        last: next_number(c.last),
        pending: c.pending.insert(next_id(c), ticket),
        ..c
    }
}

/// The id of the call that a message replies to: a text, or a natural number in
/// decimal.
pub open spec fn reply_id(msg: JsonView) -> Option<Seq<char>> {
    match msg.at("id"@) {
        JsonView::Text(t) => Some(t),
        JsonView::Number(JsonNumberView::Natural(n)) => Some(text::decimal(n as nat)),
        _ => None,
    }
}

/// What a reply says of its call.
pub open spec fn outcome(msg: JsonView) -> Result<JsonView, ErrorView> {
    if msg.at("error"@) is Null {
        Ok(msg.at("result"@))
    } else {
        Err(
            ErrorView::ToolExecution(
                text_or(msg.at("error"@).at("message"@).text(), "tool error"@),
            ),
        )
    }
}

/// Whether a message asks for a request to the network.
pub open spec fn is_fetch(msg: JsonView) -> bool {
    msg.at("method"@).text() == Some("net.fetch"@)
}

/// What a message does to a connection and asks of the host. A request to the
/// network is made under the name that the artifact greeted with.
pub open spec fn received(c: ConnectionView, msg: JsonView) -> (ConnectionView, ServerStepView) {
    if c.brokered && is_fetch(msg) {
        match net::request_of_json(msg.at("params"@)) {
            Some(request) => (
                c,
                ServerStepView::Fetch { app: c.artifact_id, id: msg.at("id"@), request },
            ),
            None => (
                c,
                ServerStepView::Reply {
                    line: rpc::rpc_line(
                        rpc::failure(msg.at("id"@), rpc::BAD_PARAMS, "invalid net.fetch params"@),
                    ),
                },
            ),
        }
    } else {
        match reply_id(msg) {
            Some(id) => if c.pending.dom().contains(id) {
                (
                    ConnectionView { pending: c.pending.remove(id), ..c },
                    ServerStepView::Settle { ticket: c.pending[id], result: outcome(msg) },
                )
            } else {
                (c, ServerStepView::Ignore)
            },
            None => (c, ServerStepView::Ignore),
        }
    }
}

/// What became of a request to the network.
pub open spec fn fetched(r: Result<FetchResponse, EgressError>) -> Result<
    FetchResponseView,
    EgressErrorView,
> {
    match r {
        Ok(v) => Ok(v@),
        Err(e) => Err(e@),
    }
}

/// The answer to an artifact whose request to the network was made or refused.
pub open spec fn fetch_message(
    id: JsonView,
    result: Result<FetchResponseView, EgressErrorView>,
) -> RpcView {
    match result {
        Ok(response) => rpc::reply(id, net::response_json(response)),
        Err(e) => rpc::failure(id, rpc::CALL_FAILED, e.message()),
    }
}

/// The host's side of a connection.
pub struct Connection {
    artifact_id: String,
    brokered: bool,
    last: u64,
    pending: SortedMap<u64>,
}

impl View for Connection {
    type V = ConnectionView;

    closed spec fn view(&self) -> ConnectionView {
        ConnectionView {
            artifact_id: self.artifact_id@,
            brokered: self.brokered,
            last: self.last,
            pending: sorted_map::as_map(self.pending@),
        }
    }
}

impl Connection {
    /// The connection with an artifact that has just greeted.
    pub fn new(artifact_id: &str, brokered: bool) -> (c: Self)
        ensures
            c@ == (ConnectionView {
                artifact_id: artifact_id@,
                brokered,
                last: 0,
                pending: Map::empty(),
            }),
    {
        Connection {
            artifact_id: artifact_id.to_string(),
            brokered,
            last: 0,
            pending: SortedMap::new(),
        }
    }

    /// Forwards a call for the one with the ticket: gives the line to send.
    pub fn call(&mut self, tool: &str, input: &Json, ticket: u64) -> (line: String)
        ensures
            final(self)@ == called(old(self)@, ticket),
            line@ == rpc::rpc_line(call_message(next_id(old(self)@), tool@, input@)),
            json::plain(input@, 125) ==> json::parsed(line@.drop_last()) == Some(
                rpc::rpc_json(call_message(next_id(old(self)@), tool@, input@)),
            ),
    {
        let number: u64 = if self.last == u64::MAX {
            0
        } else {
            self.last + 1
        };
        let id = text::decimal_text(number);
        self.last = number;
        self.pending.insert(id.as_str(), ticket);
        let params = Json::object().with("name", Json::of_text(tool)).with(
            "arguments",
            input.copy(),
        );
        proof {
            let message = call_message(id@, tool@, input@);
            if json::plain(input@, 125) {
                let members = params@->Object_0;
                assert forall|k: Seq<char>| members.dom().contains(k) implies json::plain(
                    #[trigger] members[k],
                    125,
                ) by {
                    if k != "arguments"@ {
                        assert(k == "name"@);
                    }
                }
                rpc::lemma_plain(message, 126);
            }
        }
        JsonRpc::request(Json::of_text(id.as_str()), "tools/call", params).line()
    }

    /// Takes a message of the artifact in.
    pub fn receive_message(&mut self, msg: &Json) -> (step: ServerStep)
        ensures
            (final(self)@, step@) == received(old(self)@, msg@),
    {
        let asks = match msg.at("method") {
            Json::Text(t) => text::same_text(t.as_str(), "net.fetch"),
            _ => false,
        };
        assert(asks == is_fetch(msg@));
        if self.brokered && asks {
            return match FetchRequest::from_json(&msg.at("params")) {
                Some(request) => ServerStep::Fetch {
                    app: self.artifact_id.clone(),
                    id: msg.at("id"),
                    request,
                },
                None => ServerStep::Reply {
                    line: JsonRpc::failure(
                        msg.at("id"),
                        rpc::BAD_PARAMS,
                        "invalid net.fetch params",
                    ).line(),
                },
            };
        }
        let id = match msg.at("id") {
            Json::Text(t) => t,
            Json::Number(JsonNumber::Natural(n)) => text::decimal_text(n),
            _ => {
                return ServerStep::Ignore;
            },
        };
        assert(reply_id(msg@) == Some(id@));
        match self.pending.remove(id.as_str()) {
            Some(ticket) => {
                let error = msg.at("error");
                let result = match error {
                    Json::Null => Ok(msg.at("result")),
                    other => Err(
                        Error::ToolExecution(text_of_member(&other, "message", "tool error")),
                    ),
                };
                ServerStep::Settle { ticket, result }
            },
            None => {
                assert(self@.pending =~= old(self)@.pending);
                ServerStep::Ignore
            },
        }
    }

    /// Takes a line of the artifact in. A line that holds no message is passed over.
    pub fn receive(&mut self, line: &str) -> (step: ServerStep)
        ensures
            (final(self)@, step@) == (match json::parsed(line@) {
                Some(msg) => received(old(self)@, msg),
                None => (old(self)@, ServerStepView::Ignore),
            }),
    {
        match json::parse(line) {
            Some(msg) => self.receive_message(&msg),
            None => ServerStep::Ignore,
        }
    }
}

/// The line that answers an artifact whose request to the network was made or
/// refused.
pub fn fetch_reply(id: Json, result: &Result<FetchResponse, EgressError>) -> (line: String)
    ensures
        line@ == rpc::rpc_line(fetch_message(id@, fetched(*result))),
{
    match result {
        Ok(response) => JsonRpc::reply(id, response.to_json()).line(),
        Err(e) => JsonRpc::failure(id, rpc::CALL_FAILED, e.message().as_str()).line(),
    }
}

// ---------------------------------------------------------------------------
// What a connection promises
// ---------------------------------------------------------------------------

/// A reply with the id of a call settles that call, for the one who waits for it and
/// with what the reply says, and the call is settled once only.
pub proof fn lemma_settled_once(
    c: ConnectionView,
    ticket: u64,
    result: JsonView,
    code: i32,
    message: Seq<char>,
)
    ensures
        ({
            let id = JsonView::Text(next_id(c));
            let good = rpc::rpc_json(rpc::reply(id, result));
            let bad = rpc::rpc_json(rpc::failure(id, code, message));
            let after = ConnectionView {
                pending: c.pending.remove(next_id(c)),
                ..called(c, ticket)
            };
            &&& received(called(c, ticket), good) == (
                after,
                ServerStepView::Settle { ticket, result: Ok(result) },
            )
            &&& received(called(c, ticket), bad) == (
                after,
                ServerStepView::Settle { ticket, result: Err(ErrorView::ToolExecution(message)) },
            )
            &&& received(after, good) == (after, ServerStepView::Ignore)
            &&& received(after, bad) == (after, ServerStepView::Ignore)
        }),
{
    let id = JsonView::Text(next_id(c));
    rpc::lemma_members(rpc::reply(id, result));
    rpc::lemma_members(rpc::failure(id, code, message));
    let after = ConnectionView { pending: c.pending.remove(next_id(c)), ..called(c, ticket) };
    assert(called(c, ticket).pending.remove(next_id(c)) =~= after.pending);
}

/// An artifact's request to the network is made under the name that it greeted with,
/// whatever the message says, and leaves the calls as they are.
pub proof fn lemma_fetch_identity(c: ConnectionView, msg: JsonView)
    requires
        c.brokered,
        is_fetch(msg),
    ensures
        received(c, msg).0 == c,
        received(c, msg).1 matches ServerStepView::Fetch { app, .. } ==> app == c.artifact_id,
        !(received(c, msg).1 is Settle),
{
}

} // verus!
