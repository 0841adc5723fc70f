//! The artifact's side of a connection with the host.

use vstd::prelude::*;
use crate::agent::error::Error;
use crate::agent::error::ErrorView;
use crate::agent::provider::ToolSpecView;
use crate::json;
use crate::json::Json;
use crate::json::JsonNumberView;
use crate::json::JsonView;
use crate::mcp::hub;
use crate::mcp::hub::McpToolSpec;
use crate::mcp::hub::ServerView;
use crate::mcp::rpc;
use crate::mcp::rpc::JsonRpc;
use crate::mcp::rpc::RpcView;
use crate::mcp::server;
use crate::mcp::server::ConnectionView;
use crate::mcp::server::ServerStepView;
use crate::text;

verus! {

/// What the artifact does with a message.
pub enum ClientStep {
    /// Nothing.
    Ignore,
    /// Runs the handler of a tool; the id goes with the answer.
    Call { id: Json, tool: String, arguments: Json },
    /// Sends a line.
    Reply { line: String },
}

/// What a step is.
#[allow(inconsistent_fields)]
#[verifier::ext_equal]
pub enum ClientStepView {
    Ignore,
    Call { id: JsonView, tool: Seq<char>, arguments: JsonView },
    Reply { line: Seq<char> },
}

impl View for ClientStep {
    type V = ClientStepView;

    open spec fn view(&self) -> ClientStepView {
        match self {
            ClientStep::Ignore => ClientStepView::Ignore,
            ClientStep::Call { id, tool, arguments } => ClientStepView::Call {
                id: id@,
                tool: tool@,
                arguments: arguments@,
            },
            ClientStep::Reply { line } => ClientStepView::Reply { line: line@ },
        }
    }
}

/// The greeting of an artifact.
pub open spec fn hello_message(a: ServerView) -> RpcView {
    rpc::request(
        JsonView::Number(JsonNumberView::Natural(1)),
        "initialize"@,
        JsonView::Object(
            Map::empty().insert("artifactId"@, JsonView::Text(a.artifact_id)).insert(
                "version"@,
                JsonView::Text(a.version),
            ).insert("tools"@, hub::tools_json(a.tools)),
        ),
    )
}

/// What an artifact does with a message: it runs the tool that a call names, and
/// refuses the call of a tool that it lacks.
pub open spec fn handled(a: ServerView, msg: JsonView) -> ClientStepView {
    if msg.at("method"@).text() != Some("tools/call"@) {
        ClientStepView::Ignore
    } else {
        let tool = server::text_or(msg.at("params"@).at("name"@).text(), ""@);
        if hub::offers(a, tool) {
            ClientStepView::Call {
                id: msg.at("id"@),
                tool,
                arguments: msg.at("params"@).at("arguments"@),
            }
        } else {
            ClientStepView::Reply {
                line: rpc::rpc_line(
                    rpc::failure(msg.at("id"@), rpc::NOT_KNOWN, "unknown tool: "@ + tool),
                ),
            }
        }
    }
}

/// The answer to a call.
pub open spec fn answer_message(id: JsonView, result: Result<JsonView, ErrorView>) -> RpcView {
    match result {
        Ok(v) => rpc::reply(id, v),
        Err(e) => rpc::failure(id, rpc::CALL_FAILED, e.message()),
    }
}

/// The artifact's side of a connection.
pub struct McpClient {
    pub socket_path: String,
    pub artifact_id: String,
    pub version: String,
    pub tools: Vec<McpToolSpec>,
}

impl View for McpClient {
    type V = ServerView;

    open spec fn view(&self) -> ServerView {
        ServerView {
            artifact_id: self.artifact_id@,
            version: self.version@,
            tools: hub::tools_view(self.tools@),
        }
    }
}

impl McpClient {
    /// An artifact without tools.
    pub fn new(socket_path: &str, artifact_id: &str, version: &str) -> (client: Self)
        ensures
            client.socket_path@ == socket_path@,
            client@ == (ServerView {
                artifact_id: artifact_id@,
                version: version@,
                tools: Seq::empty(),
            }),
    {
        let client = McpClient {
            socket_path: socket_path.to_string(),
            artifact_id: artifact_id.to_string(),
            version: version.to_string(),
            tools: Vec::new(),
        };
        assert(client@.tools =~= Seq::<ToolSpecView>::empty());
        client
    }

    /// Offers one more tool.
    pub fn register_tool(&mut self, tool: McpToolSpec)
        ensures
            final(self).socket_path == old(self).socket_path,
            final(self)@ == (ServerView { tools: old(self)@.tools.push(tool@), ..old(self)@ }),
    {
        self.tools.push(tool);
        assert(self@.tools =~= old(self)@.tools.push(tool@));
    }

    /// The line to greet with.
    pub fn hello(&self) -> (line: String)
        ensures
            line@ == rpc::rpc_line(hello_message(self@)),
    {
        let params = Json::object().with(
            "artifactId",
            Json::of_text(self.artifact_id.as_str()),
        ).with("version", Json::of_text(self.version.as_str())).with(
            "tools",
            hub::write_tools(&self.tools),
        );
        JsonRpc::request(Json::of_natural(1), "initialize", params).line()
    }

    /// Takes the answer to the greeting: the connection may have been closed instead,
    /// or the answer be unreadable.
    pub fn greeted(reply: Option<&str>) -> (result: Result<(), Error>)
        ensures
            match (reply, result) {
                (None, Err(e)) => e@ == ErrorView::Transport(
                    "connection closed during handshake"@,
                ),
                (None, Ok(())) => false,
                (Some(line), Ok(())) => json::reading(line@) is Ok,
                (Some(line), Err(e)) => json::reading(line@) matches Err(words) && e@
                    == ErrorView::Parse(words),
            },
    {
        match reply {
            None => Err(Error::Transport("connection closed during handshake".to_string())),
            Some(line) => match json::read(line) {
                Ok(_) => Ok(()),
                Err(words) => Err(Error::Parse(words)),
            },
        }
    }

    /// Whether the artifact has a tool.
    fn has_tool(&self, name: &str) -> (r: bool)
        ensures
            r == hub::offers(self@, name@),
    {
        let mut i: usize = 0;
        while i < self.tools.len()
            invariant
                i <= self.tools.len(),
                forall|k: int| 0 <= k < i ==> (#[trigger] self@.tools[k]).name != name@,
            decreases self.tools.len() - i,
        {
            assert(self@.tools[i as int] == self.tools@[i as int]@);
            if text::same_text(self.tools[i].name.as_str(), name) {
                return true;
            }
            i += 1;
        }
        false
    }

    /// Takes a message of the host in.
    pub fn handle_message(&self, msg: &Json) -> (step: ClientStep)
        ensures
            step@ == handled(self@, msg@),
    {
        let is_call = match msg.at("method") {
            Json::Text(t) => text::same_text(t.as_str(), "tools/call"),
            _ => false,
        };
        if !is_call {
            return ClientStep::Ignore;
        }
        let params = msg.at("params");
        let tool = match params.at("name") {
            Json::Text(t) => t,
            _ => "".to_string(),
        };
        if self.has_tool(tool.as_str()) {
            ClientStep::Call { id: msg.at("id"), tool, arguments: params.at("arguments") }
        } else {
            let words = "unknown tool: ".to_string().concat(tool.as_str());
            ClientStep::Reply {
                line: JsonRpc::failure(msg.at("id"), rpc::NOT_KNOWN, words.as_str()).line(),
            }
        }
    }

    /// Takes a line of the host in. A line that holds no message is passed over.
    pub fn handle(&self, line: &str) -> (step: ClientStep)
        ensures
            step@ == (match json::parsed(line@) {
                Some(msg) => handled(self@, msg),
                None => ClientStepView::Ignore,
            }),
    {
        match json::parse(line) {
            Some(msg) => self.handle_message(&msg),
            None => ClientStep::Ignore,
        }
    }

    /// The line that answers a call with what its handler gave.
    pub fn answer(id: Json, result: Result<Json, Error>) -> (line: String)
        ensures
            line@ == rpc::rpc_line(answer_message(id@, server::result_view(result))),
            json::plain(id@, 126) && (result matches Ok(v) ==> json::plain(v@, 126))
                ==> json::parsed(line@.drop_last()) == Some(
                rpc::rpc_json(answer_message(id@, server::result_view(result))),
            ),
    {
        proof {
            let message = answer_message(id@, server::result_view(result));
            if rpc::plain_parts(message, 126) {
                rpc::lemma_plain(message, 126);
            }
        }
        match result {
            Ok(v) => JsonRpc::reply(id, v).line(),
            Err(e) => JsonRpc::failure(id, rpc::CALL_FAILED, e.message().as_str()).line(),
        }
    }
}

// ---------------------------------------------------------------------------
// What the two sides promise each other
// ---------------------------------------------------------------------------

/// An artifact that greets is registered as what it is: with its name, its version
/// and its tools.
pub proof fn lemma_greeting_arrives(a: ServerView)
    ensures
        server::is_greeting(rpc::rpc_json(hello_message(a))),
        server::announced(rpc::rpc_json(hello_message(a))) == a,
{
    rpc::lemma_members(hello_message(a));
    hub::lemma_tools_come_back(a.tools);
    reveal_strlit("artifactId");
    reveal_strlit("version");
    reveal_strlit("tools");
    assert("artifactId"@.len() == 10 && "version"@.len() == 7 && "tools"@.len() == 5);
}

/// A call makes the round trip: the artifact is asked for the tool with the input of
/// the caller, and what its handler gives comes back to the one who waits, a failure
/// as its words.
pub proof fn lemma_call_makes_the_round_trip(
    c: ConnectionView,
    a: ServerView,
    tool: Seq<char>,
    input: JsonView,
    ticket: u64,
    result: Result<JsonView, ErrorView>,
)
    requires
        hub::offers(a, tool),
    ensures
        ({
            let id = JsonView::Text(server::next_id(c));
            let call = rpc::rpc_json(server::call_message(server::next_id(c), tool, input));
            let answer = rpc::rpc_json(answer_message(id, result));
            &&& handled(a, call) == (ClientStepView::Call { id, tool, arguments: input })
            &&& server::received(server::called(c, ticket), answer).1 == (ServerStepView::Settle {
                ticket,
                result: match result {
                    Ok(v) => Ok(v),
                    Err(e) => Err(ErrorView::ToolExecution(e.message())),
                },
            })
        }),
{
    let id = JsonView::Text(server::next_id(c));
    rpc::lemma_members(server::call_message(server::next_id(c), tool, input));
    reveal_strlit("name");
    reveal_strlit("arguments");
    assert("name"@.len() != "arguments"@.len());
    match result {
        Ok(v) => {
            server::lemma_settled_once(c, ticket, v, 0, Seq::empty());
        },
        Err(e) => {
            server::lemma_settled_once(c, ticket, JsonView::Null, rpc::CALL_FAILED, e.message());
        },
    }
}

/// The call of a tool that the artifact lacks is refused, and the one who waits is
/// told which.
pub proof fn lemma_unknown_tool_is_refused(
    c: ConnectionView,
    a: ServerView,
    tool: Seq<char>,
    input: JsonView,
    ticket: u64,
)
    requires
        !hub::offers(a, tool),
    ensures
        ({
            let id = JsonView::Text(server::next_id(c));
            let call = rpc::rpc_json(server::call_message(server::next_id(c), tool, input));
            let refusal = rpc::failure(id, rpc::NOT_KNOWN, "unknown tool: "@ + tool);
            &&& handled(a, call) == (ClientStepView::Reply { line: rpc::rpc_line(refusal) })
            &&& server::received(server::called(c, ticket), rpc::rpc_json(refusal)).1 == (
            ServerStepView::Settle {
                ticket,
                result: Err(ErrorView::ToolExecution("unknown tool: "@ + tool)),
            })
        }),
{
    rpc::lemma_members(server::call_message(server::next_id(c), tool, input));
    reveal_strlit("name");
    reveal_strlit("arguments");
    assert("name"@.len() != "arguments"@.len());
    server::lemma_settled_once(c, ticket, JsonView::Null, rpc::NOT_KNOWN, "unknown tool: "@ + tool);
}

} // verus!
