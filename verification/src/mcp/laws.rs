//! What goes over the wire between the host and its artifacts, where calls go, and how
//! artifacts are brought up.

use vstd::prelude::*;
use crate::agent::capability;
use crate::agent::error::Error;
use crate::agent::error::ErrorView;
use crate::agent::provider::ToolSpecView;
use crate::agent::tool::ToolRegistry;
use crate::json;
use crate::json::Json;
use crate::json::JsonNumberView;
use crate::json::JsonView;
use crate::mcp::client;
use crate::mcp::client::ClientStep;
use crate::mcp::client::ClientStepView;
use crate::mcp::client::McpClient;
use crate::mcp::hub;
use crate::mcp::hub::InstalledApp;
use crate::mcp::hub::McpHub;
use crate::mcp::hub::McpToolSpec;
use crate::mcp::hub::RegisteredServer;
use crate::mcp::hub::ServerView;
use crate::mcp::loader;
use crate::mcp::loader::FirecrackerConfig;
use crate::mcp::loader::LoadPlanView;
use crate::mcp::loader::LoaderView;
use crate::mcp::loader::Manifest;
use crate::mcp::loader::PluginLoader;
use crate::mcp::rpc;
use crate::mcp::server;
use crate::mcp::server::Connection;
use crate::mcp::server::ConnectionView;
use crate::mcp::server::ServerStep;
use crate::mcp::server::ServerStepView;
use crate::net;
use crate::net::EgressErrorView;
use crate::net::FetchResponseView;
use crate::net::HostPortView;
use crate::sorted_map;
use crate::text;

verus! {

// ---------------------------------------------------------------------------
// Messages
// ---------------------------------------------------------------------------

/// A request names the protocol, its id, its method and its parameters, and carries neither a
/// result nor an error.
pub proof fn lemma_request_on_the_wire(id: JsonView, method: Seq<char>, params: JsonView)
    ensures
        rpc::rpc_json(rpc::request(id, method, params)) matches JsonView::Object(m) && {
            &&& m.dom() == set!["jsonrpc"@, "id"@, "method"@, "params"@]
            &&& m["jsonrpc"@] == JsonView::Text("2.0"@)
            &&& m["id"@] == id
            &&& m["method"@] == JsonView::Text(method)
            &&& m["params"@] == params
        },
{
    lemma_member_names();
    let m = rpc::rpc_json(rpc::request(id, method, params))->Object_0;
    assert(m.dom() =~= set!["jsonrpc"@, "id"@, "method"@, "params"@]);
}

/// A reply names the protocol and the id of the call, and carries the result.
pub proof fn lemma_reply_on_the_wire(id: JsonView, result: JsonView)
    ensures
        rpc::rpc_json(rpc::reply(id, result)) matches JsonView::Object(m) && {
            &&& m.dom() == set!["jsonrpc"@, "id"@, "result"@]
            &&& m["jsonrpc"@] == JsonView::Text("2.0"@)
            &&& m["id"@] == id
            &&& m["result"@] == result
        },
{
    lemma_member_names();
    let m = rpc::rpc_json(rpc::reply(id, result))->Object_0;
    assert(m.dom() =~= set!["jsonrpc"@, "id"@, "result"@]);
}

/// A failure names the protocol and the id of the call, and carries the code and the words.
pub proof fn lemma_failure_on_the_wire(id: JsonView, code: i32, message: Seq<char>)
    ensures
        rpc::rpc_json(rpc::failure(id, code, message)) matches JsonView::Object(m) && {
            &&& m.dom() == set!["jsonrpc"@, "id"@, "error"@]
            &&& m["jsonrpc"@] == JsonView::Text("2.0"@)
            &&& m["id"@] == id
            &&& m["error"@] matches JsonView::Object(e) && {
                &&& e.dom() == set!["code"@, "message"@]
                &&& e["message"@] == JsonView::Text(message)
                &&& e["code"@] == JsonView::Number(
                    if code < 0 {
                        JsonNumberView::Negative(code as i64)
                    } else {
                        JsonNumberView::Natural(code as u64)
                    },
                )
            }
        },
        rpc::CALL_FAILED == -32000,
        rpc::NOT_KNOWN == -32601,
        rpc::BAD_PARAMS == -32602,
{
    lemma_member_names();
    reveal_strlit("code");
    reveal_strlit("message");
    assert("code"@.len() == 4 && "message"@.len() == 7);
    let m = rpc::rpc_json(rpc::failure(id, code, message))->Object_0;
    assert(m.dom() =~= set!["jsonrpc"@, "id"@, "error"@]);
    let e = m["error"@]->Object_0;
    assert(e.dom() =~= set!["code"@, "message"@]);
}

proof fn lemma_member_names()
    ensures
        "jsonrpc"@ != "id"@,
        "jsonrpc"@ != "method"@,
        "jsonrpc"@ != "params"@,
        "jsonrpc"@ != "result"@,
        "jsonrpc"@ != "error"@,
        "id"@ != "method"@,
        "id"@ != "params"@,
        "id"@ != "result"@,
        "id"@ != "error"@,
        "method"@ != "params"@,
        "method"@ != "result"@,
        "method"@ != "error"@,
        "params"@ != "result"@,
        "params"@ != "error"@,
        "result"@ != "error"@,
{
    reveal_strlit("jsonrpc");
    reveal_strlit("id");
    reveal_strlit("method");
    reveal_strlit("params");
    reveal_strlit("result");
    reveal_strlit("error");
    assert("method"@[0] == 'm' && "params"@[0] == 'p' && "result"@[0] == 'r');
    assert("jsonrpc"@.len() == 7 && "id"@.len() == 2 && "error"@.len() == 5);
}

/// A message is one line: its document and a line break.
pub proof fn lemma_one_line(id: JsonView, result: JsonView)
    ensures
        rpc::rpc_line(rpc::reply(id, result)) == json::written(
            rpc::rpc_json(rpc::reply(id, result)),
        ).push('\n'),
{
    reveal_strlit("\n");
    assert(rpc::rpc_line(rpc::reply(id, result)) =~= json::written(
        rpc::rpc_json(rpc::reply(id, result)),
    ).push('\n'));
}

/// An artifact greets with its name, its version and every one of its tools, in order.
pub proof fn lemma_hello_tells_all(a: ServerView)
    ensures
        rpc::rpc_json(client::hello_message(a)) matches JsonView::Object(m) && {
            &&& m["id"@] == JsonView::Number(JsonNumberView::Natural(1))
            &&& m["method"@] == JsonView::Text("initialize"@)
            &&& m["params"@] matches JsonView::Object(p) && {
                &&& p["artifactId"@] == JsonView::Text(a.artifact_id)
                &&& p["version"@] == JsonView::Text(a.version)
                &&& p["tools"@] matches JsonView::Array(tools) && tools.len() == a.tools.len()
                    && forall|i: int|
                    #![trigger a.tools[i]]
                    0 <= i < a.tools.len() ==> (tools[i] matches JsonView::Object(t)
                        && t["name"@] == JsonView::Text(a.tools[i].name) && t["description"@]
                        == JsonView::Text(a.tools[i].description) && t["input_schema"@]
                        == a.tools[i].input_schema)
            }
        },
{
    lemma_member_names();
    reveal_strlit("artifactId");
    reveal_strlit("version");
    reveal_strlit("tools");
    assert("artifactId"@.len() == 10 && "version"@.len() == 7 && "tools"@.len() == 5);
    reveal_strlit("name");
    reveal_strlit("description");
    reveal_strlit("input_schema");
    assert("name"@.len() == 4 && "description"@.len() == 11 && "input_schema"@.len() == 12);
}

/// A tool is read from an object with its three members, or from a list of the three values,
/// and without one of them there is none.
pub proof fn lemma_tool_is_read(t: ToolSpecView, m: Map<Seq<char>, JsonView>)
    ensures
        hub::tool_of_json(
            JsonView::Array(
                seq![JsonView::Text(t.name), JsonView::Text(t.description), t.input_schema],
            ),
        ) == Some(t),
        hub::tool_of_json(
            JsonView::Object(
                m.insert("name"@, JsonView::Text(t.name)).insert(
                    "description"@,
                    JsonView::Text(t.description),
                ).insert("input_schema"@, t.input_schema),
            ),
        ) == Some(t),
        hub::tool_of_json(JsonView::Object(m.remove("name"@))) is None,
        hub::tool_of_json(JsonView::Object(m.remove("description"@))) is None,
        hub::tool_of_json(JsonView::Object(m.remove("input_schema"@))) is None,
{
    reveal_strlit("name");
    reveal_strlit("description");
    reveal_strlit("input_schema");
    assert("name"@.len() == 4 && "description"@.len() == 11 && "input_schema"@.len() == 12);
}

/// The host knows an artifact by what it greets with, and takes it as unknown where it does
/// not say. It answers under the id of the greeting.
pub proof fn lemma_greeting(
    m: Map<Seq<char>, JsonView>,
    p: Map<Seq<char>, JsonView>,
    id: Seq<char>,
    version: Seq<char>,
)
    requires
        m.dom().contains("params"@),
        m["params"@] == JsonView::Object(p),
    ensures
        p.dom().contains("artifactId"@) && p["artifactId"@] == JsonView::Text(id)
            ==> server::announced(JsonView::Object(m)).artifact_id == id,
        !p.dom().contains("artifactId"@) ==> server::announced(JsonView::Object(m)).artifact_id
            == "unknown"@,
        p.dom().contains("version"@) && p["version"@] == JsonView::Text(version)
            ==> server::announced(JsonView::Object(m)).version == version,
        !p.dom().contains("version"@) ==> server::announced(JsonView::Object(m)).version
            == "0.0.0"@,
        !p.dom().contains("tools"@) ==> server::announced(JsonView::Object(m)).tools.len() == 0,
        m.dom().contains("id"@) ==> (rpc::rpc_json(
            server::welcome(JsonView::Object(m)),
        ) matches JsonView::Object(w) && w["id"@] == m["id"@] && w["result"@] == JsonView::Object(
            map!["protocolVersion"@ => JsonView::Text("0.1.0"@)],
        )),
        server::is_greeting(JsonView::Object(m)) <==> m.dom().contains("method"@) && m["method"@]
            == JsonView::Text("initialize"@),
{
    lemma_member_names();
}

/// A call names the tool and carries the input of the caller, under the id by which its reply
/// is known.
pub proof fn lemma_call_on_the_wire(id: Seq<char>, tool: Seq<char>, input: JsonView)
    ensures
        rpc::rpc_json(server::call_message(id, tool, input)) matches JsonView::Object(m) && {
            &&& m["id"@] == JsonView::Text(id)
            &&& m["method"@] == JsonView::Text("tools/call"@)
            &&& m["params"@] matches JsonView::Object(p) && p["name"@] == JsonView::Text(tool)
                && p["arguments"@] == input
        },
{
    lemma_member_names();
    reveal_strlit("name");
    reveal_strlit("arguments");
    assert("name"@.len() == 4 && "arguments"@.len() == 9);
}

/// An artifact that is asked for a tool that it has runs it with the arguments; asked for
/// another it says so, under the id of the call; and what is no call it passes over.
pub proof fn lemma_artifact_answers(
    a: ServerView,
    m: Map<Seq<char>, JsonView>,
    p: Map<Seq<char>, JsonView>,
    tool: Seq<char>,
)
    requires
        m.dom().contains("params"@),
        m["params"@] == JsonView::Object(p),
        m.dom().contains("id"@),
        p.dom().contains("name"@),
        p["name"@] == JsonView::Text(tool),
        p.dom().contains("arguments"@),
    ensures
        ({
            let owned = exists|i: int| 0 <= i < a.tools.len() && (#[trigger] a.tools[i]).name == tool;
            let asked = m.dom().contains("method"@) && m["method"@] == JsonView::Text(
                "tools/call"@,
            );
            match client::handled(a, JsonView::Object(m)) {
                ClientStepView::Ignore => !asked,
                ClientStepView::Call { id, tool: t, arguments } => asked && owned && id == m["id"@]
                    && t == tool && arguments == p["arguments"@],
                ClientStepView::Reply { line } => asked && !owned && line == rpc::rpc_line(
                    rpc::failure(m["id"@], -32601 as i32, "unknown tool: "@ + tool),
                ),
            }
        }),
{
}

/// What the handler of a tool gave is answered under the id of the call: a value as the
/// result, a failure as its words.
pub proof fn lemma_answer_on_the_wire(id: JsonView, result: Result<JsonView, ErrorView>)
    ensures
        rpc::rpc_json(client::answer_message(id, result)) matches JsonView::Object(m) && m["id"@]
            == id && match result {
            Ok(v) => m["result"@] == v && !m.dom().contains("error"@),
            Err(e) => !m.dom().contains("result"@) && (m["error"@] matches JsonView::Object(x)
                && x["message"@] == JsonView::Text(e.message()) && x["code"@] == JsonView::Number(
                JsonNumberView::Negative(-32000 as i64),
            )),
        },
{
    lemma_member_names();
    match result {
        Ok(v) => lemma_reply_on_the_wire(id, v),
        Err(e) => lemma_failure_on_the_wire(id, -32000 as i32, e.message()),
    }
}

/// A reply settles the call with its id, for the one who waits for that call and no other: a
/// result as it is, an error as its words. The call is then no longer open, and every other
/// one still is.
pub proof fn lemma_settled(
    c: ConnectionView,
    m: Map<Seq<char>, JsonView>,
    id: Seq<char>,
    e: Map<Seq<char>, JsonView>,
    words: Seq<char>,
)
    requires
        c.pending.dom().contains(id),
        m.dom().contains("id"@),
        m["id"@] == JsonView::Text(id),
        !m.dom().contains("method"@),
    ensures
        ({
            let (after, step) = server::received(c, JsonView::Object(m));
            &&& after == (ConnectionView { pending: c.pending.remove(id), ..c })
            &&& step matches ServerStepView::Settle { ticket, result } && ticket == c.pending[id]
                && {
                &&& !m.dom().contains("error"@) && m.dom().contains("result"@) ==> result == Ok::<
                    JsonView,
                    ErrorView,
                >(m["result"@])
                &&& m.dom().contains("error"@) && m["error"@] == JsonView::Object(e)
                    && e.dom().contains("message"@) && e["message"@] == JsonView::Text(words)
                    ==> result == Err::<JsonView, ErrorView>(ErrorView::ToolExecution(words))
                &&& m.dom().contains("error"@) && m["error"@] == JsonView::Object(e)
                    && !e.dom().contains("message"@) ==> result == Err::<JsonView, ErrorView>(
                    ErrorView::ToolExecution("tool error"@),
                )
            }
        }),
{
}

/// A reply whose id is a number settles the call with that number; a reply to no open call
/// changes nothing.
pub proof fn lemma_reply_by_number(c: ConnectionView, m: Map<Seq<char>, JsonView>, n: u64)
    requires
        m.dom().contains("id"@),
        m["id"@] == JsonView::Number(JsonNumberView::Natural(n)),
        !m.dom().contains("method"@),
    ensures
        match server::received(c, JsonView::Object(m)).1 {
            ServerStepView::Settle { ticket, .. } => c.pending.dom().contains(
                text::decimal(n as nat),
            ) && ticket == c.pending[text::decimal(n as nat)],
            ServerStepView::Ignore => !c.pending.dom().contains(text::decimal(n as nat))
                && server::received(c, JsonView::Object(m)).0 == c,
            _ => false,
        },
{
}

/// An artifact's request to the network is handed on whole where requests are brokered, and a
/// request that cannot be read is refused under its id.
pub proof fn lemma_fetch_is_handed_on(
    c: ConnectionView,
    m: Map<Seq<char>, JsonView>,
    params: JsonView,
)
    requires
        c.brokered,
        m.dom().contains("method"@),
        m["method"@] == JsonView::Text("net.fetch"@),
        m.dom().contains("id"@),
        m.dom().contains("params"@),
        m["params"@] == params,
    ensures
        match (net::request_of_json(params), server::received(c, JsonView::Object(m)).1) {
            (Some(r), ServerStepView::Fetch { app, id, request }) => app == c.artifact_id && id
                == m["id"@] && request == r,
            (None, ServerStepView::Reply { line }) => line == rpc::rpc_line(
                rpc::failure(m["id"@], -32602 as i32, "invalid net.fetch params"@),
            ),
            _ => false,
        },
{
}

/// What came of a request to the network is told under its id: the whole answer, or why there
/// is none.
pub proof fn lemma_fetch_is_answered(
    id: JsonView,
    response: FetchResponseView,
    refusal: EgressErrorView,
)
    ensures
        rpc::rpc_json(server::fetch_message(id, Ok(response))) matches JsonView::Object(m)
            && m["id"@] == id && (m["result"@] matches JsonView::Object(r) && r["status"@]
            == JsonView::Number(JsonNumberView::Natural(response.status as u64)) && r["body"@]
            == JsonView::Text(response.body)),
        rpc::rpc_json(server::fetch_message(id, Err(refusal))) matches JsonView::Object(m)
            && m["id"@] == id && (m["error"@] matches JsonView::Object(e) && e["message"@]
            == JsonView::Text(refusal.message()) && e["code"@] == JsonView::Number(
            JsonNumberView::Negative(-32000 as i64),
        )),
{
    lemma_reply_on_the_wire(id, net::response_json(response));
    net::lemma_answer_is_written(response);
    lemma_failure_on_the_wire(id, -32000 as i32, refusal.message());
}

/// The calls of a connection are numbered one after the other, from zero again behind the
/// largest number, and each is open from when it is sent, beside those before it.
pub proof fn lemma_numbered(c: ConnectionView, ticket: u64)
    ensures
        server::called(c, ticket).last == if c.last == u64::MAX {
            0
        } else {
            c.last + 1
        },
        server::called(c, ticket).pending == c.pending.insert(
            text::decimal(server::called(c, ticket).last as nat),
            ticket,
        ),
        server::called(c, ticket).artifact_id == c.artifact_id,
        server::called(c, ticket).brokered == c.brokered,
{
}

/// An artifact that was closed on while it greeted tells of a failed transport.
pub proof fn lemma_closed_on(none: Option<&str>, result: Result<(), Error>)
    requires
        none is None,
        call_ensures(McpClient::greeted, (none,), result),
    ensures
        result matches Err(e) && e@ == ErrorView::Transport("connection closed during handshake"@),
{
}

// ---------------------------------------------------------------------------
// Where calls go
// ---------------------------------------------------------------------------

/// A call goes to the first artifact that offers the tool.
pub proof fn lemma_first_that_offers(
    servers: Seq<(Seq<char>, ServerView)>,
    tool: Seq<char>,
    at: int,
    place: int,
)
    requires
        0 <= at < servers.len(),
        0 <= place < servers[at].1.tools.len(),
        servers[at].1.tools[place].name == tool,
        forall|i: int, k: int|
            0 <= i < at && 0 <= k < servers[i].1.tools.len()
                ==> (#[trigger] servers[i].1.tools[k]).name != tool,
    ensures
        hub::route_of(servers, tool) == Some(servers[at].1.artifact_id),
    decreases servers.len(),
{
    let rest = servers.drop_last();
    if at < rest.len() {
        assert forall|i: int, k: int|
            0 <= i < at && 0 <= k < rest[i].1.tools.len() implies (#[trigger] rest[i].1.tools[k]).name
            != tool by {
            assert(servers[i].1.tools[k].name != tool);
        }
        lemma_first_that_offers(rest, tool, at, place);
    } else {
        assert(hub::route_of(rest, tool) is None) by {
            hub::lemma_routed(rest, tool);
            if hub::route_of(rest, tool) is Some {
                let i = choose|i: int|
                    0 <= i < rest.len() && hub::offers((#[trigger] rest[i]).1, tool);
                let k = choose|k: int|
                    0 <= k < rest[i].1.tools.len() && (#[trigger] rest[i].1.tools[k]).name == tool;
                assert(servers[i].1.tools[k].name != tool);
            }
        }
        assert(servers.last().1.tools[place].name == tool);
        assert(hub::offers(servers.last().1, tool));
    }
}

/// The list of all tools holds every tool of every artifact, and nothing else.
pub proof fn lemma_all_tools_listed(servers: Seq<(Seq<char>, ServerView)>, t: ToolSpecView)
    ensures
        hub::all_tools_of(servers).contains(t) <==> exists|i: int|
            0 <= i < servers.len() && (#[trigger] servers[i]).1.tools.contains(t),
    decreases servers.len(),
{
    if servers.len() > 0 {
        let rest = servers.drop_last();
        lemma_all_tools_listed(rest, t);
        let before = hub::all_tools_of(rest);
        let last = servers.last().1.tools;
        let all = before + last;
        if before.contains(t) {
            let i = choose|i: int| 0 <= i < rest.len() && (#[trigger] rest[i]).1.tools.contains(t);
            assert(servers[i].1.tools.contains(t));
            let k = before.index_of(t);
            assert(all[k] == t);
        }
        if last.contains(t) {
            let k = last.index_of(t);
            assert(all[before.len() + k] == t);
            assert(servers[servers.len() - 1].1.tools.contains(t));
        }
        if all.contains(t) {
            let k = all.index_of(t);
            if k < before.len() {
                assert(before[k] == t);
            } else {
                assert(last[k - before.len()] == t);
            }
        }
        if exists|i: int| 0 <= i < servers.len() && (#[trigger] servers[i]).1.tools.contains(t) {
            let i = choose|i: int|
                0 <= i < servers.len() && (#[trigger] servers[i]).1.tools.contains(t);
            if i < rest.len() {
                assert(rest[i].1.tools.contains(t));
            }
        }
    }
}

/// Under a name the registry holds the latest tool of that name, as it was offered.
pub proof fn lemma_latest_counts(tools: Seq<ToolSpecView>, at: int)
    requires
        0 <= at < tools.len(),
        forall|i: int| at < i < tools.len() ==> (#[trigger] tools[i]).name != tools[at].name,
    ensures
        sorted_map::ascending(hub::registry_of(tools)),
        sorted_map::as_map(hub::registry_of(tools)).dom().contains(tools[at].name),
        sorted_map::as_map(hub::registry_of(tools))[tools[at].name] == tools[at],
    decreases tools.len(),
{
    let rest = tools.drop_last();
    lemma_registry_ascends(rest);
    sorted_map::lemma_put(hub::registry_of(rest), tools.last().name, tools.last());
    if at < rest.len() {
        assert(tools[tools.len() - 1].name != tools[at].name);
        assert forall|i: int| at < i < rest.len() implies (#[trigger] rest[i]).name
            != rest[at].name by {
            assert(tools[i].name != tools[at].name);
        }
        lemma_latest_counts(rest, at);
    }
}

proof fn lemma_registry_ascends(tools: Seq<ToolSpecView>)
    ensures
        sorted_map::ascending(hub::registry_of(tools)),
    decreases tools.len(),
{
    if tools.len() > 0 {
        lemma_registry_ascends(tools.drop_last());
        sorted_map::lemma_put(
            hub::registry_of(tools.drop_last()),
            tools.last().name,
            tools.last(),
        );
    }
}

/// A launcher shows an artifact with its name, its version and the name of each of its tools,
/// in order.
pub proof fn lemma_shown_app(s: ServerView, i: int)
    requires
        0 <= i < s.tools.len(),
    ensures
        hub::app_of(s).artifact_id == s.artifact_id,
        hub::app_of(s).version == s.version,
        hub::app_of(s).tools.len() == s.tools.len(),
        hub::app_of(s).tools[i] == s.tools[i].name,
{
}

// ---------------------------------------------------------------------------
// Loading
// ---------------------------------------------------------------------------

/// A star stands for any host, and a host with a port for that host and port.
pub proof fn lemma_declared_host(host: Seq<char>, port: Seq<char>)
    requires
        !port.contains(':'),
    ensures
        loader::host_of(seq!['*']) == Some(HostPortView { host: seq!['*'], port: 0 }),
        loader::host_of(host + seq![':'] + port) == (match text::short_number(port) {
            Some(n) => Some(HostPortView { host, port: n }),
            None => None,
        }),
{
    reveal_strlit("*");
    reveal_strlit(":");
    assert("*"@ =~= seq!['*']);
    assert(":"@ =~= seq![':']);
    let s = host + seq![':'] + port;
    assert(s[host.len() as int] == ':');
    assert(s != "*"@) by {
        if s == "*"@ {
            assert("*"@[host.len() as int] == ':');
        }
    }
    net::lemma_entry(host, port);
}

/// An artifact may reach every host that it declares and that can be read, and no other.
pub proof fn lemma_hosts(declared: Seq<Seq<char>>, h: HostPortView)
    ensures
        loader::hosts_of(declared).contains(h) <==> exists|i: int|
            0 <= i < declared.len() && loader::host_of(#[trigger] declared[i]) == Some(h),
    decreases declared.len(),
{
    if declared.len() > 0 {
        let rest = declared.drop_last();
        lemma_hosts(rest, h);
        let before = loader::hosts_of(rest);
        let all = loader::hosts_of(declared);
        if before.contains(h) {
            let k = before.index_of(h);
            assert(all[k] == h);
            let i = choose|i: int|
                0 <= i < rest.len() && loader::host_of(#[trigger] rest[i]) == Some(h);
            assert(loader::host_of(declared[i]) == Some(h));
        }
        if loader::host_of(declared.last()) == Some(h) {
            assert(all[before.len() as int] == h);
            assert(loader::host_of(declared[declared.len() - 1]) == Some(h));
        }
        if all.contains(h) {
            let k = all.index_of(h);
            if k < before.len() {
                assert(before[k] == h);
            }
        }
        if exists|i: int| 0 <= i < declared.len() && loader::host_of(#[trigger] declared[i])
            == Some(h) {
            let i = choose|i: int|
                0 <= i < declared.len() && loader::host_of(#[trigger] declared[i]) == Some(h);
            if i < rest.len() {
                assert(loader::host_of(rest[i]) == Some(h));
            }
        }
    }
}

/// Every artifact that may reach a host has its list, under its own name.
pub proof fn lemma_every_list(
    manifests: Seq<(Seq<char>, Seq<Seq<char>>)>,
    id: Seq<char>,
    hosts: Seq<HostPortView>,
)
    ensures
        loader::allowlists_of(manifests).contains((id, hosts)) <==> hosts.len() > 0 && exists|i: int|
            0 <= i < manifests.len() && (#[trigger] manifests[i]).0 == id && loader::hosts_of(
                manifests[i].1,
            ) == hosts,
    decreases manifests.len(),
{
    if manifests.len() > 0 {
        let rest = manifests.drop_last();
        lemma_every_list(rest, id, hosts);
        let before = loader::allowlists_of(rest);
        let all = loader::allowlists_of(manifests);
        let last = manifests.last();
        if before.contains((id, hosts)) {
            let k = before.index_of((id, hosts));
            assert(all[k] == (id, hosts));
            let i = choose|i: int|
                0 <= i < rest.len() && (#[trigger] rest[i]).0 == id && loader::hosts_of(rest[i].1)
                    == hosts;
            assert(manifests[i].0 == id);
        }
        if last.0 == id && loader::hosts_of(last.1) == hosts && hosts.len() > 0 {
            assert(all[before.len() as int] == (id, hosts));
            assert(manifests[manifests.len() - 1].0 == id);
        }
        if all.contains((id, hosts)) {
            let k = all.index_of((id, hosts));
            if k < before.len() {
                assert(before[k] == (id, hosts));
            }
        }
        if exists|i: int|
            0 <= i < manifests.len() && (#[trigger] manifests[i]).0 == id && loader::hosts_of(
                manifests[i].1,
            ) == hosts {
            let i = choose|i: int|
                0 <= i < manifests.len() && (#[trigger] manifests[i]).0 == id && loader::hosts_of(
                    manifests[i].1,
                ) == hosts;
            if i < rest.len() {
                assert(rest[i].0 == id);
            }
        }
    }
}

/// An artifact whose rights are granted, or that is trusted, is brought up as its manifest
/// says: by others where it says nothing, in a virtual machine with the configured binary and
/// kernel and the file system of its directory where it runs what a model wrote, and as a
/// process in its directory with its arguments otherwise.
pub proof fn lemma_brought_up(
    l: LoaderView,
    m: Manifest,
    dir: Seq<char>,
    trusted: bool,
    rootfs_exists: bool,
)
    requires
        trusted || forall|i: int|
            0 <= i < capability::manifest_view(m.capabilities).len() ==> l.granted.contains(
                #[trigger] capability::manifest_view(m.capabilities)[i],
            ),
        dir.len() > 0,
        dir.last() != '/',
    ensures
        match (m.launch, loader::plan_view(l, m, dir, trusted, rootfs_exists)) {
            (None, plan) => plan == Ok::<LoadPlanView, ErrorView>(LoadPlanView::External),
            (
                Some(launch),
                Ok(LoadPlanView::Process { command, args, dir: d, socket }),
            ) => m.kind@ != "agent"@ && args == text::views(launch.args@) && d == dir && socket
                == l.socket && (launch.command@.len() > 0 && launch.command@[0] != '/' ==> command
                == dir + seq!['/'] + launch.command@) && (launch.command@.len() > 0
                && launch.command@[0] == '/' ==> command == launch.command@),
            (
                Some(_),
                Ok(LoadPlanView::MicroVm { firecracker_bin, kernel_image, rootfs }),
            ) => m.kind@ == "agent"@ && rootfs_exists && l.firecracker == Some(
                (firecracker_bin, kernel_image),
            ) && rootfs == dir + "/rootfs.ext4"@,
            (Some(_), Err(e)) => m.kind@ == "agent"@ && (match l.firecracker {
                None => e == ErrorView::Io(
                    "artifact "@ + m.id@
                        + " requires Firecracker isolation but it is not configured"@,
                ),
                Some(_) => !rootfs_exists && e == ErrorView::Io(
                    "artifact "@ + m.id@ + ": Firecracker rootfs missing at "@ + dir
                        + "/rootfs.ext4"@,
                ),
            }),
            _ => false,
        },
{
    lemma_none_is_missing(capability::manifest_view(m.capabilities), l.granted);
    reveal_strlit("/");
    reveal_strlit("rootfs.ext4");
    reveal_strlit("/rootfs.ext4");
    assert("/"@ =~= seq!['/']);
    assert("/"@ + "rootfs.ext4"@ =~= "/rootfs.ext4"@);
    assert("rootfs.ext4"@[0] == 'r');
    assert(dir + "/"@ + "rootfs.ext4"@ =~= dir + "/rootfs.ext4"@);
    assert("artifact "@ + m.id@ + ": Firecracker rootfs missing at "@ + (dir + "/rootfs.ext4"@)
        =~= "artifact "@ + m.id@ + ": Firecracker rootfs missing at "@ + dir + "/rootfs.ext4"@);
    if text::begins("rootfs.ext4"@, "/"@) {
        assert("rootfs.ext4"@.take(1)[0] == "/"@[0]);
    }
    if m.launch is Some {
        let c = m.launch->0.command@;
        if c.len() > 0 {
            if c[0] == '/' {
                assert(c.take(1) =~= "/"@);
            } else if text::begins(c, "/"@) {
                assert(c.take(1)[0] == "/"@[0]);
            }
        }
    }
}

proof fn lemma_none_is_missing(
    caps: Seq<capability::CapabilityView>,
    granted: Set<capability::CapabilityView>,
)
    ensures
        (forall|i: int| 0 <= i < caps.len() ==> granted.contains(#[trigger] caps[i]))
            ==> loader::first_missing(caps, granted) is None,
    decreases caps.len(),
{
    if caps.len() > 0 && (forall|i: int|
        0 <= i < caps.len() ==> granted.contains(#[trigger] caps[i])) {
        let rest = caps.drop_last();
        assert forall|i: int| 0 <= i < rest.len() implies granted.contains(#[trigger] rest[i]) by {
            assert(granted.contains(caps[i]));
        }
        lemma_none_is_missing(rest, granted);
        assert(granted.contains(caps[caps.len() - 1]));
    }
}

/// An artifact that registers a tool offers it behind those before; a loader with virtual
/// machines differs from one without in nothing else.
pub proof fn lemma_registered_and_configured(
    c: &mut McpClient,
    tool: McpToolSpec,
    plain: PluginLoader,
    config: FirecrackerConfig,
    with: PluginLoader,
)
    requires
        call_ensures(McpClient::register_tool, (c, tool), ()),
        call_ensures(PluginLoader::with_firecracker, (plain, config), with),
    ensures
        final(c)@.tools == old(c)@.tools + seq![tool@],
        final(c)@.artifact_id == old(c)@.artifact_id,
        final(c)@.version == old(c)@.version,
        with@.firecracker == Some((config.firecracker_bin@, config.kernel_image@)),
        with@.granted == plain@.granted,
        with@.socket == plain@.socket,
{
    assert(old(c)@.tools.push(tool@) =~= old(c)@.tools + seq![tool@]);
}

/// A server that registers is there under its artifact, whole, and one that is unregistered is
/// not; every other server stays.
pub proof fn lemma_registered_servers(
    a: &mut McpHub,
    b: &mut McpHub,
    server: RegisteredServer,
    id: &str,
    n: usize,
)
    requires
        sorted_map::ascending(a@),
        sorted_map::ascending(b@),
        call_ensures(McpHub::register, (a, server), ()),
        call_ensures(McpHub::unregister, (b, id), ()),
        call_ensures(McpHub::server_count, (final(a),), n),
    ensures
        sorted_map::as_map(final(a)@) == sorted_map::as_map(old(a)@).insert(
            server.artifact_id@,
            server@,
        ),
        sorted_map::as_map(final(b)@) == sorted_map::as_map(old(b)@).remove(id@),
        n == final(a)@.len(),
{
    sorted_map::lemma_put(old(a)@, server.artifact_id@, server@);
    sorted_map::lemma_without(old(b)@, id@);
}

/// A call goes to an artifact that offers the tool, and where none does the tool is not found.
/// Every tool that can be called is in the registry, and every artifact is shown with its tools.
pub proof fn lemma_hub_tells(
    h: McpHub,
    tool: &str,
    routed: Result<String, Error>,
    registry: ToolRegistry,
    apps: Vec<InstalledApp>,
    all: Vec<McpToolSpec>,
    i: int,
)
    requires
        call_ensures(McpHub::route, (&h, tool), routed),
        call_ensures(McpHub::build_registry, (&h,), registry),
        call_ensures(McpHub::installed_apps, (&h,), apps),
        call_ensures(McpHub::all_tools, (&h,), all),
        0 <= i < h@.len(),
    ensures
        routed matches Ok(id) ==> exists|k: int|
            0 <= k < h@.len() && (#[trigger] h@[k]).1.artifact_id == id@ && hub::offers(
                h@[k].1,
                tool@,
            ),
        routed matches Err(e) ==> e@ == ErrorView::ToolNotFound(tool@) && forall|k: int|
            0 <= k < h@.len() ==> !hub::offers((#[trigger] h@[k]).1, tool@),
        routed is Ok <==> sorted_map::as_map(registry@).dom().contains(tool@),
        apps@.len() == h@.len(),
        apps@[i].artifact_id@ == h@[i].1.artifact_id,
        apps@[i].version@ == h@[i].1.version,
        apps@[i].tools@.len() == h@[i].1.tools.len(),
        forall|k: int|
            0 <= k < h@[i].1.tools.len() ==> (#[trigger] apps@[i].tools@[k])@
                == h@[i].1.tools[k].name,
        hub::tools_view(all@) == hub::all_tools_of(h@),
{
    hub::lemma_routed(h@, tool@);
    hub::lemma_registry_is_callable(h@, tool@);
    let shown = hub::apps_view(apps@);
    assert(shown.len() == h@.len());
    assert(shown[i] == hub::app_of(h@[i].1));
    assert(shown[i] == apps@[i]@);
    assert(apps@[i]@.tools == text::views(apps@[i].tools@));
    assert(text::views(apps@[i].tools@).len() == h@[i].1.tools.len());
    assert forall|k: int| 0 <= k < h@[i].1.tools.len() implies (#[trigger] apps@[i].tools@[k])@
        == h@[i].1.tools[k].name by {
        assert(text::views(apps@[i].tools@)[k] == apps@[i].tools@[k]@);
        assert(hub::names_of(h@[i].1.tools)[k] == h@[i].1.tools[k].name);
    }
}

/// A call that is forwarded waits for its reply under the number that stands in its line, and
/// the artifact that gets the line is asked for the tool with the input of the caller.
pub proof fn lemma_call_is_forwarded(
    c: &mut Connection,
    artifact: McpClient,
    tool: &str,
    input: Json,
    ticket: u64,
    line: String,
    heard: &str,
    step: ClientStep,
)
    requires
        c@.last < u64::MAX,
        json::plain(input@, 125),
        hub::offers(artifact@, tool@),
        call_ensures(Connection::call, (c, tool, &input, ticket), line),
        heard@ == line@.drop_last(),
        call_ensures(McpClient::handle, (&artifact, heard), step),
    ensures
        final(c)@.pending == old(c)@.pending.insert(text::decimal((old(c)@.last + 1) as nat), ticket),
        line@.last() == '\n',
        step@ == (ClientStepView::Call {
            id: JsonView::Text(text::decimal((old(c)@.last + 1) as nat)),
            tool: tool@,
            arguments: input@,
        }),
{
    reveal_strlit("\n");
    client::lemma_call_makes_the_round_trip(
        old(c)@,
        artifact@,
        tool@,
        input@,
        ticket,
        Ok(JsonView::Null),
    );
}

/// What a handler gave comes back to the one who waits for the call: the value, or that the
/// tool failed.
pub proof fn lemma_answer_comes_back(
    c: &mut Connection,
    id: Json,
    result: Result<Json, Error>,
    line: String,
    heard: &str,
    step: ServerStep,
)
    requires
        id@ is Text,
        c@.pending.dom().contains(id@->Text_0),
        json::plain(id@, 126),
        result matches Ok(v) ==> json::plain(v@, 126),
        call_ensures(McpClient::answer, (id, result), line),
        heard@ == line@.drop_last(),
        call_ensures(Connection::receive, (c, heard), step),
    ensures
        step@ matches ServerStepView::Settle { ticket, result: told } && ticket
            == old(c)@.pending[id@->Text_0] && match result {
            Ok(v) => told == Ok::<JsonView, ErrorView>(v@),
            Err(e) => told == Err::<JsonView, ErrorView>(ErrorView::ToolExecution(e@.message())),
        },
        final(c)@.pending == old(c)@.pending.remove(id@->Text_0),
{
    let answer = client::answer_message(id@, server::result_view(result));
    rpc::lemma_members(answer);
    match result {
        Ok(v) => {},
        Err(e) => {
            lemma_failure_on_the_wire(id@, rpc::CALL_FAILED, e@.message());
        },
    }
}

} // verus!
