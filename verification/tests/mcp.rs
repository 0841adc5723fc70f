use kiki::agent::capability::{CapabilitySet, ManifestCapabilities};
use kiki::agent::error::Error;
use kiki::json;
use kiki::json::Json;
use kiki::mcp::client::{self, ClientStep, McpClient};
use kiki::mcp::hub::{McpHub, McpToolSpec, RegisteredServer};
use kiki::mcp::loader::{
    egress_hosts, scan_egress_allowlists, ExecSpec, FirecrackerConfig, LoadPlan, Manifest,
    PluginLoader,
};
use kiki::mcp::parser::{ParsedChunk, ToolCallParser};
use kiki::mcp::rpc::JsonRpc;
use kiki::mcp::server::{self, Connection, ServerStep};
use kiki::net::{EgressBroker, FetchResponse, HostPort};

fn doc(text: &str) -> Json {
    json::parse(text).unwrap()
}

// ── Tool calls in a stream of text ──────────────────────────────────────────

fn parse_full(s: &str) -> Vec<ParsedChunk> {
    let mut p = ToolCallParser::new();
    let mut out = p.feed(s);
    out.extend(p.finish());
    out
}

fn calls(out: &Vec<ParsedChunk>, name: &str) -> bool {
    out.iter().any(|c| matches!(c, ParsedChunk::ToolCall(t) if t.name == name))
}

#[test]
fn happy_path() {
    let out = parse_full(
        r#"Let me check.<tool_call>{"name":"fs_read","arguments":{"path":"/etc/hosts"}}</tool_call> Done."#,
    );
    assert!(calls(&out, "fs_read"));
    let texts: Vec<&str> = out
        .iter()
        .filter_map(|c| if let ParsedChunk::Text(t) = c { Some(t.as_str()) } else { None })
        .collect();
    assert!(texts.iter().any(|t| t.contains("Let me check")));
    assert!(texts.iter().any(|t| t.contains("Done")));
}

#[test]
fn split_across_chunks() {
    let mut p = ToolCallParser::new();
    let mut all = p.feed(r#"<tool_call>{"name":"fs_"#);
    all.extend(p.feed(r#"read","arguments":{}}</tool_call>"#));
    all.extend(p.finish());
    assert!(calls(&all, "fs_read"));
}

#[test]
fn anthropic_input_naming() {
    let out = parse_full(r#"<tool_call>{"name":"fs_read","input":{"path":"/a"}}</tool_call>"#);
    assert!(out.iter().any(|c| matches!(c, ParsedChunk::ToolCall(t)
        if t.name == "fs_read" && t.input.at("path").as_str() == Some("/a")
    )));
}

#[test]
fn arguments_as_string() {
    let out = parse_full(
        r#"<tool_call>{"name":"fs_read","arguments":"{\"path\":\"/a\"}"}</tool_call>"#,
    );
    assert!(out.iter().any(|c| matches!(c, ParsedChunk::ToolCall(t)
        if t.name == "fs_read" && t.input.at("path").as_str() == Some("/a")
    )));
}

#[test]
fn malformed_falls_back_to_regex() {
    let out =
        parse_full(r#"<tool_call>{"name":"fs_read", "arguments": {"path": "/a"</tool_call>"#);
    assert!(calls(&out, "fs_read"));
}

#[test]
fn unrelated_tag_passes_through() {
    let out = parse_full("hello <thinking>foo</thinking> world");
    let text: String = out
        .iter()
        .filter_map(|c| if let ParsedChunk::Text(t) = c { Some(t.as_str()) } else { None })
        .collect::<Vec<&str>>()
        .join("");
    assert!(text.contains("hello"));
    assert!(text.contains("world"));
}

#[test]
fn unterminated_block_surfaces_error() {
    let out = parse_full(r#"<tool_call>{"name":"fs_read""#);
    assert!(out.iter().any(|c| matches!(c, ParsedChunk::Error(_))));
}

#[test]
fn the_cut_of_the_stream_does_not_matter() {
    let s = r#"a<b <tool_call>{"name":"x","arguments":{"k":[1,2]}}</tool_call>c"#;
    let whole = parse_full(s);
    let mut p = ToolCallParser::new();
    let mut pieces = Vec::new();
    for c in s.chars() {
        pieces.extend(p.feed(&c.to_string()));
    }
    pieces.extend(p.finish());
    let text = |out: &Vec<ParsedChunk>| {
        out.iter()
            .map(|c| match c {
                ParsedChunk::Text(t) => t.clone(),
                ParsedChunk::ToolCall(t) => format!("[{} {}]", t.name, t.input.to_text()),
                ParsedChunk::Error(e) => format!("!{e}"),
            })
            .collect::<Vec<String>>()
            .join("")
    };
    assert_eq!(text(&whole), text(&pieces));
    assert!(text(&whole).contains(r#"[x {"k":[1,2]}]"#));
}

#[test]
fn a_parser_is_reset() {
    let mut p = ToolCallParser::default();
    p.feed("<tool_call>{");
    p.reset();
    let mut out = p.feed("plain");
    out.extend(p.finish());
    assert!(out.iter().all(|c| matches!(c, ParsedChunk::Text(_))));
}

fn only_call(chunks: Vec<ParsedChunk>) -> kiki::agent::types::ToolCall {
    let mut calls: Vec<_> = chunks
        .into_iter()
        .filter_map(|c| match c {
            ParsedChunk::ToolCall(t) => Some(t),
            _ => None,
        })
        .collect();
    assert_eq!(calls.len(), 1);
    calls.remove(0)
}

#[test]
fn a_bracket_in_an_argument_does_not_hide_the_end() {
    let mut p = ToolCallParser::new();
    let call = only_call(
        p.feed(r#"<tool_call>{"name":"calc","arguments":{"e":"1 < 2"}}</tool_call>"#),
    );
    assert_eq!((call.id.as_str(), call.name.as_str()), ("xml-1", "calc"));
    assert_eq!(call.input.to_text(), r#"{"e":"1 < 2"}"#);
}

#[test]
fn tags_stay_as_they_came() {
    let mut p = ToolCallParser::new();
    assert!(p.feed(r#"<tool_call>{"name":"w","arguments":{"html":"<B>"}}</tool_call"#).is_empty());
    let call = only_call(p.feed(">"));
    assert_eq!(call.input.to_text(), r#"{"html":"<B>"}"#);
    let out = p.feed("a < B >c");
    assert!(matches!(&out[0], ParsedChunk::Text(t) if t == "a < B >c"));
}

#[test]
fn the_largest_object_is_taken() {
    let call = only_call(parse_full(
        r#"<tool_call>or {"name":"a"} or {"name":"bb","arguments":{"k":1}} or {"name":"c"}</tool_call>"#,
    ));
    assert_eq!(call.name, "bb");
}

#[test]
fn made_names_go_on_after_a_reset() {
    let block = r#"<tool_call>{"name":"x"}</tool_call>"#;
    let mut p = ToolCallParser::new();
    assert_eq!(only_call(p.feed(block)).id, "xml-1");
    p.feed("<tool_call>{");
    p.reset();
    let again = only_call(p.feed(block));
    assert_eq!((again.id.as_str(), again.name.as_str()), ("xml-2", "x"));
}

// ── The hub, the server and the client ──────────────────────────────────────

fn greeting_line(artifact: &str) -> String {
    let mut client = McpClient::new("/run/kiki/mcp.sock", artifact, "1.0.0");
    client.register_tool(McpToolSpec {
        name: "echo.upper".into(),
        description: "Uppercase the given text.".into(),
        input_schema: doc(
            r#"{ "type": "object", "properties": { "text": { "type": "string" } } }"#,
        ),
    });
    client.hello()
}

fn upper_client() -> McpClient {
    let mut client = McpClient::new("/run/kiki/mcp.sock", "io.kiki.echo", "1.0.0");
    client.register_tool(McpToolSpec {
        name: "echo.upper".into(),
        description: "Uppercase the given text.".into(),
        input_schema: doc(r#"{ "type": "object" }"#),
    });
    client
}

#[test]
fn app_registers_and_tool_call_roundtrips() {
    let mut hub = McpHub::new();
    let greeting = server::greet(&greeting_line("io.kiki.echo")).unwrap();
    assert!(client::McpClient::greeted(Some(&greeting.reply)).is_ok());
    let artifact = greeting.server.artifact_id.clone();
    hub.register(greeting.server);

    let apps = hub.installed_apps();
    assert_eq!(apps.len(), 1);
    assert_eq!(apps[0].artifact_id, "io.kiki.echo");
    assert_eq!(apps[0].tools, vec!["echo.upper".to_string()]);

    let target = match hub.route("echo.upper") {
        Ok(t) => t,
        Err(_) => panic!("the tool is routed"),
    };
    assert_eq!(target, "io.kiki.echo");
    let mut connection = Connection::new(&artifact, false);
    let call = connection.call("echo.upper", &doc(r#"{ "text": "hi" }"#), 7);
    let (id, arguments) = match upper_client().handle(&call) {
        ClientStep::Call { id, tool, arguments } => {
            assert_eq!(tool, "echo.upper");
            (id, arguments)
        }
        _ => panic!("the tool is called"),
    };
    let upper = arguments.get_text("text").unwrap().to_uppercase();
    let reply =
        client::McpClient::answer(id, Ok(Json::object().with("upper", Json::of_text(&upper))));
    match connection.receive(&reply) {
        ServerStep::Settle { ticket, result: Ok(out) } => {
            assert_eq!(ticket, 7);
            assert_eq!(out.at("upper").as_str(), Some("HI"));
        }
        _ => panic!("the call is settled"),
    }
    assert!(matches!(connection.receive(&reply), ServerStep::Ignore), "a call is settled once");
}

#[test]
fn tools_are_routed_built_and_withdrawn() {
    let mut hub = McpHub::default();
    assert!(hub.route("a").is_err());
    let spec = |name: &str| McpToolSpec {
        name: name.into(),
        description: "d".into(),
        input_schema: doc("{}"),
    };
    hub.register(RegisteredServer {
        artifact_id: "x".into(),
        version: "1".into(),
        tools: vec![spec("a"), spec("b")],
    });
    hub.register(RegisteredServer { artifact_id: "y".into(), version: "1".into(), tools: vec![spec("c")] });
    assert_eq!(hub.server_count(), 2);
    assert_eq!(hub.all_tools().len(), 3);
    assert_eq!(hub.build_registry().len(), 3);
    assert!(matches!(hub.route("c"), Ok(t) if t == "y"));
    hub.unregister("y");
    assert!(matches!(hub.route("c"), Err(Error::ToolNotFound(t)) if t == "c"));
    assert_eq!(hub.server_count(), 1);
}

#[test]
fn an_unknown_tool_is_refused() {
    let mut connection = Connection::new("a", false);
    let call = connection.call("nothing", &doc("{}"), 1);
    let reply = match upper_client().handle(&call) {
        ClientStep::Reply { line } => line,
        _ => panic!("an answer"),
    };
    assert!(reply.contains("-32601"), "{}", reply);
    match connection.receive(&reply) {
        ServerStep::Settle { ticket: 1, result: Err(_) } => {}
        _ => panic!("an error"),
    }
}

#[test]
fn what_is_no_greeting_is_refused() {
    assert!(server::greet("nonsense").is_none());
    assert!(server::greet(r#"{"method":"tools/call"}"#).is_none());
    let bare = server::greet(r#"{"method":"initialize"}"#).unwrap();
    assert_eq!(bare.server.artifact_id, "unknown");
    assert_eq!(bare.server.version, "0.0.0");
    assert!(client::McpClient::greeted(None).is_err());
    assert!(matches!(upper_client().handle("nonsense"), ClientStep::Ignore));
}

fn fetch_line(url: &str) -> String {
    JsonRpc::request(
        Json::of_natural(2),
        "net.fetch",
        Json::object().with("method", Json::of_text("GET")).with("url", Json::of_text(url)),
    )
    .line()
}

#[test]
fn app_fetches_allowed_host_through_broker() {
    let mut broker = EgressBroker::new();
    broker.allow("io.kiki.weather", vec![HostPort { host: "127.0.0.1".into(), port: 8080 }]);
    let mut connection = Connection::new("io.kiki.weather", true);
    let (app, id, request) = match connection.receive(&fetch_line("http://127.0.0.1:8080/data")) {
        ServerStep::Fetch { app, id, request } => (app, id, request),
        _ => panic!("a request to the network"),
    };
    let out = match broker.vet(&app, request) {
        Ok(out) => out,
        Err(e) => panic!("unexpected error: {}", e.message()),
    };
    let mut incoming = broker.incoming();
    assert!(incoming.push(&b"{\"ok\":true}".to_vec()).is_ok());
    let (response, _) = incoming.conclude(&out, 200, &vec![], 1);
    let reply = doc(&server::fetch_reply(id, &Ok(response)));
    assert!(reply.get("error").is_none());
    assert_eq!(reply.at("result").get_natural("status"), Some(200));
    assert!(reply.at("result").get_text("body").unwrap().contains("ok"));
}

#[test]
fn app_denied_when_host_not_in_its_allowlist() {
    let mut broker = EgressBroker::new();
    broker.allow("someone.else", vec![HostPort { host: "x".into(), port: 1 }]);
    let mut connection = Connection::new("io.kiki.intruder", true);
    let (app, id, request) = match connection.receive(&fetch_line("http://127.0.0.1:8080/x")) {
        ServerStep::Fetch { app, id, request } => (app, id, request),
        _ => panic!("a request to the network"),
    };
    let refused: Result<FetchResponse, _> = match broker.vet(&app, request) {
        Ok(_) => panic!("the host is not allowed"),
        Err(e) => Err(e),
    };
    let reply = doc(&server::fetch_reply(id, &refused));
    assert!(reply.get("error").is_some(), "expected a denied error");
}

#[test]
fn without_a_broker_there_is_no_fetching() {
    let mut connection = Connection::new("a", false);
    match connection.receive(&fetch_line("http://x/")) {
        ServerStep::Fetch { .. } => panic!("there is no broker"),
        _ => {}
    }
    let mut connection = Connection::new("a", true);
    let bad = JsonRpc::request(Json::of_natural(2), "net.fetch", doc("{}")).line();
    match connection.receive(&bad) {
        ServerStep::Reply { line } => assert!(line.contains("-32602"), "{}", line),
        _ => panic!("an answer"),
    }
}

// ── Loading artifacts ───────────────────────────────────────────────────────

fn capabilities() -> ManifestCapabilities {
    ManifestCapabilities {
        fs_read: vec![],
        fs_write: vec![],
        network: vec![],
        programs: vec![],
        mcp_spawn: false,
        display: false,
        audio_in: false,
        vault_read: vec![],
    }
}

fn agent_manifest() -> Manifest {
    Manifest {
        id: "io.kiki.test.agent".into(),
        version: "1.0.0".into(),
        kind: "agent".into(),
        capabilities: capabilities(),
        launch: Some(ExecSpec { command: "agent-bin".into(), args: vec![] }),
    }
}

#[test]
fn agent_artifact_fails_closed_without_firecracker() {
    let loader = PluginLoader::new(CapabilitySet::default(), "/run/kiki/mcp.sock");
    let res = loader.plan(&agent_manifest(), "/tmp/a", true, false);
    assert!(res.is_err(), "agent artifact must not load without Firecracker");
    let msg = match res {
        Err(e) => e.message(),
        Ok(_) => unreachable!(),
    };
    assert!(msg.contains("Firecracker"), "error should name Firecracker: {msg}");
}

#[test]
fn agent_artifact_fails_closed_without_rootfs() {
    let loader = PluginLoader::new(CapabilitySet::default(), "/run/kiki/mcp.sock")
        .with_firecracker(FirecrackerConfig {
            firecracker_bin: "/usr/bin/firecracker".into(),
            kernel_image: "/var/kiki/vm/vmlinux".into(),
        });
    let res = loader.plan(&agent_manifest(), "/tmp/a", true, false);
    assert!(res.is_err(), "agent artifact must not load without a rootfs");
    let msg = match res {
        Err(e) => e.message(),
        Ok(_) => unreachable!(),
    };
    assert!(msg.contains("rootfs"), "error should name the missing rootfs: {msg}");
    let booted = loader.plan(&agent_manifest(), "/tmp/a", true, true);
    assert!(matches!(booted, Ok(LoadPlan::MicroVm { rootfs, .. }) if rootfs == "/tmp/a/rootfs.ext4"));
}

#[test]
fn an_artifact_needs_its_rights() {
    let loader = PluginLoader::new(CapabilitySet::default(), "/s");
    let mut m = agent_manifest();
    m.kind = "app".into();
    m.capabilities.audio_in = true;
    assert!(matches!(
        loader.plan(&m, "/d", false, false),
        Err(Error::CapabilityDeniedByName(name)) if name == "AudioInput"
    ));
    match loader.plan(&m, "/d", true, false) {
        Ok(LoadPlan::Process { command, args, dir, socket }) => {
            assert_eq!(command, "/d/agent-bin");
            assert!(args.is_empty());
            assert_eq!(dir, "/d");
            assert_eq!(socket, "/s");
        }
        _ => panic!("a trusted artifact runs"),
    }
    m.launch = None;
    assert!(matches!(loader.plan(&m, "/d", true, false), Ok(LoadPlan::External)));
}

#[test]
fn allowlists_come_from_manifests() {
    let hosts = egress_hosts(&vec!["api.x.com:443".into(), "*".into(), "api.y.com".into()]);
    assert_eq!(hosts[0].host, "api.x.com");
    assert_eq!(hosts[0].port, 443);
    let mut m = agent_manifest();
    m.capabilities.network.push("api.x.com:443".into());
    let lists = scan_egress_allowlists(&vec![m, agent_manifest()]);
    assert_eq!(lists.len(), 1);
    assert_eq!(lists[0].0, "io.kiki.test.agent");
    assert_eq!(lists[0].1.len(), 1);
}
