use kiki::agent::capability::{Capability, CapabilityResult, CapabilitySet, ManifestCapabilities};
use kiki::agent::context::Context;
use kiki::agent::context_manager::{
    estimate_message_tokens, estimate_tokens, ContextConfig, ContextManager,
};
use kiki::agent::control::{ControlMessage, SurfaceInfo};
use kiki::agent::error::Error;
use kiki::agent::gate::{
    is_destructive, ApprovalAnswer, AuditAction, CapabilityGate, GateDecision, GateStep,
};
use kiki::agent::interrupt::{Interrupt, InterruptKind};
use kiki::agent::mode::ControlMode;
use kiki::agent::policy::{NodePolicy, PolicyError};
use kiki::agent::preamble::memory_preamble;
use kiki::agent::provider::{ProviderBlock, Role, ToolSpec};
use kiki::agent::request::{conversation_to_provider, last_answer, last_user_text};
use kiki::agent::surface::SurfaceSignal;
use kiki::agent::tool::{relevance_score, tokenize, ToolRegistry};
use kiki::agent::types::{
    ApprovalDecision, AssistantTurn, ContentBlock, ConversationMessage, ToolCall, ToolResult,
};
use kiki::json;
use kiki::json::Json;

fn doc(text: &str) -> Json {
    json::parse(text).unwrap()
}

fn same(a: &Json, text: &str) {
    assert_eq!(a.to_text(), doc(text).to_text());
}

// ── The context window ──────────────────────────────────────────────────────

fn user(text: &str) -> ConversationMessage {
    ConversationMessage::user_text(text.into(), 0)
}

fn assistant(text: &str) -> ConversationMessage {
    ConversationMessage::Assistant(AssistantTurn {
        thinking: None,
        text: Some(text.into()),
        tool_calls: vec![],
    })
}

#[test]
fn token_count_is_incremental() {
    let mut m = ContextManager::new(ContextConfig::default());
    let n0 = m.token_count();
    m.push(user("hello world"));
    let n1 = m.token_count();
    assert!(n1 > n0);
    m.push(assistant("hi"));
    assert!(m.token_count() > n1);
}

#[test]
fn compaction_preserves_system_and_min_messages() {
    let mut m = ContextManager::new(ContextConfig {
        max_context_length: 40,
        response_buffer: 10,
        min_messages_preserve: 2,
    });
    m.push(ConversationMessage::system("you are kiki".into()));
    for i in 0..10 {
        m.push(user(&format!("turn {i} with a fair amount of text padding here")));
    }
    let dropped = m.compact();
    assert!(dropped > 0);
    let msgs = m.messages();
    assert!(matches!(msgs.first(), Some(ConversationMessage::System { .. })));
    let non_sys = msgs.iter().filter(|m| !matches!(m, ConversationMessage::System { .. })).count();
    assert!(non_sys >= 2);
}

#[test]
fn compacting_again_drops_nothing() {
    let mut m = ContextManager::new(ContextConfig {
        max_context_length: 60,
        response_buffer: 10,
        min_messages_preserve: 1,
    });
    for i in 0..6 {
        m.push(user(&format!("turn {i} with a fair amount of text padding here")));
    }
    let dropped = m.compact();
    assert!(dropped > 0);
    assert_eq!(m.len() + dropped, 6);
    assert_eq!(m.compact(), 0);
    assert_eq!(m.len() + dropped, 6);
}

#[test]
fn tokens_are_estimated_by_bytes_and_overhead() {
    assert_eq!(estimate_tokens(""), 0);
    assert_eq!(estimate_tokens("abcd"), 1);
    assert_eq!(estimate_tokens("abcde"), 2);
    assert_eq!(estimate_message_tokens(&user("hello world")), 7);
}

#[test]
fn a_manager_is_replaced_and_emptied() {
    let mut m = ContextManager::new(ContextConfig::default());
    assert!(m.is_empty());
    m.push(ConversationMessage::system("a".into()));
    m.push(ConversationMessage::system("b".into()));
    assert_eq!(m.messages().len(), 1);
    m.replace_all(vec![user("x"), assistant("y")]);
    assert_eq!(m.messages().len(), 2);
    assert_eq!(m.len(), 2);
    assert!(!m.needs_compaction());
    assert_eq!(m.compact(), 0);
}

// ── Recalled memory in the prompt ───────────────────────────────────────────

#[test]
fn preamble_skips_when_empty() {
    assert!(memory_preamble(&[]).is_none());
    assert!(memory_preamble(&["".into(), "   ".into()]).is_none());
}

#[test]
fn preamble_bullets_non_empty_lines() {
    let p =
        memory_preamble(&["likes concise replies".into(), "on flaky network".into()]).unwrap();
    assert!(p.contains("# Relevant memory"));
    assert!(p.contains("- likes concise replies"));
    assert!(p.contains("- on flaky network"));
    assert_eq!(
        p,
        "# Relevant memory (on-device; from prior sessions)\n- likes concise replies\n- on flaky network"
    );
}

// ── Rights ──────────────────────────────────────────────────────────────────

#[test]
fn flattens_legacy_and_per_artifact_grants() {
    let mut p = NodePolicy::default();
    p.granted.push(Capability::NetworkOutbound);
    p.set_artifact(
        "u1/notes@1.0.0",
        vec![Capability::FsRead("/var/kiki".into()), Capability::AudioInput],
    );
    let set = p.to_capability_set();
    assert!(set.contains(&Capability::NetworkOutbound));
    assert!(set.contains(&Capability::AudioInput));
    assert!(set.contains(&Capability::FsRead("/var/kiki".into())));
    assert_eq!(p.grant_count(), 3);
}

#[test]
fn rights_are_counted_once() {
    let mut p = NodePolicy::default();
    p.set_artifact("a@1", vec![Capability::AudioInput, Capability::AudioInput]);
    assert_eq!(p.grant_count(), 1);
    p.set_artifact("b@1", vec![Capability::AudioInput, Capability::NetworkOutbound]);
    assert_eq!(p.grant_count(), 2);
    let listed = NodePolicy::load(Some(r#"[["AudioInput"],{"x@1":["NetworkOutbound"]}]"#));
    assert!(matches!(listed, Ok(l) if l.grant_count() == 2));
    assert!(matches!(NodePolicy::load(Some("[]")), Ok(l) if l.grant_count() == 0));
    assert!(NodePolicy::load(Some("[[],{},1]")).is_err());
}

#[test]
fn remove_artifact_revokes_only_its_grants() {
    let mut p = NodePolicy::default();
    p.set_artifact("a@1", vec![Capability::AudioInput]);
    p.set_artifact("b@1", vec![Capability::NetworkOutbound]);
    assert!(p.remove_artifact("a@1"));
    assert!(!p.remove_artifact("a@1"));
    let set = p.to_capability_set();
    assert!(!set.contains(&Capability::AudioInput));
    assert!(set.contains(&Capability::NetworkOutbound));
}

#[test]
fn roundtrips_through_json() {
    let mut p = NodePolicy::default();
    p.set_artifact("x/y@2.0.0", vec![Capability::WaylandSurface]);
    let json = p.to_json().to_text();
    let back = NodePolicy::from_json(&doc(&json)).unwrap();
    assert!(back.to_capability_set().contains(&Capability::WaylandSurface));
    assert_eq!(json, r#"{"grants":{"x/y@2.0.0":["WaylandSurface"]}}"#);
}

#[test]
fn parses_legacy_flat_shape() {
    let raw = r#"{ "granted": ["NetworkOutbound", { "FsRead": "/x" }] }"#;
    let p = NodePolicy::from_json(&doc(raw)).unwrap();
    let set = p.to_capability_set();
    assert!(set.contains(&Capability::NetworkOutbound));
    assert!(set.contains(&Capability::FsRead("/x".into())));
}

#[test]
fn a_ledger_is_saved_and_loaded() {
    let mut p = NodePolicy::default();
    p.granted.push(Capability::NetworkInbound(8080));
    p.set_artifact("b@1", vec![Capability::SecretsRead("mail".into())]);
    p.set_artifact("a@1", vec![]);
    let text = p.save();
    assert_eq!(
        text,
        "{\n  \"granted\": [\n    {\n      \"NetworkInbound\": 8080\n    }\n  ],\n  \"grants\": {\n    \"a@1\": [],\n    \"b@1\": [\n      {\n        \"SecretsRead\": \"mail\"\n      }\n    ]\n  }\n}"
    );
    let back = match NodePolicy::load(Some(&text)) {
        Ok(p) => p,
        Err(_) => panic!("the ledger loads"),
    };
    assert_eq!(back.save(), text);
    assert_eq!(back.grant_count(), 2);
    assert!(!back.to_capability_set().contains(&Capability::NetworkInbound(80)));
}

#[test]
fn a_missing_ledger_grants_nothing_and_a_broken_one_is_an_error() {
    let none = match NodePolicy::load(None) {
        Ok(p) => p,
        Err(_) => panic!("a missing ledger is an empty one"),
    };
    assert_eq!(none.grant_count(), 0);
    let broken = match NodePolicy::load(Some("{")) {
        Ok(_) => panic!("no document"),
        Err(e) => e.message(),
    };
    assert!(broken.starts_with("policy parse: EOF while parsing"), "{}", broken);
    let other = match NodePolicy::load(Some(r#"{"granted":["Nonsense"]}"#)) {
        Ok(_) => panic!("no right"),
        Err(e) => e.message(),
    };
    assert_eq!(other, "policy parse: not a policy");
    assert_eq!(PolicyError::Io("denied".into()).message(), "policy i/o: denied");
}

#[test]
fn recording_rights_and_removing_them_leaves_the_rest() {
    let mut p = NodePolicy::default();
    p.set_artifact("a@1", vec![Capability::AudioInput]);
    let before = p.save();
    p.set_artifact("b@1", vec![Capability::ProcessKill]);
    assert!(p.to_capability_set().contains(&Capability::ProcessKill));
    assert!(!p.to_capability_set().contains(&Capability::ProcessSpawn));
    assert!(p.remove_artifact("b@1"));
    assert_eq!(p.save(), before);
}

fn blank_manifest() -> ManifestCapabilities {
    ManifestCapabilities {
        fs_read: vec![],
        fs_write: vec![],
        network: vec![],
        programs: vec![],
        mcp_spawn: false,
        display: false,
        audio_in: false,
        vault_read: vec![],
    }
}

#[test]
fn maps_capabilities() {
    let mut cs = blank_manifest();
    cs.network.push("api.example.com:443".into());
    cs.fs_read.push("/var/kiki/data".into());
    cs.audio_in = true;
    let caps = Capability::from_manifest(&cs);
    let has = |cap: &Capability| caps.iter().any(|c| c.same(cap));
    assert!(has(&Capability::NetworkOutbound));
    assert!(has(&Capability::AudioInput));
    assert!(has(&Capability::FsRead("/var/kiki/data".into())));
}

#[test]
fn a_manifest_that_asks_for_nothing_gets_nothing() {
    assert!(Capability::from_manifest(&blank_manifest()).is_empty());
}

#[test]
fn rights_are_checked_and_compared() {
    let mut set = CapabilitySet::new();
    set.insert(Capability::FsRead("/a".into()));
    set.insert(Capability::FsRead("/a".into()));
    assert_eq!(set.check(&Capability::FsRead("/a".into()), false), CapabilityResult::Allowed);
    assert_eq!(set.check(&Capability::FsRead("/b".into()), false), CapabilityResult::Denied);
    assert_eq!(set.check(&Capability::FsRead("/b".into()), true), CapabilityResult::Bypassed);
    let mut wide = set.copy();
    wide.insert(Capability::GpuCompute);
    assert!(set.is_subset_of(&wide));
    assert!(!wide.is_subset_of(&set));
    assert!(wide.has_by_name("GpuCompute"));
    assert!(!set.has_by_name("GpuCompute"));
}

// ── Tools ───────────────────────────────────────────────────────────────────

fn tool(name: &str, desc: &str) -> ToolSpec {
    ToolSpec {
        name: name.into(),
        description: desc.into(),
        input_schema: doc(r#"{"type":"object"}"#),
    }
}

fn registry() -> ToolRegistry {
    let mut r = ToolRegistry::new();
    r.register(tool("get_weather", "Get the current weather forecast for a city"));
    r.register(tool("read_file", "Read the contents of a file from disk"));
    r.register(tool("write_file", "Write contents to a file on disk"));
    r.register(tool("send_email", "Send an email message to a recipient"));
    r.register(tool("list_process", "List the running processes on the system"));
    r.register(tool("play_audio", "Play an audio track through the speakers"));
    r
}

fn names(r: &ToolRegistry, query: &str, limit: usize) -> Vec<String> {
    r.filter(query, limit).into_iter().map(|t| t.name).collect()
}

#[test]
fn returns_all_sorted_when_within_limit() {
    let r = registry();
    assert_eq!(
        names(&r, "anything", 100),
        vec!["get_weather", "list_process", "play_audio", "read_file", "send_email", "write_file"]
    );
}

#[test]
fn equal_tools_come_by_name_and_the_best_are_kept() {
    let mut r = ToolRegistry::new();
    r.register(tool("zeta", "plays chess"));
    r.register(tool("beta", "plays chess"));
    r.register(tool("alpha", "bakes bread"));
    assert_eq!(names(&r, "chess", 2), vec!["beta", "zeta"]);
    assert_eq!(names(&r, "chess", 1), vec!["beta"]);
    assert_eq!(names(&r, "unheard", 2), vec!["alpha", "beta"]);
}

#[test]
fn ranks_weather_query_first() {
    let r = registry();
    let got = names(&r, "what is the weather in Tokyo?", 2);
    assert_eq!(got[0], "get_weather", "weather tool must rank first, got {got:?}");
}

#[test]
fn ranks_file_query() {
    let r = registry();
    let got = names(&r, "read the config file from disk", 3);
    assert!(got.contains(&"read_file".to_string()), "file tools should rank, got {got:?}");
    assert_eq!(got.len(), 3);
}

#[test]
fn respects_limit() {
    let r = registry();
    assert_eq!(names(&r, "email", 1).len(), 1);
    assert_eq!(names(&r, "email", 1)[0], "send_email");
}

#[test]
fn a_registry_finds_its_tools() {
    let r = registry();
    assert_eq!(r.len(), 6);
    assert!(!r.is_empty());
    assert!(r.get("play_audio").is_some());
    assert!(r.get("PLAY_AUDIO").is_none());
    assert_eq!(tokenize("Read the_file, NOW!"), vec!["read", "file", "now"]);
    assert_eq!(relevance_score(&vec![], "a", "b"), 0);
}

// ── Messages on the wire ────────────────────────────────────────────────────

#[test]
fn surface_inventory_wire_matches_de() {
    let m = ControlMessage::SurfaceInventory {
        surfaces: vec![SurfaceInfo {
            app_id: "org.gnome.TextEditor".into(),
            title: "Untitled".into(),
            x: 0,
            y: 0,
            w: 800,
            h: 600,
            focused: true,
        }],
    };
    same(
        &m.to_json(),
        r#"{
            "type": "surface_inventory",
            "surfaces": [{
                "app_id": "org.gnome.TextEditor",
                "title": "Untitled",
                "x": 0, "y": 0, "w": 800, "h": 600,
                "focused": true
            }]
        }"#,
    );
    let line = r#"{"type":"surface_inventory","surfaces":[{"app_id":"a","title":"t","x":1,"y":2,"w":3,"h":4,"focused":false}]}"#;
    match ControlMessage::from_json(&doc(line)).unwrap() {
        ControlMessage::SurfaceInventory { surfaces } => {
            assert_eq!(surfaces.len(), 1);
            assert_eq!(surfaces[0].app_id, "a");
            assert_eq!(surfaces[0].w, 3);
        }
        _ => panic!("expected SurfaceInventory"),
    }
}

#[test]
fn resume_session_wire_matches_de() {
    let m = ControlMessage::ResumeSession { session_id: "s1".into() };
    same(&m.to_json(), r#"{ "type": "resume_session", "session_id": "s1" }"#);
    let parsed =
        ControlMessage::from_json(&doc(r#"{"type":"resume_session","session_id":"x"}"#)).unwrap();
    assert!(matches!(parsed, ControlMessage::ResumeSession { session_id } if session_id == "x"));
}

#[test]
fn create_session_wire_matches_de() {
    let m =
        ControlMessage::CreateSession { session_id: "d2".into(), label: Some("Work".into()) };
    same(&m.to_json(), r#"{ "type": "create_session", "session_id": "d2", "label": "Work" }"#);
    let parsed = ControlMessage::from_json(&doc(
        r#"{"type":"create_session","session_id":"d3","label":null}"#,
    ))
    .unwrap();
    assert!(matches!(parsed, ControlMessage::CreateSession { session_id, label }
        if session_id == "d3" && label.is_none()));
}

#[test]
fn oobe_and_lock_wire_matches_de() {
    let m = ControlMessage::OobeInput {
        step: "welcome".into(),
        value: doc(r#"{ "device_name": "kiki-home" }"#),
    };
    let v = m.to_json();
    assert_eq!(v.at("type").as_str(), Some("oobe_input"));
    assert_eq!(v.at("step").as_str(), Some("welcome"));
    assert_eq!(v.at("value").at("device_name").as_str(), Some("kiki-home"));
    let back = ControlMessage::from_json(&v).unwrap();
    assert!(matches!(back, ControlMessage::OobeInput { ref step, .. } if step == "welcome"));

    let m = ControlMessage::LockSession { session_id: "s1".into() };
    same(&m.to_json(), r#"{ "type": "lock_session", "session_id": "s1" }"#);

    let m = ControlMessage::UnlockSession { session_id: "s1".into(), pin: Some("1234".into()) };
    let v = m.to_json();
    assert_eq!(v.at("type").as_str(), Some("unlock_session"));
    assert_eq!(v.at("pin").as_str(), Some("1234"));

    let m = ControlMessage::UnlockSession { session_id: "s2".into(), pin: None };
    let v = m.to_json();
    assert_eq!(v.at("type").as_str(), Some("unlock_session"));
    assert!(matches!(v.get("pin"), Some(Json::Null)));
}

#[test]
fn unknown_messages_are_not_read() {
    assert!(ControlMessage::from_json(&doc(r#"{"type":"nonsense"}"#)).is_none());
    assert!(ControlMessage::from_json(&doc(r#"{"type":"resume_session"}"#)).is_none());
    assert!(ControlMessage::from_json(&doc("[]")).is_none());
}

// ── The capability gate ────────────────────────────────────────────────────────────────

fn call(name: &str) -> ToolCall {
    ToolCall { id: "t1".into(), name: name.into(), input: doc(r#"{"path":"/a"}"#) }
}

#[test]
fn the_capability_gate_denies_what_is_not_granted() {
    let mut gate = CapabilityGate::new(CapabilitySet::new());
    let step = gate.check(
        &call("fs_read"),
        ControlMode::BypassPermissions,
        &vec![Capability::FsRead("/a".into())],
        "q1",
        7,
    );
    match step {
        GateStep::Decided(GateDecision::Skip { reason }) => {
            assert!(reason.contains("FsRead"), "{}", reason)
        }
        _ => panic!("a right that is not granted is denied"),
    }
    let log = gate.audit_log();
    assert_eq!(log.len(), 1);
    assert_eq!(log[0].action, AuditAction::Denied);
    assert_eq!(log[0].timestamp_ms, 7);
}

#[test]
fn the_capability_gate_asks_and_concludes() {
    let mut gate = CapabilityGate::new(CapabilitySet::new());
    let ask = match gate.check(&call("fs_read"), ControlMode::HumanMode, &vec![], "q1", 1) {
        GateStep::Ask(a) => a,
        _ => panic!("a human is asked"),
    };
    assert_eq!(ask.request_id, "gate-fs_read-q1");
    assert!(ask
        .signals
        .iter()
        .any(|s| matches!(s, SurfaceSignal::ApprovalRequired { request_id, .. } if request_id == "gate-fs_read-q1")));
    assert!(gate.resolve_approval("other", ApprovalDecision::Approved).is_none());
    let answer = gate.resolve_approval("gate-fs_read-q1", ApprovalDecision::Approved);
    assert!(matches!(answer, Some(ApprovalDecision::Approved)));
    assert!(gate.resolve_approval("gate-fs_read-q1", ApprovalDecision::Approved).is_none());
    let decision = gate.conclude(
        &call("fs_read"),
        ApprovalAnswer::Answered(ApprovalDecision::Redirected { new_intent: "no".into() }),
        3,
    );
    assert!(matches!(decision, Ok(GateDecision::Redirect { new_intent }) if new_intent == "no"));
    let late = gate.conclude(&call("fs_read"), ApprovalAnswer::Silent, 4);
    assert!(matches!(late, Err(e) if e.message() == "transport error: Approval timed out"));
    assert_eq!(gate.audit_log()[0].action, AuditAction::TimedOut);
}

#[test]
fn the_capability_gate_bypasses_and_stops_destructive_tools() {
    let mut gate = CapabilityGate::new(CapabilitySet::new());
    let step = gate.check(&call("fs_read"), ControlMode::BypassPermissions, &vec![], "q", 1);
    assert!(matches!(step, GateStep::Decided(GateDecision::Proceed)));
    assert_eq!(gate.audit_log()[0].action, AuditAction::Bypassed);
    assert!(!is_destructive("fs_read"));
    let destructive = ["fs_delete", "fs_write", "shell_exec", "delete_file", "process_kill"];
    assert!(destructive.iter().any(|n| is_destructive(n)));
}

// ── The conversation ────────────────────────────────────────────────────────

#[test]
fn a_prompt_is_set_once() {
    let mut ctx = Context::new("a".into(), "s".into());
    assert!(ctx.system_prompt().is_none());
    ctx.set_system_prompt("one".into());
    ctx.push_user_text("hi".into(), 5);
    ctx.set_system_prompt("two".into());
    assert_eq!(ctx.system_prompt(), Some("two"));
    assert_eq!(ctx.messages.len(), 2);
    ctx.set_mode(ControlMode::BypassPermissions);
    assert!(ctx.is_bypass());
    assert_eq!(last_user_text(&ctx.messages), "hi");
    ctx.push_assistant(AssistantTurn { thinking: None, text: Some("yo".into()), tool_calls: vec![] });
    assert_eq!(last_answer(&ctx.messages), "yo");
}

#[test]
fn messages_go_to_the_provider() {
    let m = conversation_to_provider(&user("hi")).unwrap();
    assert_eq!(m.role, Role::User);
    assert!(matches!(&m.content[0], ProviderBlock::Text { text } if text == "hi"));
    assert!(conversation_to_provider(&ConversationMessage::system("p".into())).is_none());
    let results = ConversationMessage::ToolResults {
        results: vec![ToolResult::err("t1".into(), "boom".into())],
    };
    let m = conversation_to_provider(&results).unwrap();
    assert!(matches!(&m.content[0],
        ProviderBlock::ToolResult { tool_use_id, content, is_error }
            if tool_use_id == "t1" && content == "boom" && *is_error));
}

#[test]
fn a_perception_is_told_from_a_text() {
    assert!(!ContentBlock::text("x".into()).is_perception());
    let seen = ContentBlock::KernelEvent { kind: "usb".into(), data: doc(r#"{"n":1}"#) };
    assert!(seen.is_perception());
}

#[test]
fn interrupts_and_modes() {
    let i = Interrupt::confirmation("i1".into(), "sure?".into());
    assert_eq!(i.kind, InterruptKind::Confirmation);
    let i = i.with_context(doc(r#"{"a":1}"#));
    assert_eq!(i.context.get_natural("a"), Some(1));
    assert!(ControlMode::AgentMode.is_autonomous());
    assert!(ControlMode::HumanMode.requires_approval_for_all());
    assert!(ControlMode::BypassPermissions.is_bypass());
    assert_ne!(ControlMode::AgentMode.wire_name(), ControlMode::HumanMode.wire_name());
    assert!(InterruptKind::Attention.is_visual(true));
    assert!(InterruptKind::Confirmation.is_visual(false));
    assert!(!InterruptKind::Confirmation.is_visual(true));
    assert!(!InterruptKind::Info.is_visual(false));
    assert!(InterruptKind::DecisionRequired.can_be_autonomous());
    assert!(!InterruptKind::Attention.can_be_autonomous());
}

#[test]
fn errors_in_words() {
    assert_eq!(Error::ToolNotFound("x".into()).message(), "tool not found: x");
}
