use kiki::agent::capability::CapabilitySet;
use kiki::agent::context::Context;
use kiki::agent::error::Error;
use kiki::agent::harness::AgentEvent;
use kiki::agent::types::{AssistantTurn, ConversationMessage};
use kiki::orchestrator::bus::{BusEvent, WrappedAgentEvent};
use kiki::orchestrator::dreamer::{
    distill, distill_request, fact_key, format_transcript, make_fact, parse_facts,
    strip_code_fence,
};
use kiki::orchestrator::scheduler::{SessionPriority, SessionScheduler};
use kiki::orchestrator::session::{AgentSession, SessionManager, SessionPhase};

#[test]
fn parses_strict_array() {
    let v = parse_facts("[\"user prefers Rust\",\"deploys via OSTree\"]");
    assert_eq!(v.len(), 2);
}

#[test]
fn parses_array_in_prose() {
    let v = parse_facts("Here are the facts:\n[\"a\",\"b\"]\nThat's it.");
    assert_eq!(v, vec!["a", "b"]);
}

#[test]
fn parses_fenced_array() {
    let v = parse_facts("```json\n[\"a\"]\n```");
    assert_eq!(v, vec!["a"]);
}

#[test]
fn empty_on_garbage() {
    assert!(parse_facts("not json at all").is_empty());
}

#[test]
fn facts_are_made_of_an_answer() {
    let made = distill("agent", "s", "[\"one\",\"two\",\"one\"]", 9);
    assert!(made.iter().all(|f| f.session_id == "s" && f.created_at_ms == 9));
    assert!(made.iter().any(|f| f.text == "two"));
    let fact = make_fact("agent", "s", "one", 0, 9, 0xab);
    assert_eq!(fact.text, "one");
    assert!(fact_key(&fact).contains(&fact.id));
    assert_eq!(fact.to_json().get_text("text").as_deref(), Some("one"));
    assert_eq!(strip_code_fence("```\nx\n```").unwrap().trim(), "x");
    assert!(strip_code_fence("x").is_none());
}

#[test]
fn a_transcript_is_asked_about() {
    let messages = vec![
        ConversationMessage::user_text("hello".into(), 0),
        ConversationMessage::Assistant(AssistantTurn {
            thinking: None,
            text: Some("hi".into()),
            tool_calls: vec![],
        }),
    ];
    let transcript = format_transcript(&messages);
    assert!(transcript.contains("hello") && transcript.contains("hi"));
    assert!(distill_request("m", &vec![]).is_none());
    let request = distill_request("m", &messages).unwrap();
    assert_eq!(request.model, "m");
}

fn session(id: &str) -> AgentSession {
    AgentSession::new(id, "label", "agent")
}

#[test]
fn one_session_is_in_the_foreground() {
    let mut s = SessionScheduler::new();
    assert!(s.foreground().is_none());
    assert!(s.add(session("a"), SessionPriority::Foreground));
    assert!(s.add(session("b"), SessionPriority::Foreground));
    assert!(matches!(s.foreground(), Some(f) if f.id == "b"));
    s.set_foreground("a");
    assert!(matches!(s.foreground(), Some(f) if f.id == "a"));
    let list = s.running_by_priority();
    assert_eq!(list[0].id, "a");
    assert_eq!(list.iter().filter(|l| l.priority == SessionPriority::Foreground).count(), 1);
    s.set_background("a");
    assert!(s.foreground().is_none());
    assert_eq!(s.session_count(), 2);
    assert!(matches!(s.remove("a"), Some(f) if f.id == "a"));
    assert!(s.remove("a").is_none());
}

#[test]
fn there_is_room_for_so_many_sessions() {
    let mut s = SessionScheduler::default();
    let mut n = 0;
    while !s.at_capacity() {
        assert!(s.add(session(&format!("s{n}")), SessionPriority::Normal));
        n += 1;
    }
    assert_eq!(s.session_count(), n);
    assert!(!s.add(session("more"), SessionPriority::Normal));
    assert_eq!(s.session_count(), n);
}

#[test]
fn a_session_is_frozen_and_restored() {
    let mut s = session("a");
    let mut ctx = Context::new("agent".into(), "a".into());
    ctx.push_user_text("hi".into(), 1);
    assert!(s.build_snapshot(&ctx).is_err());
    s.request_freeze();
    assert!(s.should_freeze());
    s.confirm_freeze();
    let snap = match s.build_snapshot(&ctx) {
        Ok(s) => s,
        Err(e) => panic!("{}", e.message()),
    };
    let back = Context::from_snapshot(&snap, CapabilitySet::new());
    assert_eq!(back.session_id, "a");
    assert_eq!(back.messages.len(), 1);
    s.begin_migration("n2");
    assert_eq!(s.target_node.as_deref(), Some("n2"));
    s.complete_migration("n2");
    assert!(matches!(s.phase(), SessionPhase::Migrated { target_node } if target_node == "n2"));
    s.resume();
    assert!(s.is_running());
    s.fail("boom");
    assert!(matches!(s.phase(), SessionPhase::Failed { reason } if reason == "boom"));
}

#[test]
fn sessions_are_managed() {
    let mut m = SessionManager::new();
    m.add(session("b"));
    let mut done = session("a");
    done.complete();
    m.add(done);
    assert_eq!(m.all(), vec!["a", "b"]);
    assert_eq!(m.running(), vec!["b"]);
    assert!(m.get("a").is_some());
    assert!(m.remove("a").is_some());
    assert!(m.get("a").is_none());
}

#[test]
fn events_on_the_bus() {
    let e = WrappedAgentEvent::of_event(&AgentEvent::Content { text: "hi".into() });
    assert_eq!(e.payload.get_text("text").as_deref(), Some("hi"));
    let v = BusEvent::agent("s", &AgentEvent::Error { error: "x".into() }).to_json();
    assert!(v.to_text().contains("\"s\""));
    assert!(matches!(Error::Migration("m".into()).message(), m if m.contains("m")));
}
