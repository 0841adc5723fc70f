use kiki::agent::context::Context;
use kiki::agent::error::Error;
use kiki::fleet::auth::{poll_answer, AuthError, DeviceCode, DeviceFlow, PollOutcome, TokenStore};
use kiki::fleet::client::{read_pending, FleetClient, HEARTBEAT_SECS};
use kiki::fleet::migration::{
    MigrationReceiver, MigrationSender, ReceiveAction, SendAction, SendEvent, SendPhase,
};
use kiki::fleet::sync::{
    cloud_node, heartbeat_message, patch_message, socket_url, tool_result_message, DeviceInbound,
    StatePatch,
};
use kiki::json;
use kiki::json::Json;
use kiki::orchestrator::session::{AgentSession, SessionPhase};

fn doc(text: &str) -> Json {
    json::parse(text).unwrap()
}

#[test]
fn token_store_roundtrip() {
    let store = TokenStore::new("/etc/kiki/token");
    assert_eq!(store.path, "/etc/kiki/token");
    assert!(TokenStore::token_in(None).is_none());
    assert_eq!(TokenStore::token_in(Some("abc.def.ghi")).as_deref(), Some("abc.def.ghi"));
    assert_eq!(TokenStore::token_in(Some("abc.def.ghi\n")).as_deref(), Some("abc.def.ghi"));
    assert!(TokenStore::token_in(Some(" \n")).is_none());
}

#[test]
fn answers_to_a_device() {
    assert!(matches!(
        poll_answer(&doc(r#"{"access_token":"t"}"#)),
        Ok(PollOutcome::Authorized { access_token }) if access_token == "t"
    ));
    assert!(matches!(
        poll_answer(&doc(r#"{"error":"authorization_pending"}"#)),
        Ok(PollOutcome::Pending)
    ));
    assert!(matches!(
        poll_answer(&doc(r#"{"error":"expired_token"}"#)),
        Err(AuthError::ExpiredToken)
    ));
    assert!(matches!(
        poll_answer(&doc(r#"{"error":"access_denied"}"#)),
        Err(AuthError::AccessDenied)
    ));
    assert!(poll_answer(&doc("{}")).is_err());
    let flow = DeviceFlow::new("https://auth/");
    assert!(flow.start_url().starts_with("https://auth"));
    assert_ne!(flow.start_url(), flow.token_url());
    let code = DeviceCode {
        device_code: "d".into(),
        user_code: "u".into(),
        verification_uri: "v".into(),
        expires_in: 1,
        interval: 0,
    };
    assert!(DeviceFlow::interval(&code) >= 1);
    assert!(DeviceFlow::token_body("dc").to_text().contains("dc"));
}

#[test]
fn paths_of_the_fleet() {
    let c = FleetClient::new("https://f", "n1").with_token("t");
    assert_eq!(c.node_id(), "n1");
    assert!(c.url(&c.register_path()).starts_with("https://f/"));
    assert!(c.migrations_path().contains("n1"));
    assert!(c.pending_path("s1").contains("s1"));
    assert!(FleetClient::migrate_path("s1").contains("s1"));
    assert_eq!(HEARTBEAT_SECS, 60);
    let body = FleetClient::complete_body("n2").to_text();
    assert!(body.contains("n2"), "{}", body);
}

#[test]
fn pending_migrations_are_read() {
    assert!(read_pending(&doc("[]")).is_none() || read_pending(&doc("[]")).unwrap().is_empty());
    assert!(read_pending(&doc("5")).is_none());
}

#[test]
fn fleet_migration_relay_round_trip() {
    let mut session = AgentSession::new("s1", "l", "a");
    let ctx = Context::new("a".into(), "s1".into());
    let (mut sender, action) = MigrationSender::begin(&mut session, "n2");
    assert!(matches!(action, SendAction::AwaitFreeze));
    assert!(session.should_freeze());
    session.confirm_freeze();
    match sender.step(&mut session, &ctx, SendEvent::Frozen) {
        SendAction::MakeBundle(snapshot) => assert_eq!(snapshot.session_id, "s1"),
        _ => panic!("a bundle"),
    }
    assert!(matches!(sender.step(&mut session, &ctx, SendEvent::Bundled), SendAction::Push));
    assert!(matches!(sender.step(&mut session, &ctx, SendEvent::Pushed), SendAction::Relay));
    assert!(matches!(sender.step(&mut session, &ctx, SendEvent::Relayed), SendAction::Done));
    assert!(matches!(session.phase(), SessionPhase::Migrating));
    assert_eq!(session.target_node.as_deref(), Some("n2"));

    let (mut receiver, action) = MigrationReceiver::begin(&Some("ref".into()));
    assert!(matches!(action, ReceiveAction::Pull { ref_hash } if ref_hash == "ref"));
    assert!(matches!(receiver.step(Ok(())), ReceiveAction::Restore));
    assert!(matches!(receiver.step(Ok(())), ReceiveAction::Acknowledge));
    assert!(matches!(receiver.step(Ok(())), ReceiveAction::Run));
    let (mut receiver, _) = MigrationReceiver::begin(&Some("ref".into()));
    assert!(matches!(receiver.step(Err(Error::Io("x".into()))), ReceiveAction::Stop(_)));
}

#[test]
fn a_migration_that_fails_stops() {
    let mut session = AgentSession::new("s1", "l", "a");
    let ctx = Context::new("a".into(), "s1".into());
    let (mut sender, _) = MigrationSender::begin(&mut session, "n2");
    let stop = sender.step(&mut session, &ctx, SendEvent::FreezeDropped);
    assert!(matches!(stop, SendAction::Stop(_)));
    assert!(matches!(sender.phase, SendPhase::Failed));
}

#[test]
fn device_state_reaches_cloud_and_app() {
    let patch = StatePatch::agent_status(doc(r#"{"s":"busy"}"#));
    let v = patch_message(&patch);
    assert!(v.to_text().contains("busy"));
    assert!(!v.to_text().contains("scenario"));
    assert!(heartbeat_message(7).to_text().contains("7"));
    let r = tool_result_message("r1", doc("{}"), &None);
    assert!(r.to_text().contains("r1"));
    let call = DeviceInbound::read(r#"{"type":"TOOL_CALL","requestId":"r","tool":"t","input":{}}"#)
        .or(DeviceInbound::read(r#"{"type":"tool_call","request_id":"r","tool":"t","input":{}}"#));
    assert!(matches!(call, Some(DeviceInbound::ToolCall { tool, .. }) if tool == "t"));
    assert!(DeviceInbound::read("nonsense").is_none());
    assert!(socket_url("https://c", "s1").contains("s1"));
    assert!(cloud_node("s1").contains("s1"));
}
