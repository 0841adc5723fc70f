use kiki::agent::control::OobeStepKind;
use kiki::agent::harness::AgentEvent;
use kiki::daemon::lock::{
    lock_timeout_secs, InactivityTracker, LockManager, LockStatus, LockTimer, SessionLockState,
    TimerStep,
};
use kiki::daemon::oobe::{
    default_model, OobeAction, OobeEvent, OobeInputMsg, OobeState,
};
use kiki::daemon::recall::{
    detect_correction, is_correction, recall_lines, recall_queries, reflection_write,
};
use kiki::json;
use kiki::json::Json;
use kiki::memory::protocol::{
    EpisodeEvent, MemoryHit, MemoryLayer, MemoryQuery, MemoryResult, MemoryWrite, Score,
    UserProfile,
};

fn doc(text: &str) -> Json {
    json::parse(text).unwrap()
}

// ── The lock screen ─────────────────────────────────────────────────────────

#[test]
fn lock_and_unlock_emits_events() {
    let mut mgr = LockManager::new();
    assert!(!mgr.is_locked("s1"));

    let v = doc(&mgr.lock("s1"));
    assert!(mgr.is_locked("s1"));
    assert_eq!(v.at("type").as_str(), Some("session_locked"));
    assert_eq!(v.at("session_id").as_str(), Some("s1"));

    let (accepted, line) = mgr.unlock("s1", None);
    assert!(accepted, "unlock with no pin should be accepted");
    assert!(!mgr.is_locked("s1"));
    let v = doc(&line);
    assert_eq!(v.at("type").as_str(), Some("session_unlocked"));
    assert_eq!(v.at("session_id").as_str(), Some("s1"));
}

#[test]
fn unlock_with_pin_is_accepted() {
    let mut mgr = LockManager::new();
    mgr.lock("s2");
    assert!(mgr.unlock("s2", Some("1234")).0);
    assert!(!mgr.is_locked("s2"));
}

#[test]
fn unlock_unlocked_session_is_noop_and_accepted() {
    let mut mgr = LockManager::new();
    assert!(mgr.unlock("unknown", None).0);
}

#[test]
fn lock_multiple_sessions_independently() {
    let mut mgr = LockManager::new();
    mgr.lock("sA");
    mgr.lock("sB");
    assert!(mgr.is_locked("sA"));
    assert!(mgr.is_locked("sB"));

    mgr.unlock("sA", None);
    assert!(!mgr.is_locked("sA"));
    assert!(mgr.is_locked("sB"), "sB should still be locked after sA is unlocked");
}

#[test]
fn inactivity_tracker_touch_resets_idle() {
    let mut tracker = InactivityTracker::new(1_000);
    assert!(tracker.idle_secs(1_000) < 2, "should not be idle immediately after creation");
    assert_eq!(tracker.idle_secs(61_999), 60);
    tracker.touch(61_999);
    assert!(tracker.idle_secs(61_999) < 2, "touching should reset the idle clock");
    assert_eq!(tracker.idle_secs(0), 0);
}

#[test]
fn lock_timeout_secs_env_behavior() {
    assert_eq!(lock_timeout_secs(None), 0, "unset → default 0");
    assert_eq!(lock_timeout_secs(Some("300")), 300, "set → reads the value");
    assert_eq!(lock_timeout_secs(Some("5 minutes")), 0);
    assert_eq!(lock_timeout_secs(Some("18446744073709551615")), u64::MAX);
    assert_eq!(lock_timeout_secs(Some("18446744073709551616")), 0);
}

#[test]
fn lock_roundtrip_wire_shape() {
    let mut mgr = LockManager::new();
    assert_eq!(mgr.lock("sess-x"), r#"{"session_id":"sess-x","type":"session_locked"}"#);
    assert_eq!(
        mgr.unlock("sess-x", Some("0000")).1,
        r#"{"session_id":"sess-x","type":"session_unlocked"}"#
    );
}

#[test]
fn the_timer_locks_after_its_time() {
    assert!(LockTimer::new(0).is_none());
    let timer = LockTimer::new(30).unwrap();
    assert_eq!(timer.tick(29), TimerStep::Look);
    assert_eq!(timer.tick(30), TimerStep::Lock { rest_secs: 30 });
    let state = SessionLockState::new();
    assert!(!state.is_locked());
    assert!(SessionLockState { status: LockStatus::Locked }.is_locked());
}

// ── What is learned and recalled ────────────────────────────────────────────

fn episode(event: &AgentEvent, ts_ms: u64) -> EpisodeEvent {
    match reflection_write(event, "s1", ts_ms) {
        Some(MemoryWrite::Episode { event }) => event,
        _ => panic!("expected episode"),
    }
}

#[test]
fn done_event_becomes_session_episode() {
    let event = episode(&AgentEvent::Done { session_id: "s1".into(), steps: 7 }, 1000);
    assert_eq!(event.kind, "session_done");
    assert_eq!(event.outcome, "ok");
    assert!(event.summary.contains("7 steps"));
    assert_eq!(event.id, "session-s1-1000");
}

#[test]
fn error_and_healing_events_are_recorded() {
    let event = episode(&AgentEvent::Error { error: "boom".into() }, 5);
    assert_eq!(event.kind, "agent_error");
    assert_eq!(event.outcome, "error");
    assert!(event.summary.contains("boom"));

    let event = episode(&AgentEvent::Healing { attempt: 2, error: "timeout".into() }, 6);
    assert_eq!(event.kind, "healing");
    assert!(event.summary.contains("attempt 2"));
    assert!(event.summary.contains("timeout"));
    assert_eq!(event.id, "healing-6-2");
}

#[test]
fn non_reflection_events_are_skipped() {
    assert!(reflection_write(&AgentEvent::Thinking { text: "x".into() }, "s1", 1).is_none());
    assert!(reflection_write(&AgentEvent::Content { text: "y".into() }, "s1", 1).is_none());
}

#[test]
fn detects_clear_corrections() {
    assert!(detect_correction("No, don't deploy to prod").is_some());
    assert!(detect_correction("stop using force push").is_some());
    assert!(detect_correction("actually, use the staging bucket").is_some());
    assert!(detect_correction("I prefer concise replies").is_some());
    assert!(detect_correction("that's wrong, the port is 8080").is_some());
    assert_eq!(detect_correction("prefer tabs").unwrap(), "prefer tabs");
}

#[test]
fn ignores_ordinary_requests() {
    assert!(detect_correction("deploy the app to staging").is_none());
    assert!(detect_correction("what's the weather in Tokyo?").is_none());
    assert!(detect_correction("create a new note").is_none());
    assert!(detect_correction("").is_none());
    assert!(detect_correction("   ").is_none());
}

#[test]
fn a_correction_is_trimmed_and_matched_in_lower_case() {
    assert_eq!(detect_correction("  ALWAYS ask first \n").unwrap(), "ALWAYS ask first");
    assert_eq!(detect_correction("STOP USING FORCE PUSH").unwrap(), "STOP USING FORCE PUSH");
    assert!(detect_correction("tune the piano today").is_none());
    assert!(detect_correction("you have no time").is_none());
    assert!(is_correction("incorrect, it is"));
    assert!(!is_correction("that is incorrect"));
    assert!(!is_correction("INCORRECT"));
}

fn hit(layer: MemoryLayer, content: &str) -> MemoryHit {
    MemoryHit { layer, id: "i".into(), score: Score::Full, content: content.into(), ts_ms: 0 }
}

#[test]
fn recall_gathers_identity_corrections_and_hits() {
    let mut profile = UserProfile::default();
    profile.display_name = "Diana".into();
    profile.expertise = vec!["rust".into(), "ops".into()];
    let lines = recall_lines(
        &Some(MemoryResult::Profile { profile }),
        &Some(MemoryResult::Hits { hits: vec![hit(MemoryLayer::Procedural, "be\nshort")] }),
        &Some(MemoryResult::Hits { hits: vec![hit(MemoryLayer::Episodic, "built it")] }),
    );
    assert_eq!(
        lines,
        vec![
            "identity — user is Diana; expertise: rust, ops",
            "correction: be short",
            "Episodic: built it",
        ]
    );
    assert!(recall_lines(&None, &None, &Some(MemoryResult::Done)).is_empty());
    let blank = MemoryResult::Profile { profile: UserProfile::default() };
    assert!(recall_lines(&Some(blank), &None, &None).is_empty());
}

#[test]
fn recall_asks_for_what_it_gathers() {
    let (who, corrections, search) = recall_queries("deploy");
    assert!(matches!(who, MemoryQuery::UserProfile));
    assert!(matches!(corrections, MemoryQuery::Corrections { limit: 5 }));
    assert!(matches!(search, MemoryQuery::Search { query, layers, limit: 5 }
        if query == "deploy" && layers.len() == 3));
}

// ── The first start ─────────────────────────────────────────────────────────

fn told(actions: Vec<OobeAction>) -> Vec<Json> {
    actions
        .into_iter()
        .filter_map(|a| match a {
            OobeAction::Tell(line) => Some(doc(&line)),
            OobeAction::FetchModel => None,
        })
        .collect()
}

fn input(step: &str, value: &str) -> OobeEvent {
    OobeEvent::Input(OobeInputMsg { step: step.into(), value: doc(value) })
}

#[test]
fn oobe_skipped_when_env_set() {
    assert!(OobeState::begin(true).is_none());
}

#[test]
fn oobe_run_emits_steps_in_order() {
    let (mut state, actions) = OobeState::begin(false).unwrap();
    let mut events = told(actions);
    events.extend(told(state.step(input("welcome", r#"{ "device_name": "my-kiki" }"#))));
    assert_eq!(state.device_name.as_deref(), Some("my-kiki"));
    events.extend(told(state.step(input("account_setup", r#"{ "ok": true }"#))));
    assert!(state.is_completed());

    let types: Vec<String> = events.iter().filter_map(|v| v.get_text("type")).collect();
    assert!(types.contains(&"oobe_step".to_string()), "should emit oobe_step events: {types:?}");
    assert!(types.contains(&"oobe_complete".to_string()), "should emit oobe_complete: {types:?}");
    let step_names: Vec<String> = events
        .iter()
        .filter(|v| v.at("type").as_str() == Some("oobe_step"))
        .filter_map(|v| v.get_text("step"))
        .collect();
    assert_eq!(
        step_names,
        ["welcome", "account_setup", "model_download", "done"],
        "OOBE steps out of order: {step_names:?}"
    );
}

#[test]
fn oobe_needed_respects_skip_env() {
    assert!(!OobeState::needed(false, true), "KIKI_SKIP_OOBE=1 should suppress OOBE");
    assert!(OobeState::needed(false, false));
    assert!(!OobeState::needed(true, false));
}

#[test]
fn oobe_advances_past_unknown_steps() {
    let (mut state, _) = OobeState::begin(false).unwrap();
    assert!(state.step(input("account_setup", "{}")).is_empty());
    assert_eq!(state.step, OobeStepKind::Welcome);
    assert_eq!(state.step(input("welcome", r#"{ "device_name": "x" }"#)).len(), 1);
    assert_eq!(state.step(input("account_setup", "{}")).len(), 4);
    assert!(state.is_completed());
}

#[test]
fn oobe_goes_on_with_defaults_when_nobody_answers() {
    let (mut state, _) = OobeState::begin(false).unwrap();
    state.step(OobeEvent::Closed);
    assert_eq!(state.device_name.as_deref(), Some("kiki-device"));
    let actions = state.step(OobeEvent::Closed);
    assert!(actions.iter().any(|a| matches!(a, OobeAction::FetchModel)));
    assert!(state.is_completed());
    assert!(state.step(OobeEvent::Closed).is_empty());
    assert_eq!(default_model(None), "llama3.2:3b");
    assert_eq!(default_model(Some("m")), "m");
}
