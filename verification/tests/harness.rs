use kiki::agent::capability::{Capability, CapabilitySet};
use kiki::agent::context::Context;
use kiki::agent::control::ControlMessage;
use kiki::agent::gate::{ApprovalAnswer, CapabilityGate};
use kiki::agent::harness::{
    AgentEvent, Effect, Harness, HarnessAction, HarnessConfig, HarnessEvent, HarnessOutcome,
    Step, ToolRun,
};
use kiki::agent::mode::ControlMode;
use kiki::agent::provider::{CompletionRequest, StreamChunk, ToolSpec};
use kiki::agent::surface::SurfaceSignal;
use kiki::agent::tool::{ToolOutput, ToolRegistry};
use kiki::agent::types::{ApprovalDecision, ConversationMessage};
use kiki::json;

fn harness(mode: ControlMode) -> Harness {
    let mut ctx = Context::new("agent".into(), "s1".into());
    ctx.set_mode(mode);
    let mut tools = ToolRegistry::new();
    tools.register(ToolSpec {
        name: "fs_read".into(),
        description: "Read a file".into(),
        input_schema: json::parse("{}").unwrap(),
    });
    let mut granted = CapabilitySet::new();
    granted.insert(Capability::FsRead("/a".into()));
    Harness::new(ctx, HarnessConfig::default(), tools, CapabilityGate::new(granted))
}

fn input(text: &str) -> HarnessEvent {
    HarnessEvent::Control { message: ControlMessage::UserInput { text: text.into() }, now_ms: 1 }
}

fn prompt(text: &str) -> HarnessEvent {
    HarnessEvent::Prompted(text.into())
}

fn nothing_seen() -> HarnessEvent {
    HarnessEvent::Perceived { blocks: vec![], now_ms: 1 }
}

/// Brings a loop to the point where the model is asked.
fn asked(h: &mut Harness, text: &str) -> CompletionRequest {
    assert!(matches!(h.start(), HarnessAction::Prompt));
    assert!(matches!(h.step(prompt("you are kiki")).action, HarnessAction::PollControl));
    assert!(matches!(h.step(input(text)).action, HarnessAction::PollControl));
    next_request(h, "you are kiki")
}

fn next_request(h: &mut Harness, p: &str) -> CompletionRequest {
    assert!(matches!(h.step(HarnessEvent::NoControl).action, HarnessAction::Perceive));
    assert!(matches!(h.step(nothing_seen()).action, HarnessAction::Prompt));
    match h.step(prompt(p)).action {
        HarnessAction::Stream(request) => request,
        _ => panic!("the model is asked"),
    }
}

fn call(name: &str) -> HarnessEvent {
    HarnessEvent::Chunk(StreamChunk::ToolCall {
        id: "c1".into(),
        name: name.into(),
        input: json::parse(r#"{"path":"/a"}"#).unwrap(),
    })
}

fn checked() -> HarnessEvent {
    HarnessEvent::Checked {
        needed: vec![Capability::FsRead("/a".into())],
        ticket: "t".into(),
        now_ms: 2,
    }
}

fn has_event(step: &Step, wanted: fn(&AgentEvent) -> bool) -> bool {
    step.effects.iter().any(|e| matches!(e, Effect::Emit(event) if wanted(event)))
}

#[test]
fn a_session_without_tools_completes() {
    let mut h = harness(ControlMode::AgentMode);
    let request = asked(&mut h, "hello");
    assert_eq!(request.system.as_deref(), Some("you are kiki"));
    assert_eq!(request.messages.len(), 1);
    assert_eq!(request.tools.len(), 1);
    let step = h.step(HarnessEvent::Chunk(StreamChunk::Text("hi ".into())));
    assert!(matches!(step.action, HarnessAction::NextChunk));
    assert!(has_event(&step, |e| matches!(e, AgentEvent::Content { text } if text == "hi ")));
    h.step(HarnessEvent::Chunk(StreamChunk::Thinking("hm".into())));
    h.step(HarnessEvent::Chunk(StreamChunk::Text("there".into())));
    let step = h.step(HarnessEvent::Chunk(StreamChunk::Done));
    assert!(matches!(step.action, HarnessAction::Finish(HarnessOutcome::Complete)));
    assert!(has_event(&step, |e| matches!(e, AgentEvent::Done { steps: 1, .. })));
    assert!(step
        .effects
        .iter()
        .any(|e| matches!(e, Effect::Signal(SurfaceSignal::Done { summary }) if summary == "hi there")));
    assert!(step
        .effects
        .iter()
        .any(|e| matches!(e, Effect::Commit(m) if m == "s1 — session_complete")));
    assert!(matches!(h.step(HarnessEvent::NoControl).action, HarnessAction::Unexpected));
}

#[test]
fn a_tool_runs_and_its_result_goes_back() {
    let mut h = harness(ControlMode::AgentMode);
    asked(&mut h, "read it");
    h.step(call("fs_read"));
    let step = h.step(HarnessEvent::StreamEnded);
    assert!(matches!(step.action, HarnessAction::CheckTool { name } if name == "fs_read"));
    let step = h.step(checked());
    assert!(matches!(&step.action, HarnessAction::Run { name, .. } if name == "fs_read"));
    assert!(has_event(&step, |e| matches!(e, AgentEvent::ToolStart { .. })));
    let step = h.step(HarnessEvent::Ran(ToolRun::Finished(ToolOutput::ok(
        json::parse(r#"{"lines":3}"#).unwrap(),
    ))));
    assert!(matches!(step.action, HarnessAction::PollControl));
    assert!(has_event(&step, |e| matches!(e, AgentEvent::ToolComplete { success: true, .. })));
    match h.ctx.messages.last() {
        Some(ConversationMessage::ToolResults { results }) => {
            assert_eq!(results.len(), 1);
            assert_eq!(results[0].tool_call_id, "c1");
            assert_eq!(results[0].content, r#"{"lines":3}"#);
            assert!(!results[0].is_error);
        }
        _ => panic!("results"),
    }
    assert_eq!(next_request(&mut h, "now").system.as_deref(), Some("now"));
}

#[test]
fn a_tool_without_its_rights_is_skipped() {
    let mut h = harness(ControlMode::BypassPermissions);
    asked(&mut h, "read it");
    h.step(call("fs_read"));
    h.step(HarnessEvent::StreamEnded);
    let step = h.step(HarnessEvent::Checked {
        needed: vec![Capability::FsRead("/etc".into())],
        ticket: "t".into(),
        now_ms: 2,
    });
    assert!(matches!(step.action, HarnessAction::PollControl));
    assert!(matches!(h.ctx.messages.last(),
        Some(ConversationMessage::ToolResults { results })
            if results[0].is_error && results[0].content.starts_with("[rejected by user] ")));
}

#[test]
fn unknown_tools_and_failures_are_results() {
    let mut h = harness(ControlMode::AgentMode);
    asked(&mut h, "go");
    h.step(call("nonsense"));
    h.step(call("fs_read"));
    h.step(HarnessEvent::StreamEnded);
    let step = h.step(HarnessEvent::Checked { needed: vec![], ticket: "t".into(), now_ms: 2 });
    assert!(matches!(step.action, HarnessAction::CheckTool { name } if name == "fs_read"));
    h.step(checked());
    h.step(HarnessEvent::Ran(ToolRun::Failed("boom".into())));
    match h.ctx.messages.last() {
        Some(ConversationMessage::ToolResults { results }) => {
            assert_eq!(results[0].content, "Unknown tool: nonsense");
            assert_eq!(results[1].content, "boom");
            assert!(results.iter().all(|r| r.is_error));
        }
        _ => panic!("results"),
    }
}

#[test]
fn a_human_is_asked_and_may_redirect() {
    let mut h = harness(ControlMode::HumanMode);
    asked(&mut h, "read it");
    h.step(call("fs_read"));
    h.step(HarnessEvent::StreamEnded);
    let step = h.step(checked());
    assert!(matches!(&step.action, HarnessAction::Ask(q) if q.timeout_secs == 300));
    let step = h.step(HarnessEvent::Answered {
        answer: ApprovalAnswer::Answered(ApprovalDecision::Redirected {
            new_intent: "write instead".into(),
        }),
        now_ms: 9,
    });
    assert!(matches!(step.action, HarnessAction::PollControl));
    let n = h.ctx.messages.len();
    assert!(matches!(h.ctx.messages[n - 3], ConversationMessage::Assistant(_)));
    assert!(matches!(h.ctx.messages[n - 2], ConversationMessage::ToolResults { .. }));
    assert!(matches!(h.ctx.messages[n - 1], ConversationMessage::User { .. }));
}

#[test]
fn an_approved_call_runs() {
    let mut h = harness(ControlMode::HumanMode);
    asked(&mut h, "read it");
    h.step(call("fs_read"));
    h.step(HarnessEvent::StreamEnded);
    h.step(checked());
    let step = h.step(HarnessEvent::Answered {
        answer: ApprovalAnswer::Answered(ApprovalDecision::Approved),
        now_ms: 9,
    });
    assert!(matches!(step.action, HarnessAction::Run { .. }));
}

#[test]
fn errors_are_healed_so_often() {
    let mut h = harness(ControlMode::AgentMode);
    asked(&mut h, "go");
    for attempt in 1..=3 {
        let step = h.step(HarnessEvent::Failed("down".into()));
        assert!(matches!(step.action, HarnessAction::Prompt));
        assert!(has_event(&step, |e| matches!(e, AgentEvent::Healing { .. })));
        h.step(prompt("again"));
        let request = next_request(&mut h, "again");
        assert_eq!(
            request.system,
            Some(format!(
                "again\n\n[auto-heal attempt {attempt}] Previous turn failed: down. Adjust your approach and continue."
            ))
        );
    }
    let step = h.step(HarnessEvent::Failed("down".into()));
    assert!(matches!(step.action, HarnessAction::Fail(e) if e == "down"));
}

#[test]
fn memory_joins_the_prompt() {
    let mut h = harness(ControlMode::AgentMode).with_memory();
    h.step(prompt("p"));
    h.step(input("deploy"));
    h.step(HarnessEvent::NoControl);
    let step = h.step(nothing_seen());
    assert!(matches!(step.action, HarnessAction::Recall { hint } if hint == "deploy"));
    let step = h.step(HarnessEvent::Recalled(vec!["likes tea".into()]));
    assert!(matches!(step.action, HarnessAction::Prompt));
    match h.step(prompt("p")).action {
        HarnessAction::Stream(r) => assert_eq!(
            r.system.as_deref(),
            Some("p\n\n# Relevant memory (on-device; from prior sessions)\n- likes tea")
        ),
        _ => panic!("the model is asked"),
    }
}

#[test]
fn a_fresh_session_waits_for_input_and_stops() {
    let mut h = harness(ControlMode::AgentMode);
    h.step(prompt("p"));
    h.step(HarnessEvent::NoControl);
    assert!(matches!(h.step(nothing_seen()).action, HarnessAction::AwaitControl));
    let stop = HarnessEvent::Control {
        message: ControlMessage::StopSession { session_id: "s1".into() },
        now_ms: 1,
    };
    assert!(matches!(h.step(stop).action, HarnessAction::Finish(HarnessOutcome::Stopped)));

    let mut h = harness(ControlMode::AgentMode);
    h.step(prompt("p"));
    h.step(HarnessEvent::NoControl);
    h.step(nothing_seen());
    let closed = h.step(HarnessEvent::ControlClosed);
    assert!(matches!(closed.action, HarnessAction::Finish(HarnessOutcome::Stopped)));
}

#[test]
fn a_stop_ends_the_answer() {
    let mut h = harness(ControlMode::AgentMode);
    asked(&mut h, "go");
    h.step(HarnessEvent::Chunk(StreamChunk::Text("I am".into())));
    assert!(matches!(h.step(input("wait")).action, HarnessAction::NextChunk));
    let stop = HarnessEvent::Control {
        message: ControlMessage::StopSession { session_id: "s1".into() },
        now_ms: 1,
    };
    assert!(matches!(h.step(stop).action, HarnessAction::Finish(HarnessOutcome::Stopped)));
}

#[test]
fn parking_freezes_and_the_limit_ends() {
    let mut h = harness(ControlMode::AgentMode);
    h.step(prompt("p"));
    let park = HarnessEvent::Control {
        message: ControlMessage::ParkSession { session_id: "s1".into() },
        now_ms: 1,
    };
    let step = h.step(park);
    assert!(matches!(step.action, HarnessAction::Finish(HarnessOutcome::Frozen)));
    assert!(has_event(&step, |e| matches!(e, AgentEvent::Checkpoint { reason, .. } if reason == "park")));

    let mut h = harness(ControlMode::AgentMode);
    h.ctx.max_steps = Some(0);
    h.step(prompt("p"));
    let step = h.step(HarnessEvent::NoControl);
    assert!(matches!(step.action, HarnessAction::Finish(HarnessOutcome::StepLimit)));
}

#[test]
fn the_mode_is_changed() {
    let mut h = harness(ControlMode::AgentMode);
    h.step(prompt("p"));
    let step = h.step(HarnessEvent::Control {
        message: ControlMessage::ModeChange { mode: ControlMode::HumanMode },
        now_ms: 1,
    });
    assert!(has_event(&step, |e| matches!(e, AgentEvent::ModeChange { mode: ControlMode::HumanMode })));
    assert_eq!(h.ctx.control_mode, ControlMode::HumanMode);
    assert_eq!(h.ctx.interrupt_log[0].message, "Mode changed to HumanMode");
}

#[test]
fn a_question_without_an_answer_is_an_error() {
    let mut h = harness(ControlMode::HumanMode);
    asked(&mut h, "read it");
    h.step(call("fs_read"));
    h.step(HarnessEvent::StreamEnded);
    let step = h.step(HarnessEvent::Checked { needed: vec![], ticket: "q".into(), now_ms: 2 });
    assert!(matches!(step.action, HarnessAction::Ask(_)));
    let step = h.step(HarnessEvent::Answered { answer: ApprovalAnswer::Silent, now_ms: 3 });
    assert!(matches!(step.action, HarnessAction::Prompt));
    assert!(step.effects.iter().any(|e| matches!(
        e,
        Effect::Emit(AgentEvent::Healing { attempt: 1, error })
            if error == "transport error: Approval timed out"
    )));
}

#[test]
fn an_interval_matters_only_without_permissions() {
    let mut ctx = Context::new("agent".into(), "s1".into());
    ctx.set_mode(ControlMode::HumanMode);
    let config = HarnessConfig { bypass_checkpoint_interval: 0, ..HarnessConfig::default() };
    let gate = CapabilityGate::new(CapabilitySet::new());
    let mut h = Harness::new(ctx, config, ToolRegistry::new(), gate);
    asked(&mut h, "hello");
    let step = h.step(HarnessEvent::Chunk(StreamChunk::Done));
    assert!(has_event(&step, |e| matches!(e, AgentEvent::Done { steps: 1, .. })));
}
