//! Events that the parts of the system tell each other.

use vstd::prelude::*;
use crate::agent::harness::AgentEvent;
use crate::agent::harness::AgentEventView;
use crate::json::Json;
use crate::json::JsonNumberView;
use crate::json::JsonView;

verus! {

/// An event of an agent in a form that can be written down.
pub struct WrappedAgentEvent {
    pub kind: String,
    pub payload: Json,
}

/// What such an event is.
#[verifier::ext_equal]
pub struct WrappedView {
    pub kind: Seq<char>,
    pub payload: JsonView,
}

impl View for WrappedAgentEvent {
    type V = WrappedView;

    open spec fn view(&self) -> WrappedView {
        WrappedView { kind: self.kind@, payload: self.payload@ }
    }
}

/// An event of the system.
pub enum BusEvent {
    /// An event of the agent of a session.
    Agent { session_id: String, event: WrappedAgentEvent },
    /// A session started, ended, paused or moved.
    Session { session_id: String, transition: String },
    /// An artifact came or went.
    Artifact { artifact_id: String, installed: bool },
    /// The control mode of a session changed.
    ModeChange { session_id: String, mode: String },
    /// The connection with the fleet changed.
    Fleet { status: String, message: String },
}

/// What an event is.
#[allow(inconsistent_fields)]
#[verifier::ext_equal]
pub enum BusView {
    Agent { session_id: Seq<char>, event: WrappedView },
    Session { session_id: Seq<char>, transition: Seq<char> },
    Artifact { artifact_id: Seq<char>, installed: bool },
    ModeChange { session_id: Seq<char>, mode: Seq<char> },
    Fleet { status: Seq<char>, message: Seq<char> },
}

impl View for BusEvent {
    type V = BusView;

    open spec fn view(&self) -> BusView {
        match self {
            BusEvent::Agent { session_id, event } => BusView::Agent {
                session_id: session_id@,
                event: event@,
            },
            BusEvent::Session { session_id, transition } => BusView::Session {
                session_id: session_id@,
                transition: transition@,
            },
            BusEvent::Artifact { artifact_id, installed } => BusView::Artifact {
                artifact_id: artifact_id@,
                installed: *installed,
            },
            BusEvent::ModeChange { session_id, mode } => BusView::ModeChange {
                session_id: session_id@,
                mode: mode@,
            },
            BusEvent::Fleet { status, message } => BusView::Fleet {
                status: status@,
                message: message@,
            },
        }
    }
}

/// The members of an object with one text.
pub open spec fn one_text(name: Seq<char>, value: Seq<char>) -> Map<Seq<char>, JsonView> {
    Map::empty().insert(name, JsonView::Text(value))
}

/// The number document.
pub open spec fn number(n: nat) -> JsonView {
    JsonView::Number(JsonNumberView::Natural(n as u64))
}

/// An event of an agent in a form that can be written down.
pub open spec fn wrapped(e: AgentEventView) -> WrappedView {
    match e {
        AgentEventView::Thinking { text } => WrappedView {
            kind: "thinking"@,
            payload: JsonView::Object(one_text("text"@, text)),
        },
        AgentEventView::Content { text } => WrappedView {
            kind: "content"@,
            payload: JsonView::Object(one_text("text"@, text)),
        },
        AgentEventView::ToolStart { name, input } => WrappedView {
            kind: "tool_start"@,
            payload: JsonView::Object(one_text("name"@, name).insert("input"@, input)),
        },
        AgentEventView::ToolComplete { name, success } => WrappedView {
            kind: "tool_complete"@,
            payload: JsonView::Object(
                one_text("name"@, name).insert("success"@, JsonView::Bool(success)),
            ),
        },
        AgentEventView::ModeChange { mode } => WrappedView {
            kind: "mode_change"@,
            payload: JsonView::Object(one_text("mode"@, mode.title())),
        },
        AgentEventView::Checkpoint { step, reason } => WrappedView {
            kind: "checkpoint"@,
            payload: JsonView::Object(
                one_text("reason"@, reason).insert("step"@, number(step as nat)),
            ),
        },
        AgentEventView::Compacting { dropped_turns } => WrappedView {
            kind: "compacting"@,
            payload: JsonView::Object(
                Map::empty().insert("dropped_turns"@, number(dropped_turns as nat)),
            ),
        },
        AgentEventView::Healing { attempt, error } => WrappedView {
            kind: "healing"@,
            payload: JsonView::Object(
                one_text("error"@, error).insert("attempt"@, number(attempt as nat)),
            ),
        },
        AgentEventView::Done { session_id, steps } => WrappedView {
            kind: "done"@,
            payload: JsonView::Object(
                one_text("session_id"@, session_id).insert("steps"@, number(steps as nat)),
            ),
        },
        AgentEventView::Error { error } => WrappedView {
            kind: "error"@,
            payload: JsonView::Object(one_text("error"@, error)),
        },
    }
}

/// The document of an event.
pub open spec fn bus_json(e: BusView) -> JsonView {
    match e {
        BusView::Agent { session_id, event } => JsonView::Object(
            one_text("kind"@, "agent"@).insert("session_id"@, JsonView::Text(session_id)).insert(
                "event"@,
                JsonView::Object(one_text("kind"@, event.kind).insert("payload"@, event.payload)),
            ),
        ),
        BusView::Session { session_id, transition } => JsonView::Object(
            one_text("kind"@, "session"@).insert("session_id"@, JsonView::Text(session_id)).insert(
                "transition"@,
                JsonView::Text(transition),
            ),
        ),
        BusView::Artifact { artifact_id, installed } => JsonView::Object(
            one_text("kind"@, "artifact"@).insert(
                "artifact_id"@,
                JsonView::Text(artifact_id),
            ).insert("installed"@, JsonView::Bool(installed)),
        ),
        BusView::ModeChange { session_id, mode } => JsonView::Object(
            one_text("kind"@, "mode_change"@).insert(
                "session_id"@,
                JsonView::Text(session_id),
            ).insert("mode"@, JsonView::Text(mode)),
        ),
        BusView::Fleet { status, message } => JsonView::Object(
            one_text("kind"@, "fleet"@).insert("status"@, JsonView::Text(status)).insert(
                "message"@,
                JsonView::Text(message),
            ),
        ),
    }
}

fn object_with(name: &str, value: &str) -> (v: Json)
    ensures
        v@ == JsonView::Object(one_text(name@, value@)),
{
    Json::object().with(name, Json::of_text(value))
}

impl WrappedAgentEvent {
    /// An event of an agent in a form that can be written down.
    pub fn of_event(e: &AgentEvent) -> (event: Self)
        ensures
            event@ == wrapped(e@),
    {
        let (kind, payload) = match e {
            AgentEvent::Thinking { text } => ("thinking", object_with("text", text.as_str())),
            AgentEvent::Content { text } => ("content", object_with("text", text.as_str())),
            AgentEvent::ToolStart { name, input } => (
                "tool_start",
                object_with("name", name.as_str()).with("input", input.copy()),
            ),
            AgentEvent::ToolComplete { name, success } => (
                "tool_complete",
                object_with("name", name.as_str()).with("success", Json::Bool(*success)),
            ),
            AgentEvent::ModeChange { mode } => (
                "mode_change",
                object_with("mode", mode.title_text().as_str()),
            ),
            AgentEvent::Checkpoint { step, reason } => (
                "checkpoint",
                object_with("reason", reason.as_str()).with("step", Json::of_natural(*step as u64)),
            ),
            AgentEvent::Compacting { dropped_turns } => (
                "compacting",
                Json::object().with("dropped_turns", Json::of_natural(*dropped_turns as u64)),
            ),
            AgentEvent::Healing { attempt, error } => (
                "healing",
                object_with("error", error.as_str()).with(
                    "attempt",
                    Json::of_natural(*attempt as u64),
                ),
            ),
            AgentEvent::Done { session_id, steps } => (
                "done",
                object_with("session_id", session_id.as_str()).with(
                    "steps",
                    Json::of_natural(*steps as u64),
                ),
            ),
            AgentEvent::Error { error } => ("error", object_with("error", error.as_str())),
        };
        WrappedAgentEvent { kind: kind.to_string(), payload }
    }
}

impl BusEvent {
    /// The event of the agent of a session.
    pub fn agent(session_id: &str, event: &AgentEvent) -> (bus: Self)
        ensures
            bus@ == (BusView::Agent { session_id: session_id@, event: wrapped(event@) }),
    {
        BusEvent::Agent {
            session_id: session_id.to_string(),
            event: WrappedAgentEvent::of_event(event),
        }
    }

    /// The document of the event.
    pub fn to_json(&self) -> (v: Json)
        ensures
            v@ == bus_json(self@),
    {
        match self {
            BusEvent::Agent { session_id, event } => object_with("kind", "agent").with(
                "session_id",
                Json::of_text(session_id.as_str()),
            ).with(
                "event",
                object_with("kind", event.kind.as_str()).with("payload", event.payload.copy()),
            ),
            BusEvent::Session { session_id, transition } => object_with("kind", "session").with(
                "session_id",
                Json::of_text(session_id.as_str()),
            ).with("transition", Json::of_text(transition.as_str())),
            BusEvent::Artifact { artifact_id, installed } => object_with("kind", "artifact").with(
                "artifact_id",
                Json::of_text(artifact_id.as_str()),
            ).with("installed", Json::Bool(*installed)),
            BusEvent::ModeChange { session_id, mode } => object_with("kind", "mode_change").with(
                "session_id",
                Json::of_text(session_id.as_str()),
            ).with("mode", Json::of_text(mode.as_str())),
            BusEvent::Fleet { status, message } => object_with("kind", "fleet").with(
                "status",
                Json::of_text(status.as_str()),
            ).with("message", Json::of_text(message.as_str())),
        }
    }
}

} // verus!
