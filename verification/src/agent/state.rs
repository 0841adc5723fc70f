//! What a session leaves behind when it is frozen or moved.

use vstd::prelude::*;
use crate::agent::interrupt;
use crate::agent::interrupt::Interrupt;
use crate::agent::interrupt::InterruptView;
use crate::agent::mode::ControlMode;
use crate::agent::surface::SessionLayout;
use crate::agent::types;
use crate::agent::types::ConversationMessage;
use crate::agent::types::MessageView;
use crate::text;

verus! {

/// How long state lives.
#[derive(Debug, Clone, Copy, PartialEq, Eq, Structural)]
pub enum Persistence {
    /// As long as the process.
    Ephemeral,
    /// As long as the desktop session.
    Session,
    /// Over restarts; can move to another host.
    Durable,
    /// Durable, and the same on all devices of the user.
    Eternal,
}

/// A committed snapshot of durable state.
pub struct OstreeCheckpoint {
    pub agent_id: String,
    pub session_id: String,
    pub step: u64,
    /// The commit, once there is one.
    pub ref_hash: Option<String>,
    pub message: String,
}

/// The state of a session in memory.
pub struct RuntimeSnapshot {
    pub agent_id: String,
    pub session_id: String,
    /// The step at which the session was frozen.
    pub step: u64,
    pub messages: Vec<ConversationMessage>,
    pub interrupt_queue: Vec<Interrupt>,
    pub control_mode: ControlMode,
    pub session_label: String,
    pub scenario: Option<String>,
    pub layout: SessionLayout,
    pub active_apps: Vec<String>,
}

/// What the state of a session is.
#[verifier::ext_equal]
pub struct SnapshotView {
    pub agent_id: Seq<char>,
    pub session_id: Seq<char>,
    pub step: u64,
    pub messages: Seq<MessageView>,
    pub interrupt_queue: Seq<InterruptView>,
    pub control_mode: ControlMode,
    pub session_label: Seq<char>,
    pub scenario: Option<Seq<char>>,
    pub layout: SessionLayout,
    pub active_apps: Seq<Seq<char>>,
}

impl View for RuntimeSnapshot {
    type V = SnapshotView;

    open spec fn view(&self) -> SnapshotView {
        SnapshotView {
            agent_id: self.agent_id@,
            session_id: self.session_id@,
            step: self.step,
            messages: types::messages_view(self.messages@),
            interrupt_queue: interrupt::interrupts_view(self.interrupt_queue@),
            control_mode: self.control_mode,
            session_label: self.session_label@,
            scenario: text::opt_view(self.scenario),
            layout: self.layout,
            active_apps: text::views(self.active_apps@),
        }
    }
}

/// An installed artifact that a session uses.
pub struct ArtifactRef {
    pub artifact_id: String,
    pub version: String,
    pub ostree_ref: String,
}

/// All that is needed to resume a session on another host.
pub struct MigrationBundle {
    pub bundle_id: String,
    pub session_id: String,
    pub runtime: RuntimeSnapshot,
    pub checkpoint: OstreeCheckpoint,
    pub artifact_refs: Vec<ArtifactRef>,
    pub created_at_ms: u64,
}

impl MigrationBundle {
    /// The id of the bundle of a session at a step.
    pub fn bundle_id(session_id: &str, step: u64) -> (id: String)
        ensures
            id@ == session_id@ + "-step"@ + text::decimal(step as nat),
    {
        let mut id = session_id.to_string();
        id.append("-step");
        id.append(text::decimal_text(step).as_str());
        id
    }
}

/// The bundle of a session is named after the session and the step.
pub proof fn lemma_bundle_id(session_id: &str, step: u64, id: String)
    requires
        call_ensures(MigrationBundle::bundle_id, (session_id, step), id),
    ensures
        id@ == session_id@ + "-step"@ + text::decimal(step as nat),
{
}

} // verus!
