//! Moving a live session to another node, seen from both ends.

use vstd::prelude::*;
use crate::agent::context::Context;
use crate::agent::error::Error;
use crate::agent::error::ErrorView;
use crate::agent::state::RuntimeSnapshot;
use crate::agent::state::SnapshotView;
use crate::orchestrator::session::AgentSession;
use crate::orchestrator::session::PhaseView;
use crate::orchestrator::session::SessionView;

verus! {

// ---------------------------------------------------------------------------
// The end that sends
// ---------------------------------------------------------------------------

/// How far sending has come.
#[derive(Debug, Clone, Copy, PartialEq, Eq, Structural)]
pub enum SendPhase {
    /// The session is to freeze.
    Freezing,
    /// Its bundle is made.
    Bundling,
    /// Its durable state goes to the registry.
    Pushing,
    /// Its bundle goes to the fleet.
    Relaying,
    /// It is on its way.
    Sent,
    /// It stays.
    Failed,
}

/// What happened.
pub enum SendEvent {
    /// The session stands still.
    Frozen,
    /// The session is gone and will not freeze.
    FreezeDropped,
    /// The bundle is made.
    Bundled,
    /// The durable state is in the registry.
    Pushed,
    /// The fleet has the bundle.
    Relayed,
    /// What was to be done failed.
    Failed(Error),
}

/// What is to be done.
pub enum SendAction {
    /// To wait until the session stands still.
    AwaitFreeze,
    /// To make the bundle of this state.
    MakeBundle(RuntimeSnapshot),
    /// To push the durable state to the registry.
    Push,
    /// To hand the bundle to the fleet.
    Relay,
    /// Nothing: the session is on its way.
    Done,
    /// Nothing: the session stays, for this reason.
    Stop(Error),
}

/// What such an action is.
#[allow(inconsistent_fields)]
#[verifier::ext_equal]
pub enum SendActionView {
    AwaitFreeze,
    MakeBundle(SnapshotView),
    Push,
    Relay,
    Done,
    Stop(ErrorView),
}

impl View for SendAction {
    type V = SendActionView;

    open spec fn view(&self) -> SendActionView {
        match self {
            SendAction::AwaitFreeze => SendActionView::AwaitFreeze,
            SendAction::MakeBundle(s) => SendActionView::MakeBundle(s@),
            SendAction::Push => SendActionView::Push,
            SendAction::Relay => SendActionView::Relay,
            SendAction::Done => SendActionView::Done,
            SendAction::Stop(e) => SendActionView::Stop(e@),
        }
    }
}

/// Sends a session to a node.
pub struct MigrationSender {
    pub target_node: String,
    pub phase: SendPhase,
}

/// What a step of sending gives: the next phase, the session and what is to be done.
pub open spec fn send_step(
    phase: SendPhase,
    target: Seq<char>,
    session: SessionView,
    frozen: SnapshotView,
    event: SendEvent,
) -> (SendPhase, SessionView, SendActionView) {
    match (phase, event) {
        (_, SendEvent::Failed(e)) => (SendPhase::Failed, session, SendActionView::Stop(e@)),
        (SendPhase::Freezing, SendEvent::Frozen) => if session.phase is Frozen {
            (SendPhase::Bundling, session, SendActionView::MakeBundle(frozen))
        } else {
            (
                SendPhase::Failed,
                session,
                SendActionView::Stop(
                    ErrorView::Migration("build_bundle called on non-frozen session"@),
                ),
            )
        },
        (SendPhase::Freezing, SendEvent::FreezeDropped) => (
            SendPhase::Failed,
            session,
            SendActionView::Stop(ErrorView::Migration("freeze channel dropped"@)),
        ),
        (SendPhase::Bundling, SendEvent::Bundled) => (
            SendPhase::Pushing,
            session,
            SendActionView::Push,
        ),
        (SendPhase::Pushing, SendEvent::Pushed) => (
            SendPhase::Relaying,
            session,
            SendActionView::Relay,
        ),
        (SendPhase::Relaying, SendEvent::Relayed) => (
            SendPhase::Sent,
            SessionView { target_node: Some(target), ..session.at(PhaseView::Migrating) },
            SendActionView::Done,
        ),
        _ => (
            SendPhase::Failed,
            session,
            SendActionView::Stop(ErrorView::Migration("unexpected event"@)),
        ),
    }
}

impl MigrationSender {
    /// Begins to send a session: asks it to freeze.
    pub fn begin(session: &mut AgentSession, target_node: &str) -> (result: (Self, SendAction))
        ensures
            final(session)@ == (SessionView {
                awaited: true,
                ..old(session)@.at(PhaseView::Freezing)
            }),
            result.0.phase == SendPhase::Freezing,
            result.0.target_node@ == target_node@,
            result.1@ == SendActionView::AwaitFreeze,
    {
        session.request_freeze();
        (
            MigrationSender { target_node: target_node.to_string(), phase: SendPhase::Freezing },
            SendAction::AwaitFreeze,
        )
    }

    /// Goes on with sending.
    pub fn step(&mut self, session: &mut AgentSession, ctx: &Context, event: SendEvent) -> (action:
        SendAction)
        ensures
            final(self).target_node == old(self).target_node,
            (final(self).phase, final(session)@, action@) == send_step(
                old(self).phase,
                old(self).target_node@,
                old(session)@,
                old(session)@.frozen_state(ctx@),
                event,
            ),
    {
        match (self.phase, event) {
            (_, SendEvent::Failed(e)) => {
                self.phase = SendPhase::Failed;
                SendAction::Stop(e)
            },
            (SendPhase::Freezing, SendEvent::Frozen) => match session.build_snapshot(ctx) {
                Ok(snapshot) => {
                    self.phase = SendPhase::Bundling;
                    SendAction::MakeBundle(snapshot)
                },
                Err(e) => {
                    self.phase = SendPhase::Failed;
                    SendAction::Stop(e)
                },
            },
            (SendPhase::Freezing, SendEvent::FreezeDropped) => {
                self.phase = SendPhase::Failed;
                SendAction::Stop(Error::Migration("freeze channel dropped".to_string()))
            },
            (SendPhase::Bundling, SendEvent::Bundled) => {
                self.phase = SendPhase::Pushing;
                SendAction::Push
            },
            (SendPhase::Pushing, SendEvent::Pushed) => {
                self.phase = SendPhase::Relaying;
                SendAction::Relay
            },
            (SendPhase::Relaying, SendEvent::Relayed) => {
                self.phase = SendPhase::Sent;
                session.begin_migration(self.target_node.as_str());
                SendAction::Done
            },
            _ => {
                self.phase = SendPhase::Failed;
                SendAction::Stop(Error::Migration("unexpected event".to_string()))
            },
        }
    }
}

/// A session sets off only when the fleet has its bundle: until then, and whatever fails, it is
/// left as it was.
pub proof fn lemma_sets_off_last(
    phase: SendPhase,
    target: Seq<char>,
    session: SessionView,
    frozen: SnapshotView,
    event: SendEvent,
)
    ensures
        ({
            let (after, s, action) = send_step(phase, target, session, frozen, event);
            &&& after == SendPhase::Sent ==> phase == SendPhase::Relaying && event is Relayed
                && s.phase is Migrating && s.target_node == Some(target)
            &&& after != SendPhase::Sent ==> s == session
            &&& action is MakeBundle ==> session.phase is Frozen
            &&& action is Done <==> after == SendPhase::Sent
        }),
{
}

// ---------------------------------------------------------------------------
// The end that receives
// ---------------------------------------------------------------------------

/// How far receiving has come.
#[derive(Debug, Clone, Copy, PartialEq, Eq, Structural)]
pub enum ReceivePhase {
    /// The durable state comes from the registry.
    Pulling,
    /// The state is put in place.
    Restoring,
    /// The fleet is told.
    Acknowledging,
    /// The session is here.
    Done,
    Failed,
}

/// What is to be done.
pub enum ReceiveAction {
    /// To pull the durable state with this reference.
    Pull { ref_hash: String },
    /// To put the state in place.
    Restore,
    /// To tell the fleet that the session is here.
    Acknowledge,
    /// Nothing: the session can run.
    Run,
    /// Nothing: the session is not taken, for this reason.
    Stop(Error),
}

/// What such an action is.
#[allow(inconsistent_fields)]
#[verifier::ext_equal]
pub enum ReceiveActionView {
    Pull { ref_hash: Seq<char> },
    Restore,
    Acknowledge,
    Run,
    Stop(ErrorView),
}

impl View for ReceiveAction {
    type V = ReceiveActionView;

    open spec fn view(&self) -> ReceiveActionView {
        match self {
            ReceiveAction::Pull { ref_hash } => ReceiveActionView::Pull { ref_hash: ref_hash@ },
            ReceiveAction::Restore => ReceiveActionView::Restore,
            ReceiveAction::Acknowledge => ReceiveActionView::Acknowledge,
            ReceiveAction::Run => ReceiveActionView::Run,
            ReceiveAction::Stop(e) => ReceiveActionView::Stop(e@),
        }
    }
}

/// How receiving begins: durable state that was committed is pulled first.
pub open spec fn receive_start(ref_hash: Option<Seq<char>>) -> (ReceivePhase, ReceiveActionView) {
    match ref_hash {
        Some(h) => if h.len() > 0 {
            (ReceivePhase::Pulling, ReceiveActionView::Pull { ref_hash: h })
        } else {
            (ReceivePhase::Restoring, ReceiveActionView::Restore)
        },
        None => (ReceivePhase::Restoring, ReceiveActionView::Restore),
    }
}

/// What a step of receiving gives, for what became of the action before.
pub open spec fn receive_step(phase: ReceivePhase, result: Result<(), ErrorView>) -> (
    ReceivePhase,
    ReceiveActionView,
) {
    match (phase, result) {
        (_, Err(e)) => (ReceivePhase::Failed, ReceiveActionView::Stop(e)),
        (ReceivePhase::Pulling, Ok(())) => (ReceivePhase::Restoring, ReceiveActionView::Restore),
        (ReceivePhase::Restoring, Ok(())) => (
            ReceivePhase::Acknowledging,
            ReceiveActionView::Acknowledge,
        ),
        (ReceivePhase::Acknowledging, Ok(())) => (ReceivePhase::Done, ReceiveActionView::Run),
        (ReceivePhase::Done, Ok(())) => (ReceivePhase::Done, ReceiveActionView::Run),
        (ReceivePhase::Failed, Ok(())) => (
            ReceivePhase::Failed,
            ReceiveActionView::Stop(ErrorView::Migration("unexpected event"@)),
        ),
    }
}

/// Receives a session.
pub struct MigrationReceiver {
    pub phase: ReceivePhase,
}

/// What became of an action.
pub open spec fn done_view(r: Result<(), Error>) -> Result<(), ErrorView> {
    match r {
        Ok(()) => Ok(()),
        Err(e) => Err(e@),
    }
}

impl MigrationReceiver {
    /// Begins to receive a session.
    pub fn begin(ref_hash: &Option<String>) -> (result: (Self, ReceiveAction))
        ensures
            (result.0.phase, result.1@) == receive_start(crate::text::opt_view(*ref_hash)),
    {
        match ref_hash {
            Some(h) => if h.as_str().is_empty() {
                (
                    MigrationReceiver { phase: ReceivePhase::Restoring },
                    ReceiveAction::Restore,
                )
            } else {
                (
                    MigrationReceiver { phase: ReceivePhase::Pulling },
                    ReceiveAction::Pull { ref_hash: h.clone() },
                )
            },
            None => (
                MigrationReceiver { phase: ReceivePhase::Restoring },
                ReceiveAction::Restore,
            ),
        }
    }

    /// Goes on with receiving.
    pub fn step(&mut self, result: Result<(), Error>) -> (action: ReceiveAction)
        ensures
            (final(self).phase, action@) == receive_step(old(self).phase, done_view(result)),
    {
        match (self.phase, result) {
            (_, Err(e)) => {
                self.phase = ReceivePhase::Failed;
                ReceiveAction::Stop(e)
            },
            (ReceivePhase::Pulling, Ok(())) => {
                self.phase = ReceivePhase::Restoring;
                ReceiveAction::Restore
            },
            (ReceivePhase::Restoring, Ok(())) => {
                self.phase = ReceivePhase::Acknowledging;
                ReceiveAction::Acknowledge
            },
            (ReceivePhase::Acknowledging, Ok(())) => {
                self.phase = ReceivePhase::Done;
                ReceiveAction::Run
            },
            (ReceivePhase::Done, Ok(())) => ReceiveAction::Run,
            (ReceivePhase::Failed, Ok(())) => ReceiveAction::Stop(
                Error::Migration("unexpected event".to_string()),
            ),
        }
    }
}

/// The fleet is told that a session is here only when its state is in place, and the session
/// runs only when the fleet was told.
pub proof fn lemma_runs_last(phase: ReceivePhase, result: Result<(), ErrorView>)
    ensures
        receive_step(phase, result).1 is Acknowledge ==> phase == ReceivePhase::Restoring,
        receive_step(phase, result).1 is Run ==> phase == ReceivePhase::Acknowledging || phase
            == ReceivePhase::Done,
        result is Err ==> receive_step(phase, result).1 is Stop,
{
}

} // verus!
