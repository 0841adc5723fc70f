//! Sessions of agents: their life, and how they are frozen and moved.

use vstd::prelude::*;
use crate::agent::capability::CapabilityView;
use crate::agent::context;
use crate::agent::context::Context;
use crate::agent::context::ContextView;
use crate::agent::error::Error;
use crate::agent::error::ErrorView;
use crate::agent::interrupt;
use crate::agent::mode::ControlMode;
use crate::agent::state::RuntimeSnapshot;
use crate::agent::state::SnapshotView;
use crate::agent::types;
use crate::sorted_map;
use crate::sorted_map::SortedMap;
use crate::text;

verus! {

/// Where a session is in its life.
pub enum SessionPhase {
    /// Its loop runs.
    Running,
    /// It is to freeze when the current step is done.
    Freezing,
    /// Its loop stands still; it can be moved or resumed.
    Frozen,
    /// It is on its way to another node.
    Migrating,
    /// It runs on another node.
    Migrated { target_node: String },
    Completed,
    Failed { reason: String },
}

/// What a phase is.
#[allow(inconsistent_fields)]
#[verifier::ext_equal]
pub enum PhaseView {
    Running,
    Freezing,
    Frozen,
    Migrating,
    Migrated { target_node: Seq<char> },
    Completed,
    Failed { reason: Seq<char> },
}

impl View for SessionPhase {
    type V = PhaseView;

    open spec fn view(&self) -> PhaseView {
        match self {
            SessionPhase::Running => PhaseView::Running,
            SessionPhase::Freezing => PhaseView::Freezing,
            SessionPhase::Frozen => PhaseView::Frozen,
            SessionPhase::Migrating => PhaseView::Migrating,
            SessionPhase::Migrated { target_node } => PhaseView::Migrated {
                target_node: target_node@,
            },
            SessionPhase::Completed => PhaseView::Completed,
            SessionPhase::Failed { reason } => PhaseView::Failed { reason: reason@ },
        }
    }
}

impl SessionPhase {
    /// A copy of the phase.
    pub fn copy(&self) -> (phase: Self)
        ensures
            phase@ == self@,
    {
        match self {
            SessionPhase::Running => SessionPhase::Running,
            SessionPhase::Freezing => SessionPhase::Freezing,
            SessionPhase::Frozen => SessionPhase::Frozen,
            SessionPhase::Migrating => SessionPhase::Migrating,
            SessionPhase::Migrated { target_node } => SessionPhase::Migrated {
                target_node: target_node.clone(),
            },
            SessionPhase::Completed => SessionPhase::Completed,
            SessionPhase::Failed { reason } => SessionPhase::Failed { reason: reason.clone() },
        }
    }
}

/// A session.
pub struct AgentSession {
    pub id: String,
    pub label: String,
    pub agent_id: String,
    pub phase: SessionPhase,
    /// Whether someone waits for the session to be frozen.
    pub awaited: bool,
    pub control_mode: ControlMode,
    pub scenario: Option<String>,
    /// Where the session is to go.
    pub target_node: Option<String>,
}

/// What a session is.
#[verifier::ext_equal]
pub struct SessionView {
    pub id: Seq<char>,
    pub label: Seq<char>,
    pub agent_id: Seq<char>,
    pub phase: PhaseView,
    pub awaited: bool,
    pub control_mode: ControlMode,
    pub scenario: Option<Seq<char>>,
    pub target_node: Option<Seq<char>>,
}

impl View for AgentSession {
    type V = SessionView;

    open spec fn view(&self) -> SessionView {
        SessionView {
            id: self.id@,
            label: self.label@,
            agent_id: self.agent_id@,
            phase: self.phase@,
            awaited: self.awaited,
            control_mode: self.control_mode,
            scenario: text::opt_view(self.scenario),
            target_node: text::opt_view(self.target_node),
        }
    }
}

impl SessionView {
    /// The session in another phase.
    pub open spec fn at(self, phase: PhaseView) -> SessionView {
        SessionView { phase, ..self }
    }

    /// The state of the session, for the working memory of its loop.
    pub open spec fn frozen_state(self, ctx: ContextView) -> SnapshotView {
        SnapshotView {
            agent_id: self.agent_id,
            session_id: self.id,
            step: ctx.taken as u64,
            messages: ctx.messages,
            interrupt_queue: ctx.interrupt_log,
            control_mode: ctx.control_mode,
            session_label: self.label,
            scenario: self.scenario,
            layout: ctx.layout,
            active_apps: ctx.active_apps,
        }
    }
}

impl AgentSession {
    /// A running session.
    pub fn new(id: &str, label: &str, agent_id: &str) -> (session: Self)
        ensures
            session@ == (SessionView {
                id: id@,
                label: label@,
                agent_id: agent_id@,
                phase: PhaseView::Running,
                awaited: false,
                control_mode: ControlMode::AgentMode,
                scenario: None,
                target_node: None,
            }),
    {
        AgentSession {
            id: id.to_string(),
            label: label.to_string(),
            agent_id: agent_id.to_string(),
            phase: SessionPhase::Running,
            awaited: false,
            control_mode: ControlMode::AgentMode,
            scenario: None,
            target_node: None,
        }
    }

    /// The phase.
    pub fn phase(&self) -> (phase: SessionPhase)
        ensures
            phase@ == self@.phase,
    {
        self.phase.copy()
    }

    /// Whether the loop runs.
    pub fn is_running(&self) -> (r: bool)
        ensures
            r == (self@.phase is Running),
    {
        matches!(self.phase, SessionPhase::Running)
    }

    /// Asks the loop to freeze when its step is done; the one who asks waits for it.
    pub fn request_freeze(&mut self)
        ensures
            final(self)@ == (SessionView { awaited: true, ..old(self)@.at(PhaseView::Freezing) }),
    {
        self.phase = SessionPhase::Freezing;
        self.awaited = true;
    }

    /// Confirms that the loop stands still. Says whether someone waits for that.
    pub fn confirm_freeze(&mut self) -> (notify: bool)
        ensures
            final(self)@ == (SessionView { awaited: false, ..old(self)@.at(PhaseView::Frozen) }),
            notify == old(self)@.awaited,
    {
        let notify = self.awaited;
        self.phase = SessionPhase::Frozen;
        self.awaited = false;
        notify
    }

    /// Whether the loop is to freeze.
    pub fn should_freeze(&self) -> (r: bool)
        ensures
            r == (self@.phase is Freezing),
    {
        matches!(self.phase, SessionPhase::Freezing)
    }

    /// The state of the session, which can be had only while it is frozen.
    pub fn build_snapshot(&self, ctx: &Context) -> (snapshot: Result<RuntimeSnapshot, Error>)
        ensures
            match snapshot {
                Ok(s) => self@.phase is Frozen && s@ == self@.frozen_state(ctx@),
                Err(e) => !(self@.phase is Frozen) && e@ == ErrorView::Migration(
                    "build_bundle called on non-frozen session"@,
                ),
            },
    {
        if !matches!(self.phase, SessionPhase::Frozen) {
            return Err(
                Error::Migration("build_bundle called on non-frozen session".to_string()),
            );
        }
        Ok(
            RuntimeSnapshot {
                agent_id: self.agent_id.clone(),
                session_id: self.id.clone(),
                step: ctx.steps_taken() as u64,
                messages: types::copy_messages(&ctx.messages),
                interrupt_queue: interrupt::copy_interrupts(&ctx.interrupt_log),
                control_mode: ctx.control_mode,
                session_label: self.label.clone(),
                scenario: text::copy_opt(&self.scenario),
                layout: ctx.layout,
                active_apps: text::copy_texts(&ctx.active_apps),
            },
        )
    }

    /// Sets off to another node, which is recorded.
    pub fn begin_migration(&mut self, target_node: &str)
        ensures
            final(self)@ == (SessionView {
                target_node: Some(target_node@),
                ..old(self)@.at(PhaseView::Migrating)
            }),
    {
        self.target_node = Some(target_node.to_string());
        self.phase = SessionPhase::Migrating;
    }

    /// Has arrived on another node.
    pub fn complete_migration(&mut self, target_node: &str)
        ensures
            final(self)@ == old(self)@.at(PhaseView::Migrated { target_node: target_node@ }),
    {
        self.phase = SessionPhase::Migrated { target_node: target_node.to_string() };
    }

    /// Runs again.
    pub fn resume(&mut self)
        ensures
            final(self)@ == old(self)@.at(PhaseView::Running),
    {
        self.phase = SessionPhase::Running;
    }

    /// Has ended.
    pub fn complete(&mut self)
        ensures
            final(self)@ == old(self)@.at(PhaseView::Completed),
    {
        self.phase = SessionPhase::Completed;
    }

    /// Has ended with an error.
    pub fn fail(&mut self, reason: &str)
        ensures
            final(self)@ == old(self)@.at(PhaseView::Failed { reason: reason@ }),
    {
        self.phase = SessionPhase::Failed { reason: reason.to_string() };
    }
}

// ---------------------------------------------------------------------------
// All sessions of a node
// ---------------------------------------------------------------------------

/// All sessions of a node, by their ids.
pub struct SessionManager {
    sessions: SortedMap<AgentSession>,
}

impl View for SessionManager {
    type V = Seq<(Seq<char>, SessionView)>;

    closed spec fn view(&self) -> Seq<(Seq<char>, SessionView)> {
        sorted_map::deep(self.sessions@)
    }
}

/// The ids of the sessions that run.
pub open spec fn running_of(sessions: Seq<(Seq<char>, SessionView)>) -> Seq<Seq<char>>
    decreases sessions.len(),
{
    if sessions.len() == 0 {
        Seq::empty()
    } else if sessions.last().1.phase is Running {
        running_of(sessions.drop_last()).push(sessions.last().0)
    } else {
        running_of(sessions.drop_last())
    }
}

impl Default for SessionManager {
    fn default() -> (manager: Self)
        ensures
            manager@ == Seq::<(Seq<char>, SessionView)>::empty(),
    {
        SessionManager::new()
    }
}

impl SessionManager {
    /// No sessions.
    pub fn new() -> (manager: Self)
        ensures
            manager@ == Seq::<(Seq<char>, SessionView)>::empty(),
    {
        let manager = SessionManager { sessions: SortedMap::new() };
        assert(manager@ =~= Seq::<(Seq<char>, SessionView)>::empty());
        manager
    }

    /// Adds a session, in place of the one with its id.
    pub fn add(&mut self, session: AgentSession)
        ensures
            final(self)@ == sorted_map::put(old(self)@, session.id@, session@),
            sorted_map::ascending(final(self)@),
    {
        let id = session.id.clone();
        proof {
            sorted_map::lemma_deep_put(self.sessions@, id@, session);
        }
        self.sessions.insert(id.as_str(), session);
        proof {
            sorted_map::lemma_deep_map(self.sessions@);
        }
    }

    /// The session with an id.
    pub fn get(&self, id: &str) -> (session: Option<&AgentSession>)
        ensures
            match session {
                Some(s) => sorted_map::as_map(self@).dom().contains(id@) && sorted_map::as_map(
                    self@,
                )[id@] == s@,
                None => !sorted_map::as_map(self@).dom().contains(id@),
            },
    {
        proof {
            sorted_map::lemma_deep_map(self.sessions@);
        }
        self.sessions.get(id)
    }

    /// Takes the session with an id out.
    pub fn remove(&mut self, id: &str) -> (session: Option<AgentSession>)
        ensures
            final(self)@ == sorted_map::without(old(self)@, id@),
            match session {
                Some(s) => sorted_map::as_map(old(self)@).dom().contains(id@) && sorted_map::as_map(
                    old(self)@,
                )[id@] == s@,
                None => !sorted_map::as_map(old(self)@).dom().contains(id@),
            },
    {
        proof {
            sorted_map::lemma_deep_without(self.sessions@, id@);
            sorted_map::lemma_deep_map(self.sessions@);
        }
        self.sessions.remove(id)
    }

    /// The ids of the sessions that run.
    pub fn running(&self) -> (ids: Vec<String>)
        ensures
            text::views(ids@) == running_of(self@),
    {
        let n: usize = self.sessions.len();
        let ghost all = self@;
        let mut ids: Vec<String> = Vec::new();
        let mut i: usize = 0;
        assert(all.take(0) =~= Seq::<(Seq<char>, SessionView)>::empty());
        assert(text::views(ids@) =~= Seq::<Seq<char>>::empty());
        while i < n
            invariant
                i <= n == self.sessions@.len(),
                all == self@,
                text::views(ids@) == running_of(all.take(i as int)),
            decreases n - i,
        {
            assert(all.take(i + 1).drop_last() =~= all.take(i as int));
            let session = self.sessions.value_at(i);
            assert(all[i as int].1 == session@);
            if session.is_running() {
                let id = self.sessions.key_at(i).clone();
                proof {
                    text::lemma_views_push(ids@, id);
                }
                ids.push(id);
            }
            i += 1;
        }
        assert(all.take(n as int) =~= all);
        ids
    }

    /// The ids of all sessions.
    pub fn all(&self) -> (ids: Vec<String>)
        ensures
            text::views(ids@) == Seq::new(self@.len(), |i: int| self@[i].0),
    {
        let n: usize = self.sessions.len();
        let mut ids: Vec<String> = Vec::new();
        let mut i: usize = 0;
        while i < n
            invariant
                i <= n == self.sessions@.len(),
                ids.len() == i,
                forall|k: int| 0 <= k < i ==> (#[trigger] ids@[k])@ == self@[k].0,
            decreases n - i,
        {
            ids.push(self.sessions.key_at(i).clone());
            i += 1;
        }
        assert(text::views(ids@) =~= Seq::new(self@.len(), |i: int| self@[i].0));
        ids
    }
}

// ---------------------------------------------------------------------------
// What sessions promise
// ---------------------------------------------------------------------------

/// A session that was frozen and is restored elsewhere goes on where it was: its
/// conversation, its interrupts, its mode, its layout, its applications and its count of
/// steps are the same. The rights are those of the new host.
pub proof fn lemma_restored_where_it_was(
    s: SessionView,
    ctx: ContextView,
    capabilities: Set<CapabilityView>,
)
    ensures
        ({
            let there = context::restored(s.frozen_state(ctx), capabilities);
            &&& there.session_id == s.id
            &&& there.agent_id == s.agent_id
            &&& there.label == s.label
            &&& there.messages == ctx.messages
            &&& there.interrupt_log == ctx.interrupt_log
            &&& there.control_mode == ctx.control_mode
            &&& there.layout == ctx.layout
            &&& there.active_apps == ctx.active_apps
            &&& there.taken == ctx.taken
            &&& there.capabilities == capabilities
        }),
{
}

} // verus!
