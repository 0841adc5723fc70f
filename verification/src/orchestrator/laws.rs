//! What sessions, their scheduling and the events on the bus promise.

use vstd::prelude::*;
use crate::agent::context::Context;
use crate::agent::error::Error;
use crate::agent::harness::AgentEvent;
use crate::agent::harness::AgentEventView;
use crate::agent::mode::ControlMode;
use crate::agent::state::RuntimeSnapshot;
use crate::json::JsonNumberView;
use crate::json::JsonView;
use crate::memory::recall_laws;
use crate::orchestrator::bus;
use crate::orchestrator::bus::BusEvent;
use crate::orchestrator::bus::BusView;
use crate::orchestrator::scheduler;
use crate::orchestrator::scheduler::Entries;
use crate::orchestrator::scheduler::Listed;
use crate::orchestrator::scheduler::SessionPriority;
use crate::orchestrator::scheduler::SessionScheduler;
use crate::orchestrator::session;
use crate::orchestrator::session::AgentSession;
use crate::orchestrator::session::PhaseView;
use crate::orchestrator::session::SessionManager;
use crate::orchestrator::session::SessionView;
use crate::sort;
use crate::sort::Rank;
use crate::sorted_map;

verus! {

// ---------------------------------------------------------------------------
// The life of a session
// ---------------------------------------------------------------------------

/// A new session runs, in the mode in which granted calls pass.
pub proof fn lemma_new_session(
    id: &str,
    label: &str,
    agent_id: &str,
    s: AgentSession,
    running: bool,
)
    requires
        call_ensures(AgentSession::new, (id, label, agent_id), s),
        call_ensures(AgentSession::is_running, (&s,), running),
    ensures
        s@.id == id@,
        s@.label == label@,
        s@.agent_id == agent_id@,
        s@.control_mode == ControlMode::AgentMode,
        s@.scenario is None && s@.target_node is None && !s@.awaited,
        running,
{
}

/// A session that is asked to freeze should freeze and does not run any more. Once it has
/// confirmed, whoever asked is told, and it can be bundled with all that the context holds.
pub proof fn lemma_frozen(
    s: &mut AgentSession,
    again: &mut AgentSession,
    should: bool,
    running: bool,
    notify: bool,
    ctx: Context,
    bundled: Result<RuntimeSnapshot, Error>,
)
    requires
        call_ensures(AgentSession::request_freeze, (s,), ()),
        call_ensures(AgentSession::should_freeze, (final(s),), should),
        call_ensures(AgentSession::is_running, (final(s),), running),
        *again == *final(s),
        call_ensures(AgentSession::confirm_freeze, (again,), notify),
        call_ensures(AgentSession::build_snapshot, (final(again), &ctx), bundled),
    ensures
        should,
        !running,
        notify,
        final(again)@.phase is Frozen,
        final(again)@.id == old(s)@.id,
        bundled matches Ok(b) && {
            &&& b@.session_id == old(s)@.id
            &&& b@.agent_id == old(s)@.agent_id
            &&& b@.session_label == old(s)@.label
            &&& b@.scenario == old(s)@.scenario
            &&& b@.step == ctx@.taken
            &&& b@.messages == ctx@.messages
            &&& b@.interrupt_queue == ctx@.interrupt_log
            &&& b@.control_mode == ctx@.control_mode
            &&& b@.layout == ctx@.layout
            &&& b@.active_apps == ctx@.active_apps
        },
{
}

/// A session that is not frozen cannot be bundled.
pub proof fn lemma_only_frozen_is_bundled(
    s: AgentSession,
    ctx: Context,
    bundled: Result<RuntimeSnapshot, Error>,
)
    requires
        call_ensures(AgentSession::build_snapshot, (&s, &ctx), bundled),
        !(s@.phase is Frozen),
    ensures
        bundled matches Err(e) && e@ is Migration,
{
}

/// Each turn in the life of a session changes its phase and nothing else; a migration also
/// says where to.
pub proof fn lemma_phases(
    a: &mut AgentSession,
    b: &mut AgentSession,
    c: &mut AgentSession,
    d: &mut AgentSession,
    e: &mut AgentSession,
    text: &str,
)
    requires
        call_ensures(AgentSession::begin_migration, (a, text), ()),
        call_ensures(AgentSession::complete_migration, (b, text), ()),
        call_ensures(AgentSession::resume, (c,), ()),
        call_ensures(AgentSession::complete, (d,), ()),
        call_ensures(AgentSession::fail, (e, text), ()),
    ensures
        final(a)@ == (SessionView {
            phase: PhaseView::Migrating,
            target_node: Some(text@),
            ..old(a)@
        }),
        final(b)@ == (SessionView {
            phase: PhaseView::Migrated { target_node: text@ },
            ..old(b)@
        }),
        final(c)@ == (SessionView { phase: PhaseView::Running, ..old(c)@ }),
        final(d)@ == (SessionView { phase: PhaseView::Completed, ..old(d)@ }),
        final(e)@ == (SessionView { phase: PhaseView::Failed { reason: text@ }, ..old(e)@ }),
{
}

/// A session that was added is got by its id, and one that was removed is not. Others stay.
pub proof fn lemma_manager(
    manager: &mut SessionManager,
    s: AgentSession,
    id: &str,
    got: Option<&AgentSession>,
    fewer: &mut SessionManager,
    removed: Option<AgentSession>,
    gone: Option<&AgentSession>,
)
    requires
        sorted_map::ascending(manager@),
        id@ == s@.id,
        call_ensures(SessionManager::add, (manager, s), ()),
        call_ensures(SessionManager::get, (final(manager), id), got),
        *fewer == *final(manager),
        call_ensures(SessionManager::remove, (fewer, id), removed),
        call_ensures(SessionManager::get, (final(fewer), id), gone),
    ensures
        got matches Some(t) && t@ == s@,
        sorted_map::as_map(final(manager)@) == sorted_map::as_map(old(manager)@).insert(id@, s@),
        removed matches Some(t) && t@ == s@,
        gone is None,
        sorted_map::as_map(final(fewer)@) == sorted_map::as_map(old(manager)@).remove(id@),
{
    sorted_map::lemma_put(old(manager)@, id@, s@);
    sorted_map::lemma_without(final(manager)@, id@);
    assert(sorted_map::as_map(old(manager)@).insert(id@, s@).remove(id@) =~= sorted_map::as_map(
        old(manager)@,
    ).remove(id@));
}

/// The running sessions are those in that phase, all of them, in the order of their ids.
pub proof fn lemma_running(sessions: Seq<(Seq<char>, SessionView)>)
    ensures
        session::running_of(sessions) == sessions.filter(
            |e: (Seq<char>, SessionView)| e.1.phase is Running,
        ).map_values(|e: (Seq<char>, SessionView)| e.0),
    decreases sessions.len(),
{
    reveal(Seq::filter);
    let keep = |e: (Seq<char>, SessionView)| e.1.phase is Running;
    let id = |e: (Seq<char>, SessionView)| e.0;
    if sessions.len() > 0 {
        lemma_running(sessions.drop_last());
        if sessions.last().1.phase is Running {
            assert(sessions.filter(keep).map_values(id) =~= sessions.drop_last().filter(
                keep,
            ).map_values(id).push(sessions.last().0));
        }
    } else {
        assert(session::running_of(sessions) =~= sessions.filter(keep).map_values(id));
    }
}

// ---------------------------------------------------------------------------
// Scheduling
// ---------------------------------------------------------------------------

/// Whether a session is listed with a priority.
pub open spec fn listed(entries: Entries, s: SessionView, p: SessionPriority) -> bool {
    exists|i: int| 0 <= i < entries.len() && #[trigger] entries[i] == (s, p)
}

/// What a priority becomes when another session comes to the foreground.
pub open spec fn stepped_back(p: SessionPriority) -> SessionPriority {
    if p == SessionPriority::Foreground {
        SessionPriority::Normal
    } else {
        p
    }
}

proof fn lemma_found(entries: Entries, id: Seq<char>, i: int)
    requires
        scheduler::sound(entries),
        0 <= i < entries.len(),
        entries[i].0.id == id,
    ensures
        scheduler::has_id(entries, id),
        scheduler::place_of(entries, id) == i,
    decreases entries.len(),
{
    let rest = entries.drop_last();
    assert(scheduler::sound(rest)) by {
        assert forall|a: int, b: int| 0 <= a < b < rest.len() implies (#[trigger] rest[a]).0.id != (
        #[trigger] rest[b]).0.id by {
            assert(entries[a].0.id != entries[b].0.id);
        }
        assert forall|a: int, b: int| 0 <= a < b < rest.len() implies !((#[trigger] rest[a]).1
            == SessionPriority::Foreground && (#[trigger] rest[b]).1
            == SessionPriority::Foreground) by {
            assert(!(entries[a].1 == SessionPriority::Foreground && entries[b].1
                == SessionPriority::Foreground));
        }
    }
    if i < rest.len() {
        lemma_found(rest, id, i);
    } else {
        lemma_missing(rest, id, entries);
    }
}

proof fn lemma_missing(rest: Entries, id: Seq<char>, entries: Entries)
    requires
        scheduler::sound(entries),
        rest.len() < entries.len(),
        entries.last().0.id == id,
        forall|i: int| 0 <= i < rest.len() ==> rest[i] == #[trigger] entries[i],
    ensures
        scheduler::place_of(rest, id) == rest.len(),
    decreases rest.len(),
{
    if rest.len() > 0 {
        lemma_missing(rest.drop_last(), id, entries);
        let k = rest.len() - 1;
        assert(rest[k] == entries[k]);
        assert(entries[k].0.id != entries[entries.len() - 1].0.id);
    }
}

proof fn lemma_not_found(entries: Entries, id: Seq<char>)
    requires
        forall|i: int| 0 <= i < entries.len() ==> (#[trigger] entries[i]).0.id != id,
    ensures
        !scheduler::has_id(entries, id),
        scheduler::place_of(entries, id) == entries.len(),
    decreases entries.len(),
{
    if entries.len() > 0 {
        let rest = entries.drop_last();
        assert forall|i: int| 0 <= i < rest.len() implies (#[trigger] rest[i]).0.id != id by {
            assert(entries[i].0.id != id);
        }
        lemma_not_found(rest, id);
        assert(entries[entries.len() - 1].0.id != id);
    }
}

/// A session that is added is listed with its priority, in place of one with its id where
/// there is one, and every other session stays. Where it comes to the foreground, another
/// session in the foreground steps back, and nothing else changes.
pub proof fn lemma_added(entries: Entries, s: SessionView, p: SessionPriority, i: int)
    requires
        scheduler::sound(entries),
    ensures
        listed(scheduler::added(entries, s, p), s, p),
        0 <= i < entries.len() && entries[i].0.id != s.id ==> listed(
            scheduler::added(entries, s, p),
            entries[i].0,
            if p == SessionPriority::Foreground {
                stepped_back(entries[i].1)
            } else {
                entries[i].1
            },
        ),
        scheduler::added(entries, s, p).len() == entries.len() + (if exists|k: int|
            0 <= k < entries.len() && (#[trigger] entries[k]).0.id == s.id {
            0int
        } else {
            1int
        }),
{
    let base = if p == SessionPriority::Foreground {
        scheduler::lowered(entries)
    } else {
        entries
    };
    let now = scheduler::added(entries, s, p);
    assert(base.len() == entries.len());
    assert(scheduler::sound(base)) by {
        assert forall|a: int, b: int| 0 <= a < b < base.len() implies (#[trigger] base[a]).0.id != (
        #[trigger] base[b]).0.id by {
            assert(entries[a].0.id != entries[b].0.id);
        }
        assert forall|a: int, b: int| 0 <= a < b < base.len() implies !((#[trigger] base[a]).1
            == SessionPriority::Foreground && (#[trigger] base[b]).1
            == SessionPriority::Foreground) by {
            assert(!(entries[a].1 == SessionPriority::Foreground && entries[b].1
                == SessionPriority::Foreground));
        }
    }
    if exists|k: int| 0 <= k < entries.len() && (#[trigger] entries[k]).0.id == s.id {
        let k = choose|k: int| 0 <= k < entries.len() && (#[trigger] entries[k]).0.id == s.id;
        assert(base[k].0.id == s.id);
        lemma_found(base, s.id, k);
        assert(now[k] == (s, p));
        if 0 <= i < entries.len() && entries[i].0.id != s.id {
            assert(now[i] == base[i]);
        }
    } else {
        assert forall|k: int| 0 <= k < base.len() implies (#[trigger] base[k]).0.id != s.id by {
            assert(entries[k].0.id == base[k].0.id);
        }
        lemma_not_found(base, s.id);
        assert(now[base.len() as int] == (s, p));
        if 0 <= i < entries.len() {
            assert(now[i] == base[i]);
        }
    }
}

/// The session that is brought to the foreground is there, and one that was there before
/// steps back. One that is sent to the background is there. No session is lost, and no other
/// priority changes.
pub proof fn lemma_priorities(entries: Entries, at: int, i: int)
    requires
        scheduler::sound(entries),
        0 <= at < entries.len(),
        0 <= i < entries.len(),
    ensures
        ({
            let id = entries[at].0.id;
            let front = scheduler::with_priority(
                scheduler::lowered(entries),
                id,
                SessionPriority::Foreground,
            );
            let back = scheduler::with_priority(entries, id, SessionPriority::Background);
            &&& front.len() == entries.len()
            &&& front[at] == (entries[at].0, SessionPriority::Foreground)
            &&& i != at ==> front[i] == (entries[i].0, stepped_back(entries[i].1))
            &&& back.len() == entries.len()
            &&& back[at] == (entries[at].0, SessionPriority::Background)
            &&& i != at ==> back[i] == entries[i]
        }),
{
    let id = entries[at].0.id;
    let base = scheduler::lowered(entries);
    assert(scheduler::sound(base)) by {
        assert forall|a: int, b: int| 0 <= a < b < base.len() implies (#[trigger] base[a]).0.id != (
        #[trigger] base[b]).0.id by {
            assert(entries[a].0.id != entries[b].0.id);
        }
    }
    lemma_found(base, id, at);
    lemma_found(entries, id, at);
}

/// A session that is removed is the one with the id, and every other session stays as it was,
/// in order. The session in the foreground is the one that is listed so.
pub proof fn lemma_removed(entries: Entries, at: int)
    requires
        scheduler::sound(entries),
        0 <= at < entries.len(),
    ensures
        scheduler::without_id(entries, entries[at].0.id) == entries.remove(at),
        entries[at].1 == SessionPriority::Foreground ==> scheduler::foreground_of(entries) == Some(
            entries[at].0,
        ),
{
    lemma_found(entries, entries[at].0.id, at);
    if entries[at].1 == SessionPriority::Foreground {
        assert forall|i: int| 0 <= i < entries.len() && i != at implies (#[trigger] entries[i]).1
            != SessionPriority::Foreground by {
            if i < at {
                assert(!(entries[i].1 == SessionPriority::Foreground && entries[at].1
                    == SessionPriority::Foreground));
            } else {
                assert(!(entries[at].1 == SessionPriority::Foreground && entries[i].1
                    == SessionPriority::Foreground));
            }
        }
        lemma_in_front(entries, at);
    }
}

proof fn lemma_in_front(entries: Entries, at: int)
    requires
        0 <= at < entries.len(),
        entries[at].1 == SessionPriority::Foreground,
        forall|i: int|
            0 <= i < at ==> (#[trigger] entries[i]).1 != SessionPriority::Foreground,
    ensures
        scheduler::foreground_of(entries) == Some(entries[at].0),
    decreases entries.len(),
{
    let rest = entries.drop_last();
    if at < rest.len() {
        assert forall|i: int| 0 <= i < at implies (#[trigger] rest[i]).1
            != SessionPriority::Foreground by {
            assert(entries[i].1 != SessionPriority::Foreground);
        }
        lemma_in_front(rest, at);
    } else {
        lemma_none_in_front(rest, entries);
    }
}

proof fn lemma_none_in_front(rest: Entries, entries: Entries)
    requires
        rest.len() <= entries.len(),
        forall|i: int|
            0 <= i < rest.len() ==> rest[i] == #[trigger] entries[i] && entries[i].1
                != SessionPriority::Foreground,
    ensures
        scheduler::foreground_of(rest) is None,
    decreases rest.len(),
{
    if rest.len() > 0 {
        let k = rest.len() - 1;
        assert(rest[k] == entries[k]);
        lemma_none_in_front(rest.drop_last(), entries);
    }
}

/// How a session is listed for its turn, where it runs.
pub open spec fn turn_of(e: (SessionView, SessionPriority)) -> Option<
    (Seq<char>, SessionPriority),
> {
    if e.0.phase is Running {
        Some((e.0.id, e.1))
    } else {
        None
    }
}

/// How much a priority counts.
pub open spec fn counts(p: SessionPriority) -> int {
    match p {
        SessionPriority::Foreground => 2,
        SessionPriority::Normal => 1,
        SessionPriority::Background => 0,
    }
}

spec fn ranked(x: Option<(Seq<char>, SessionPriority)>) -> Option<
    (Rank, (Seq<char>, SessionPriority)),
> {
    match x {
        Some(t) => Some((Rank { first: counts(t.1) as u128, second: 0 }, t)),
        None => None,
    }
}

proof fn lemma_running_picked(entries: Entries)
    ensures
        scheduler::running_ranked(entries) == recall_laws::picked(
            entries,
            |e: (SessionView, SessionPriority)| ranked(turn_of(e)),
        ),
    decreases entries.len(),
{
    if entries.len() > 0 {
        lemma_running_picked(entries.drop_last());
    }
}

/// The sessions take their turns by priority, the foreground first and the background last:
/// every running session, each once, and no other.
pub proof fn lemma_turns(entries: Entries)
    ensures
        ({
            let turns = scheduler::by_priority(entries);
            &&& forall|i: int|
                0 <= i < entries.len() ==> (turn_of(#[trigger] entries[i]) matches Some(t)
                    ==> turns.contains(t))
            &&& forall|k: int|
                0 <= k < turns.len() ==> exists|i: int|
                    0 <= i < entries.len() && turn_of(#[trigger] entries[i]) == Some(
                        #[trigger] turns[k],
                    )
            &&& turns.len() == entries.filter(
                |e: (SessionView, SessionPriority)| e.0.phase is Running,
            ).len()
            &&& forall|i: int, j: int|
                0 <= i < j < turns.len() ==> counts((#[trigger] turns[i]).1) >= counts(
                    (#[trigger] turns[j]).1,
                )
        }),
{
    let turns = scheduler::by_priority(entries);
    let all = scheduler::running_ranked(entries);
    let f = |e: (SessionView, SessionPriority)| ranked(turn_of(e));
    lemma_running_picked(entries);
    recall_laws::lemma_picked(entries, f);
    sort::lemma_top(all, all.len());
    let places = sort::lemma_places(all);
    assert(entries.filter(|e: (SessionView, SessionPriority)| f(e) is Some) == entries.filter(
        |e: (SessionView, SessionPriority)| e.0.phase is Running,
    )) by {
        lemma_same_filter(
            entries,
            |e: (SessionView, SessionPriority)| f(e) is Some,
            |e: (SessionView, SessionPriority)| e.0.phase is Running,
        );
    }
    assert forall|i: int| 0 <= i < entries.len() implies (turn_of(#[trigger] entries[i]) matches Some(
        t,
    ) ==> turns.contains(t)) by {
        if f(entries[i]) is Some {
            let r = all.index_of(f(entries[i])->0);
            assert(places.contains(r));
            let j = places.index_of(r);
            assert(turns[j] == all[r].1);
        }
    }
    assert forall|k: int| 0 <= k < turns.len() implies exists|i: int|
        0 <= i < entries.len() && turn_of(#[trigger] entries[i]) == Some(#[trigger] turns[k]) by {
        assert(turns[k] == all[places[k]].1);
        let i = choose|i: int|
            0 <= i < entries.len() && f(#[trigger] entries[i]) == Some(all[places[k]]);
        assert(turn_of(entries[i]) == Some(turns[k]));
    }
    assert forall|i: int, j: int| 0 <= i < j < turns.len() implies counts((#[trigger] turns[i]).1)
        >= counts((#[trigger] turns[j]).1) by {
        assert(sort::leads(all, places[i], places[j]));
        assert(turns[i] == all[places[i]].1);
        assert(turns[j] == all[places[j]].1);
        let a = choose|a: int|
            0 <= a < entries.len() && f(#[trigger] entries[a]) == Some(all[places[i]]);
        let b = choose|b: int|
            0 <= b < entries.len() && f(#[trigger] entries[b]) == Some(all[places[j]]);
        assert(all[places[i]].0.first == counts(turns[i].1));
        assert(all[places[j]].0.first == counts(turns[j].1));
    }
}

proof fn lemma_same_filter<T>(s: Seq<T>, f: spec_fn(T) -> bool, g: spec_fn(T) -> bool)
    requires
        forall|x: T| #[trigger] f(x) == g(x),
    ensures
        s.filter(f) == s.filter(g),
    decreases s.len(),
{
    reveal(Seq::filter);
    if s.len() > 0 {
        lemma_same_filter(s.drop_last(), f, g);
        assert(f(s.last()) == g(s.last()));
    }
}

/// A new scheduler has room for eight sessions, and takes one more exactly where there is
/// room.
pub proof fn lemma_room(
    fresh: SessionScheduler,
    scheduler: &mut SessionScheduler,
    s: AgentSession,
    p: SessionPriority,
    room: bool,
    full: bool,
    n: usize,
)
    requires
        call_ensures(SessionScheduler::new, (), fresh),
        call_ensures(SessionScheduler::at_capacity, (&*scheduler,), full),
        call_ensures(SessionScheduler::session_count, (&*scheduler,), n),
        call_ensures(SessionScheduler::add, (scheduler, s, p), room),
    ensures
        fresh@.max_sessions == 8,
        fresh@.entries.len() == 0,
        room == !full,
        n == old(scheduler)@.entries.len(),
        full <==> n >= old(scheduler)@.max_sessions,
        !room ==> final(scheduler)@ == old(scheduler)@,
        room ==> final(scheduler)@.entries == scheduler::added(old(scheduler)@.entries, s@, p),
{
}

// ---------------------------------------------------------------------------
// Events on the bus
// ---------------------------------------------------------------------------

/// What an agent tells goes on the bus under its kind with each part under its name.
pub proof fn lemma_event_on_the_bus(e: AgentEventView)
    ensures
        bus::wrapped(e).payload matches JsonView::Object(m) && {
            let kind = bus::wrapped(e).kind;
            match e {
                AgentEventView::Thinking { text } => kind == "thinking"@ && m["text"@]
                    == JsonView::Text(text),
                AgentEventView::Content { text } => kind == "content"@ && m["text"@]
                    == JsonView::Text(text),
                AgentEventView::ToolStart { name, input } => kind == "tool_start"@ && m["name"@]
                    == JsonView::Text(name) && m["input"@] == input,
                AgentEventView::ToolComplete { name, success } => kind == "tool_complete"@
                    && m["name"@] == JsonView::Text(name) && m["success"@] == JsonView::Bool(
                    success,
                ),
                AgentEventView::ModeChange { mode } => kind == "mode_change"@ && m["mode"@]
                    == JsonView::Text(
                    match mode {
                        ControlMode::BypassPermissions => "BypassPermissions"@,
                        ControlMode::AgentMode => "AgentMode"@,
                        ControlMode::AssistedMode => "AssistedMode"@,
                        ControlMode::HumanMode => "HumanMode"@,
                    },
                ),
                AgentEventView::Checkpoint { step, reason } => kind == "checkpoint"@
                    && m["reason"@] == JsonView::Text(reason) && m["step"@] == JsonView::Number(
                    JsonNumberView::Natural(step as u64),
                ),
                AgentEventView::Compacting { dropped_turns } => kind == "compacting"@
                    && m["dropped_turns"@] == JsonView::Number(
                    JsonNumberView::Natural(dropped_turns as u64),
                ),
                AgentEventView::Healing { attempt, error } => kind == "healing"@ && m["error"@]
                    == JsonView::Text(error) && m["attempt"@] == JsonView::Number(
                    JsonNumberView::Natural(attempt as u64),
                ),
                AgentEventView::Done { session_id, steps } => kind == "done"@ && m["session_id"@]
                    == JsonView::Text(session_id) && m["steps"@] == JsonView::Number(
                    JsonNumberView::Natural(steps as u64),
                ),
                AgentEventView::Error { error } => kind == "error"@ && m["error"@]
                    == JsonView::Text(error),
            }
        },
{
    reveal_strlit("name");
    reveal_strlit("input");
    reveal_strlit("success");
    reveal_strlit("reason");
    reveal_strlit("step");
    reveal_strlit("error");
    reveal_strlit("attempt");
    reveal_strlit("session_id");
    reveal_strlit("steps");
    assert("name"@.len() == 4 && "input"@.len() == 5 && "success"@.len() == 7 && "reason"@.len()
        == 6 && "step"@.len() == 4 && "error"@.len() == 5 && "attempt"@.len() == 7
        && "session_id"@.len() == 10 && "steps"@.len() == 5);
}

/// An event of the bus is an object that names its kind and carries each part under its name.
pub proof fn lemma_bus_on_the_wire(e: BusView)
    ensures
        bus::bus_json(e) matches JsonView::Object(m) && match e {
            BusView::Agent { session_id, event } => {
                &&& m["kind"@] == JsonView::Text("agent"@)
                &&& m["session_id"@] == JsonView::Text(session_id)
                &&& m["event"@] matches JsonView::Object(inner) && inner["kind"@]
                    == JsonView::Text(event.kind) && inner["payload"@] == event.payload
            },
            BusView::Session { session_id, transition } => {
                &&& m["kind"@] == JsonView::Text("session"@)
                &&& m["session_id"@] == JsonView::Text(session_id)
                &&& m["transition"@] == JsonView::Text(transition)
            },
            BusView::Artifact { artifact_id, installed } => {
                &&& m["kind"@] == JsonView::Text("artifact"@)
                &&& m["artifact_id"@] == JsonView::Text(artifact_id)
                &&& m["installed"@] == JsonView::Bool(installed)
            },
            BusView::ModeChange { session_id, mode } => {
                &&& m["kind"@] == JsonView::Text("mode_change"@)
                &&& m["session_id"@] == JsonView::Text(session_id)
                &&& m["mode"@] == JsonView::Text(mode)
            },
            BusView::Fleet { status, message } => {
                &&& m["kind"@] == JsonView::Text("fleet"@)
                &&& m["status"@] == JsonView::Text(status)
                &&& m["message"@] == JsonView::Text(message)
            },
        },
{
    reveal_strlit("kind");
    reveal_strlit("session_id");
    reveal_strlit("event");
    reveal_strlit("payload");
    reveal_strlit("transition");
    reveal_strlit("artifact_id");
    reveal_strlit("installed");
    reveal_strlit("mode");
    reveal_strlit("status");
    reveal_strlit("message");
    assert("kind"@.len() == 4 && "session_id"@.len() == 10 && "event"@.len() == 5
        && "payload"@.len() == 7 && "transition"@.len() == 10 && "artifact_id"@.len() == 11
        && "installed"@.len() == 9 && "mode"@.len() == 4 && "status"@.len() == 6
        && "message"@.len() == 7);
    assert("kind"@[0] != "mode"@[0]);
    assert("session_id"@[0] != "transition"@[0]);
}

/// Bringing a session to the front makes it the one in the foreground; the one that was there
/// steps back, and every other session keeps its priority.
pub proof fn lemma_brought_to_front(
    scheduler: &mut SessionScheduler,
    id: &str,
    at: int,
    i: int,
    front: Option<&AgentSession>,
)
    requires
        scheduler::sound(scheduler@.entries),
        0 <= at < scheduler@.entries.len(),
        0 <= i < scheduler@.entries.len(),
        scheduler@.entries[at].0.id == id@,
        call_ensures(SessionScheduler::set_foreground, (scheduler, id), ()),
        call_ensures(SessionScheduler::foreground, (final(scheduler),), front),
    ensures
        front matches Some(s) && s@ == old(scheduler)@.entries[at].0,
        final(scheduler)@.entries.len() == old(scheduler)@.entries.len(),
        final(scheduler)@.entries[at] == (
            old(scheduler)@.entries[at].0,
            SessionPriority::Foreground,
        ),
        i != at ==> final(scheduler)@.entries[i] == (
            old(scheduler)@.entries[i].0,
            stepped_back(old(scheduler)@.entries[i].1),
        ),
        final(scheduler)@.max_sessions == old(scheduler)@.max_sessions,
{
    let before = old(scheduler)@.entries;
    let after = final(scheduler)@.entries;
    lemma_priorities(before, at, i);
    assert forall|k: int| 0 <= k < at implies (#[trigger] after[k]).1
        != SessionPriority::Foreground by {
        lemma_priorities(before, at, k);
    }
    lemma_in_front(after, at);
}

/// Sending a session to the background changes its priority and nothing else. Removing one
/// gives it back and takes it, and only it, out of the list.
pub proof fn lemma_sent_back_and_removed(
    a: &mut SessionScheduler,
    b: &mut SessionScheduler,
    id: &str,
    at: int,
    removed: Option<AgentSession>,
)
    requires
        scheduler::sound(a@.entries),
        a@ == b@,
        0 <= at < a@.entries.len(),
        a@.entries[at].0.id == id@,
        call_ensures(SessionScheduler::set_background, (a, id), ()),
        call_ensures(SessionScheduler::remove, (b, id), removed),
    ensures
        final(a)@.entries == old(a)@.entries.update(
            at,
            (old(a)@.entries[at].0, SessionPriority::Background),
        ),
        removed matches Some(s) && s@ == old(b)@.entries[at].0,
        final(b)@.entries == old(b)@.entries.remove(at),
{
    lemma_found(old(a)@.entries, id@, at);
    assert(final(a)@.entries =~= old(a)@.entries.update(
        at,
        (old(a)@.entries[at].0, SessionPriority::Background),
    ));
}

/// The list of turns names every running session with its priority, and no other, the
/// foreground first and the background last.
pub proof fn lemma_turns_are_listed(s: SessionScheduler, list: Vec<Listed>, at: int, k: int)
    requires
        call_ensures(SessionScheduler::running_by_priority, (&s,), list),
    ensures
        0 <= at < s@.entries.len() && s@.entries[at].0.phase is Running ==> exists|i: int|
            0 <= i < list@.len() && (#[trigger] list@[i]).id@ == s@.entries[at].0.id
                && list@[i].priority == s@.entries[at].1,
        0 <= k < list@.len() ==> exists|i: int|
            0 <= i < s@.entries.len() && (#[trigger] s@.entries[i]).0.phase is Running
                && s@.entries[i].0.id == list@[k].id@ && s@.entries[i].1 == list@[k].priority,
        forall|i: int, j: int|
            0 <= i < j < list@.len() ==> counts((#[trigger] list@[i]).priority) >= counts(
                (#[trigger] list@[j]).priority,
            ),
{
    let entries = s@.entries;
    let turns = Seq::new(list@.len(), |i: int| list@[i]@);
    lemma_turns(entries);
    assert(turns == scheduler::by_priority(entries));
    if 0 <= at < entries.len() && entries[at].0.phase is Running {
        let t = turn_of(entries[at])->0;
        let i = turns.index_of(t);
        assert(turns[i] == list@[i]@);
    }
    if 0 <= k < list@.len() {
        assert(turns[k] == list@[k]@);
        let i = choose|i: int|
            0 <= i < entries.len() && turn_of(#[trigger] entries[i]) == Some(turns[k]);
        assert(entries[i].0.phase is Running);
    }
    assert forall|i: int, j: int| 0 <= i < j < list@.len() implies counts(
        (#[trigger] list@[i]).priority,
    ) >= counts((#[trigger] list@[j]).priority) by {
        assert(turns[i] == list@[i]@ && turns[j] == list@[j]@);
    }
}

/// What an agent tells in a session goes on the bus as told in that session.
pub proof fn lemma_told_in_its_session(session_id: &str, event: AgentEvent, told: BusEvent)
    requires
        call_ensures(BusEvent::agent, (session_id, &event), told),
    ensures
        told@ matches BusView::Agent { session_id: s, event: e } && s == session_id@ && e
            == bus::wrapped(event@),
{
}

} // verus!
