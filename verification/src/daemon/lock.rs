//! The lock screen: which sessions are locked, and when a session locks by itself.

use vstd::prelude::*;
use crate::json;
use crate::json::Json;
use crate::json::JsonView;
use crate::sorted_map;
use crate::sorted_map::SortedMap;
use crate::text;

verus! {

/// Whether a session is locked.
#[derive(Debug, Clone, Copy, PartialEq, Eq, Structural)]
pub enum LockStatus {
    Unlocked,
    Locked,
}

/// The lock of one session.
#[derive(Debug, Clone, Copy, PartialEq, Eq, Structural)]
pub struct SessionLockState {
    pub status: LockStatus,
}

impl SessionLockState {
    /// An open lock.
    pub fn new() -> (state: Self)
        ensures
            state.status == LockStatus::Unlocked,
    {
        SessionLockState { status: LockStatus::Unlocked }
    }

    /// Whether the session is locked.
    pub fn is_locked(&self) -> (r: bool)
        ensures
            r == (self.status == LockStatus::Locked),
    {
        self.status == LockStatus::Locked
    }
}

/// What the shell is told.
pub open spec fn lock_event(kind: Seq<char>, session_id: Seq<char>) -> JsonView {
    JsonView::Object(
        Map::empty().insert("type"@, JsonView::Text(kind)).insert(
            "session_id"@,
            JsonView::Text(session_id),
        ),
    )
}

fn event_line(kind: &str, session_id: &str) -> (line: String)
    ensures
        line@ == json::written(lock_event(kind@, session_id@)),
        json::parsed(line@) == Some(lock_event(kind@, session_id@)),
{
    let v = Json::object().with("type", Json::of_text(kind)).with(
        "session_id",
        Json::of_text(session_id),
    );
    proof {
        let members = v@->Object_0;
        assert forall|k: Seq<char>| members.dom().contains(k) implies json::plain(
            #[trigger] members[k],
            126,
        ) by {
            if k != "session_id"@ {
                assert(k == "type"@);
            }
        }
        assert(json::plain(v@, 127));
    }
    json::write(&v)
}

/// The locks of all sessions.
pub struct LockManager {
    sessions: SortedMap<SessionLockState>,
}

/// Whether a session is locked; one that was never spoken of is not.
pub open spec fn locked(locks: Map<Seq<char>, SessionLockState>, id: Seq<char>) -> bool {
    locks.dom().contains(id) && locks[id].status == LockStatus::Locked
}

impl View for LockManager {
    type V = Map<Seq<char>, SessionLockState>;

    closed spec fn view(&self) -> Map<Seq<char>, SessionLockState> {
        sorted_map::as_map(self.sessions@)
    }
}

impl LockManager {
    /// No locks.
    pub fn new() -> (manager: Self)
        ensures
            manager@ == Map::<Seq<char>, SessionLockState>::empty(),
    {
        let manager = LockManager { sessions: SortedMap::new() };
        assert(manager@ =~= Map::<Seq<char>, SessionLockState>::empty());
        manager
    }

    /// Locks a session. Gives the line that tells the shell.
    pub fn lock(&mut self, session_id: &str) -> (line: String)
        ensures
            final(self)@ == old(self)@.insert(
                session_id@,
                SessionLockState { status: LockStatus::Locked },
            ),
            line@ == json::written(lock_event("session_locked"@, session_id@)),
            json::parsed(line@) == Some(lock_event("session_locked"@, session_id@)),
    {
        self.sessions.insert(session_id, SessionLockState { status: LockStatus::Locked });
        event_line("session_locked", session_id)
    }

    /// Unlocks a session. Any number is accepted, and none. Gives whether it was, and the line
    /// that tells the shell.
    pub fn unlock(&mut self, session_id: &str, pin: Option<&str>) -> (result: (bool, String))
        ensures
            result.0,
            final(self)@ == old(self)@.insert(
                session_id@,
                SessionLockState { status: LockStatus::Unlocked },
            ),
            result.1@ == json::written(lock_event("session_unlocked"@, session_id@)),
            json::parsed(result.1@) == Some(lock_event("session_unlocked"@, session_id@)),
    {
        self.sessions.insert(session_id, SessionLockState { status: LockStatus::Unlocked });
        (true, event_line("session_unlocked", session_id))
    }

    /// Whether a session is locked.
    pub fn is_locked(&self, session_id: &str) -> (r: bool)
        ensures
            r == locked(self@, session_id@),
    {
        match self.sessions.get(session_id) {
            Some(state) => state.is_locked(),
            None => false,
        }
    }
}

/// A session that was locked is locked until it is unlocked, and no other session is touched.
pub proof fn lemma_locks_are_apart(
    locks: Map<Seq<char>, SessionLockState>,
    id: Seq<char>,
    other: Seq<char>,
)
    requires
        id != other,
    ensures
        ({
            let on = locks.insert(id, SessionLockState { status: LockStatus::Locked });
            let off = on.insert(id, SessionLockState { status: LockStatus::Unlocked });
            &&& locked(on, id)
            &&& !locked(off, id)
            &&& locked(on, other) == locked(locks, other)
            &&& locked(off, other) == locked(locks, other)
        }),
{
}

// ---------------------------------------------------------------------------
// Locking by itself
// ---------------------------------------------------------------------------

/// When the user was last active, in milliseconds of a clock.
pub struct InactivityTracker {
    last_activity: u64,
}

impl InactivityTracker {
    /// When the user was last active.
    pub closed spec fn last(&self) -> u64 {
        self.last_activity
    }

    /// The user is active now.
    pub fn new(now_ms: u64) -> (tracker: Self)
        ensures
            tracker.last() == now_ms,
    {
        InactivityTracker { last_activity: now_ms }
    }

    /// The user is active now.
    pub fn touch(&mut self, now_ms: u64)
        ensures
            final(self).last() == now_ms,
    {
        self.last_activity = now_ms;
    }

    /// For how many whole seconds the user has not been active; none where the clock went
    /// back.
    pub fn idle_secs(&self, now_ms: u64) -> (seconds: u64)
        ensures
            seconds == (if now_ms >= self.last() {
                (now_ms - self.last()) / 1000
            } else {
                0
            }),
    {
        if now_ms >= self.last_activity {
            (now_ms - self.last_activity) / 1000
        } else {
            0
        }
    }
}

/// What the timer of a session does next.
#[derive(Debug, Clone, Copy, PartialEq, Eq, Structural)]
pub enum TimerStep {
    /// Looks again in a second.
    Look,
    /// Locks the session, lets so many seconds pass, and takes the user for active.
    Lock { rest_secs: u64 },
}

/// Locks a session after a time without activity.
#[derive(Debug, Clone, Copy, PartialEq, Eq, Structural)]
pub struct LockTimer {
    pub timeout_secs: u64,
}

impl LockTimer {
    /// The timer for a time; none where the time is zero.
    pub fn new(timeout_secs: u64) -> (timer: Option<LockTimer>)
        ensures
            timer == (if timeout_secs == 0 {
                None
            } else {
                Some(LockTimer { timeout_secs })
            }),
    {
        if timeout_secs == 0 {
            None
        } else {
            Some(LockTimer { timeout_secs })
        }
    }

    /// What to do, for how many seconds the user has not been active.
    pub fn tick(&self, idle_secs: u64) -> (step: TimerStep)
        ensures
            step == (if idle_secs >= self.timeout_secs {
                TimerStep::Lock { rest_secs: self.timeout_secs }
            } else {
                TimerStep::Look
            }),
    {
        if idle_secs >= self.timeout_secs {
            TimerStep::Lock { rest_secs: self.timeout_secs }
        } else {
            TimerStep::Look
        }
    }
}

/// The time after which sessions lock, in seconds: what the setting says, or zero, which is
/// never.
pub fn lock_timeout_secs(setting: Option<&str>) -> (seconds: u64)
    ensures
        seconds == (match setting {
            Some(s) => match text::long_number(s@) {
                Some(n) => n,
                None => 0,
            },
            None => 0,
        }),
{
    match setting {
        Some(s) => match text::parse_long(s) {
            Some(n) => n,
            None => 0,
        },
        None => 0,
    }
}

} // verus!
