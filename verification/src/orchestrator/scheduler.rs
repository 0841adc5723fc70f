//! Which sessions run, and which of them the user drives.
//!
//! At most one session is in the foreground.

use vstd::prelude::*;
use crate::orchestrator::session::AgentSession;
use crate::orchestrator::session::SessionView;
use crate::sort;
use crate::sort::Rank;
use crate::text;

verus! {

/// How much a session matters.
#[derive(Debug, Clone, Copy, PartialEq, Eq, PartialOrd, Ord, Structural)]
pub enum SessionPriority {
    /// Runs beside, with little.
    Background,
    /// Interactive, but not in focus.
    Normal,
    /// The one that the user drives.
    Foreground,
}

impl Default for SessionPriority {
    fn default() -> (p: Self)
        ensures
            p == SessionPriority::Normal,
    {
        SessionPriority::Normal
    }
}

impl SessionPriority {
    /// The priority as a number: the higher, the more it matters.
    pub open spec fn level(self) -> nat {
        match self {
            SessionPriority::Background => 0,
            SessionPriority::Normal => 1,
            SessionPriority::Foreground => 2,
        }
    }

    fn rank(self) -> (rank: Rank)
        ensures
            rank == rank_of(self),
    {
        let first: u128 = match self {
            SessionPriority::Background => 0,
            SessionPriority::Normal => 1,
            SessionPriority::Foreground => 2,
        };
        Rank { first, second: 0 }
    }
}

/// The rank of a priority.
pub open spec fn rank_of(p: SessionPriority) -> Rank {
    Rank { first: p.level() as u128, second: 0 }
}

/// Sessions with their priorities.
pub type Entries = Seq<(SessionView, SessionPriority)>;

/// The place of the session with this id; behind all where there is none.
pub open spec fn place_of(entries: Entries, id: Seq<char>) -> int
    decreases entries.len(),
{
    if entries.len() == 0 {
        0
    } else {
        let before = place_of(entries.drop_last(), id);
        if before < entries.len() - 1 {
            before
        } else if entries.last().0.id == id {
            entries.len() - 1
        } else {
            entries.len() as int
        }
    }
}

/// Whether a session with this id is there.
pub open spec fn has_id(entries: Entries, id: Seq<char>) -> bool {
    place_of(entries, id) < entries.len()
}

/// The sessions with none in the foreground.
pub open spec fn lowered(entries: Entries) -> Entries {
    Seq::new(
        entries.len(),
        |i: int|
            (
                entries[i].0,
                if entries[i].1 == SessionPriority::Foreground {
                    SessionPriority::Normal
                } else {
                    entries[i].1
                },
            ),
    )
}

/// The sessions after one is added: in place of the one with its id, or behind all. One that
/// comes in the foreground sends the one that was there back.
pub open spec fn added(entries: Entries, s: SessionView, p: SessionPriority) -> Entries {
    let base = if p == SessionPriority::Foreground {
        lowered(entries)
    } else {
        entries
    };
    if has_id(base, s.id) {
        base.update(place_of(base, s.id), (s, p))
    } else {
        base.push((s, p))
    }
}

/// The sessions with one of them set to a priority.
pub open spec fn with_priority(entries: Entries, id: Seq<char>, p: SessionPriority) -> Entries {
    if has_id(entries, id) {
        let k = place_of(entries, id);
        entries.update(k, (entries[k].0, p))
    } else {
        entries
    }
}

/// The sessions without one of them.
pub open spec fn without_id(entries: Entries, id: Seq<char>) -> Entries {
    if has_id(entries, id) {
        entries.remove(place_of(entries, id))
    } else {
        entries
    }
}

/// The first session in the foreground.
pub open spec fn foreground_of(entries: Entries) -> Option<SessionView>
    decreases entries.len(),
{
    if entries.len() == 0 {
        None
    } else if foreground_of(entries.drop_last()) is Some {
        foreground_of(entries.drop_last())
    } else if entries.last().1 == SessionPriority::Foreground {
        Some(entries.last().0)
    } else {
        None
    }
}

/// The sessions that run, with their ranks.
pub open spec fn running_ranked(entries: Entries) -> Seq<(Rank, (Seq<char>, SessionPriority))>
    decreases entries.len(),
{
    if entries.len() == 0 {
        Seq::empty()
    } else {
        let (s, p) = entries.last();
        let before = running_ranked(entries.drop_last());
        if s.phase is Running {
            before.push((rank_of(p), (s.id, p)))
        } else {
            before
        }
    }
}

/// The sessions that run: those that matter more first, and of equal ones the earlier.
pub open spec fn by_priority(entries: Entries) -> Seq<(Seq<char>, SessionPriority)> {
    sort::top(running_ranked(entries), running_ranked(entries).len())
}

/// A session that runs.
pub struct Listed {
    pub id: String,
    pub priority: SessionPriority,
}

impl View for Listed {
    type V = (Seq<char>, SessionPriority);

    open spec fn view(&self) -> (Seq<char>, SessionPriority) {
        (self.id@, self.priority)
    }
}

/// What a scheduler is.
#[verifier::ext_equal]
pub struct SchedulerView {
    pub entries: Seq<(SessionView, SessionPriority)>,
    pub max_sessions: usize,
}

/// A session with its priority.
struct ScheduledSession {
    session: AgentSession,
    priority: SessionPriority,
}

impl View for ScheduledSession {
    type V = (SessionView, SessionPriority);

    closed spec fn view(&self) -> (SessionView, SessionPriority) {
        (self.session@, self.priority)
    }
}

/// What a list of sessions holds.
spec fn entries_view(entries: Seq<ScheduledSession>) -> Seq<(SessionView, SessionPriority)> {
    Seq::new(entries.len(), |i: int| entries[i]@)
}

/// The scheduler.
pub struct SessionScheduler {
    entries: Vec<ScheduledSession>,
    max_sessions: usize,
}

impl View for SessionScheduler {
    type V = SchedulerView;

    closed spec fn view(&self) -> SchedulerView {
        SchedulerView {
            entries: entries_view(self.entries@),
            max_sessions: self.max_sessions,
        }
    }
}

impl Default for SessionScheduler {
    fn default() -> (scheduler: Self)
        ensures
            scheduler@ == (SchedulerView { entries: Seq::empty(), max_sessions: 8 }),
    {
        SessionScheduler::new()
    }
}

proof fn lemma_place(entries: Entries, id: Seq<char>)
    ensures
        0 <= place_of(entries, id) <= entries.len(),
        has_id(entries, id) ==> entries[place_of(entries, id)].0.id == id,
        forall|k: int| 0 <= k < place_of(entries, id) ==> (#[trigger] entries[k]).0.id != id,
    decreases entries.len(),
{
    if entries.len() > 0 {
        let rest = entries.drop_last();
        lemma_place(rest, id);
        assert forall|k: int| 0 <= k < place_of(entries, id) implies (#[trigger] entries[k]).0.id
            != id by {
            if k < rest.len() {
                assert(rest[k] == entries[k]);
            }
        }
    }
}

proof fn lemma_place_at(entries: Entries, id: Seq<char>, at: int)
    requires
        0 <= at <= entries.len(),
        forall|k: int| 0 <= k < at ==> (#[trigger] entries[k]).0.id != id,
        at < entries.len() ==> entries[at].0.id == id,
    ensures
        place_of(entries, id) == at,
{
    lemma_place(entries, id);
}

impl SessionScheduler {
    /// A scheduler for eight sessions.
    pub fn new() -> (scheduler: Self)
        ensures
            scheduler@ == (SchedulerView { entries: Seq::empty(), max_sessions: 8 }),
    {
        let scheduler = SessionScheduler { entries: Vec::new(), max_sessions: 8 };
        assert(scheduler@.entries =~= Seq::<(SessionView, SessionPriority)>::empty());
        scheduler
    }

    fn find(&self, id: &str) -> (at: usize)
        ensures
            at == place_of(self@.entries, id@),
            at <= self.entries@.len(),
    {
        let mut i: usize = 0;
        while i < self.entries.len()
            invariant
                i <= self.entries@.len(),
                forall|k: int| 0 <= k < i ==> (#[trigger] self@.entries[k]).0.id != id@,
            decreases self.entries.len() - i,
        {
            assert(self@.entries[i as int] == self.entries@[i as int]@);
            if text::same_text(self.entries[i].session.id.as_str(), id) {
                proof {
                    lemma_place_at(self@.entries, id@, i as int);
                }
                return i;
            }
            i += 1;
        }
        proof {
            lemma_place_at(self@.entries, id@, i as int);
        }
        i
    }

    fn set_priority_at(&mut self, at: usize, priority: SessionPriority)
        requires
            at < old(self).entries@.len(),
        ensures
            final(self)@ == (SchedulerView {
                entries: old(self)@.entries.update(
                    at as int,
                    (old(self)@.entries[at as int].0, priority),
                ),
                ..old(self)@
            }),
            final(self).entries@.len() == old(self).entries@.len(),
    {
        let entry = &mut self.entries[at];
        entry.priority = priority;
        assert(self@.entries =~= old(self)@.entries.update(
            at as int,
            (old(self)@.entries[at as int].0, priority),
        ));
    }

    /// Sends the session in the foreground back.
    fn lower(&mut self)
        ensures
            final(self)@ == (SchedulerView { entries: lowered(old(self)@.entries), ..old(self)@ }),
    {
        let ghost before = self@.entries;
        let n: usize = self.entries.len();
        let mut i: usize = 0;
        while i < n
            invariant
                i <= n == self.entries@.len(),
                before.len() == n,
                self@.max_sessions == old(self)@.max_sessions,
                before == old(self)@.entries,
                forall|k: int| 0 <= k < i ==> (#[trigger] self@.entries[k]) == lowered(before)[k],
                forall|k: int| i <= k < n ==> (#[trigger] self@.entries[k]) == before[k],
            decreases n - i,
        {
            assert(self@.entries[i as int] == before[i as int]);
            if self.entries[i].priority == SessionPriority::Foreground {
                self.set_priority_at(i, SessionPriority::Normal);
            }
            i += 1;
        }
        assert(self@.entries =~= lowered(before));
    }

    /// Adds a session. Says whether there was room for it.
    pub fn add(&mut self, session: AgentSession, priority: SessionPriority) -> (room: bool)
        ensures
            room == (old(self)@.entries.len() < old(self)@.max_sessions),
            final(self)@ == (if room {
                SchedulerView {
                    entries: added(old(self)@.entries, session@, priority),
                    ..old(self)@
                }
            } else {
                old(self)@
            }),
    {
        if self.entries.len() >= self.max_sessions {
            return false;
        }
        if priority == SessionPriority::Foreground {
            self.lower();
        }
        let ghost base = self@.entries;
        let at: usize = self.find(session.id.as_str());
        let entry = ScheduledSession { session, priority };
        if at < self.entries.len() {
            self.entries[at] = entry;
            assert(self@.entries =~= base.update(at as int, entry@));
        } else {
            self.entries.push(entry);
            assert(self@.entries =~= base.push(entry@));
        }
        true
    }

    /// Takes a session out.
    pub fn remove(&mut self, id: &str) -> (session: Option<AgentSession>)
        ensures
            final(self)@ == (SchedulerView {
                entries: without_id(old(self)@.entries, id@),
                ..old(self)@
            }),
            match session {
                Some(s) => has_id(old(self)@.entries, id@) && s@ == old(self)@.entries[place_of(
                    old(self)@.entries,
                    id@,
                )].0,
                None => !has_id(old(self)@.entries, id@),
            },
    {
        let at: usize = self.find(id);
        if at < self.entries.len() {
            let entry = self.entries.remove(at);
            assert(self@.entries =~= old(self)@.entries.remove(at as int));
            Some(entry.session)
        } else {
            None
        }
    }

    /// Puts a session in the foreground and sends the one that was there back.
    pub fn set_foreground(&mut self, id: &str)
        ensures
            final(self)@ == (SchedulerView {
                entries: with_priority(
                    lowered(old(self)@.entries),
                    id@,
                    SessionPriority::Foreground,
                ),
                ..old(self)@
            }),
    {
        self.lower();
        let at: usize = self.find(id);
        if at < self.entries.len() {
            self.set_priority_at(at, SessionPriority::Foreground);
        }
    }

    /// Sends a session to the background.
    pub fn set_background(&mut self, id: &str)
        ensures
            final(self)@ == (SchedulerView {
                entries: with_priority(
                    old(self)@.entries,
                    id@,
                    SessionPriority::Background,
                ),
                ..old(self)@
            }),
    {
        let at: usize = self.find(id);
        if at < self.entries.len() {
            self.set_priority_at(at, SessionPriority::Background);
        }
    }

    /// The session in the foreground.
    pub fn foreground(&self) -> (session: Option<&AgentSession>)
        ensures
            (match session {
                Some(s) => Some(s@),
                None => None,
            }) == foreground_of(self@.entries),
    {
        let ghost all = self@.entries;
        let mut i: usize = 0;
        assert(all.take(0) =~= Seq::<(SessionView, SessionPriority)>::empty());
        while i < self.entries.len()
            invariant
                i <= self.entries@.len(),
                all == self@.entries,
                foreground_of(all.take(i as int)) is None,
            decreases self.entries.len() - i,
        {
            assert(all.take(i + 1).drop_last() =~= all.take(i as int));
            assert(all[i as int] == self.entries@[i as int]@);
            if self.entries[i].priority == SessionPriority::Foreground {
                proof {
                    lemma_foreground_stays(all, i + 1);
                }
                return Some(&self.entries[i].session);
            }
            i += 1;
        }
        assert(all.take(i as int) =~= all);
        None
    }

    /// The sessions that run, those that matter more first.
    pub fn running_by_priority(&self) -> (list: Vec<Listed>)
        ensures
            Seq::new(list@.len(), |i: int| list@[i]@) == by_priority(self@.entries),
    {
        let ghost all = self@.entries;
        let mut ranked: Vec<(Rank, Listed)> = Vec::new();
        let mut i: usize = 0;
        assert(all.take(0) =~= Seq::<(SessionView, SessionPriority)>::empty());
        assert(sort::seen(ranked@) =~= running_ranked(all.take(0)));
        while i < self.entries.len()
            invariant
                i <= self.entries@.len(),
                all == self@.entries,
                sort::seen(ranked@) == running_ranked(all.take(i as int)),
            decreases self.entries.len() - i,
        {
            assert(all.take(i + 1).drop_last() =~= all.take(i as int));
            assert(all[i as int] == self.entries@[i as int]@);
            let entry = &self.entries[i];
            if entry.session.is_running() {
                let item = (
                    entry.priority.rank(),
                    Listed { id: entry.session.id.clone(), priority: entry.priority },
                );
                let ghost before = ranked@;
                ranked.push(item);
                assert(sort::seen(ranked@) =~= sort::seen(before).push((item.0, item.1@)));
            }
            i += 1;
        }
        assert(all.take(i as int) =~= all);
        let n: usize = ranked.len();
        assert(sort::seen(ranked@).len() == n);
        sort::take_top(ranked, n)
    }

    /// How many sessions there are.
    pub fn session_count(&self) -> (n: usize)
        ensures
            n == self@.entries.len(),
    {
        self.entries.len()
    }

    /// Whether there is no room for another session.
    pub fn at_capacity(&self) -> (r: bool)
        ensures
            r == (self@.entries.len() >= self@.max_sessions),
    {
        self.entries.len() >= self.max_sessions
    }
}

proof fn lemma_foreground_stays(entries: Entries, n: int)
    requires
        0 <= n <= entries.len(),
        foreground_of(entries.take(n)) is Some,
    ensures
        foreground_of(entries) == foreground_of(entries.take(n)),
    decreases entries.len(),
{
    if n < entries.len() {
        assert(entries.drop_last().take(n) =~= entries.take(n));
        lemma_foreground_stays(entries.drop_last(), n);
    } else {
        assert(entries.take(n) =~= entries);
    }
}

// ---------------------------------------------------------------------------
// What the scheduler promises
// ---------------------------------------------------------------------------

/// Whether no two sessions have one id, and at most one is in the foreground.
pub open spec fn sound(entries: Entries) -> bool {
    &&& forall|i: int, j: int|
        0 <= i < j < entries.len() ==> (#[trigger] entries[i]).0.id != (#[trigger] entries[j]).0.id
    &&& forall|i: int, j: int|
        0 <= i < j < entries.len() ==> !((#[trigger] entries[i]).1 == SessionPriority::Foreground
            && (#[trigger] entries[j]).1 == SessionPriority::Foreground)
}

proof fn lemma_lowered_sound(entries: Entries)
    requires
        sound(entries),
    ensures
        sound(lowered(entries)),
        forall|i: int|
            0 <= i < entries.len() ==> (#[trigger] lowered(entries)[i]).1
                != SessionPriority::Foreground,
{
    let low = lowered(entries);
    assert forall|i: int, j: int| 0 <= i < j < low.len() implies (#[trigger] low[i]).0.id != (
    #[trigger] low[j]).0.id by {
        assert(entries[i].0.id != entries[j].0.id);
    }
}

/// At most one session is in the foreground and no id stands twice, whatever is added, taken
/// out, put in the foreground or sent to the background.
pub proof fn lemma_stays_sound(
    entries: Entries,
    s: SessionView,
    p: SessionPriority,
    id: Seq<char>,
)
    requires
        sound(entries),
    ensures
        sound(Seq::<(SessionView, SessionPriority)>::empty()),
        sound(added(entries, s, p)),
        sound(without_id(entries, id)),
        sound(with_priority(lowered(entries), id, SessionPriority::Foreground)),
        sound(with_priority(entries, id, SessionPriority::Background)),
{
    lemma_lowered_sound(entries);
    let low = lowered(entries);
    lemma_place(entries, id);
    lemma_place(low, id);
    let base = if p == SessionPriority::Foreground {
        low
    } else {
        entries
    };
    lemma_place(base, s.id);
    let more = added(entries, s, p);
    let k = place_of(base, s.id);
    assert forall|i: int, j: int| 0 <= i < j < more.len() implies (#[trigger] more[i]).0.id != (
    #[trigger] more[j]).0.id && !(more[i].1 == SessionPriority::Foreground && more[j].1
        == SessionPriority::Foreground) by {
        if i != k && j != k {
            assert(more[i] == base[i] && more[j] == base[j]);
        } else if i == k {
            if has_id(base, s.id) {
                assert(base[i].0.id != base[j].0.id);
                assert(more[j] == base[j]);
            }
        } else {
            if has_id(base, s.id) {
                assert(base[i].0.id != base[j].0.id);
            }
            assert(more[i] == base[i]);
        }
    }
    let less = without_id(entries, id);
    assert forall|i: int, j: int| 0 <= i < j < less.len() implies (#[trigger] less[i]).0.id != (
    #[trigger] less[j]).0.id && !(less[i].1 == SessionPriority::Foreground && less[j].1
        == SessionPriority::Foreground) by {
        if has_id(entries, id) {
            let at = place_of(entries, id);
            let a = if i < at {
                i
            } else {
                i + 1
            };
            let b = if j < at {
                j
            } else {
                j + 1
            };
            assert(less[i] == entries[a] && less[j] == entries[b]);
        } else {
            assert(less[i] == entries[i] && less[j] == entries[j]);
        }
    }
    let front = with_priority(low, id, SessionPriority::Foreground);
    assert forall|i: int, j: int| 0 <= i < j < front.len() implies (#[trigger] front[i]).0.id != (
    #[trigger] front[j]).0.id && !(front[i].1 == SessionPriority::Foreground && front[j].1
        == SessionPriority::Foreground) by {
        assert(low[i].0.id != low[j].0.id);
    }
    let back = with_priority(entries, id, SessionPriority::Background);
    assert forall|i: int, j: int| 0 <= i < j < back.len() implies (#[trigger] back[i]).0.id != (
    #[trigger] back[j]).0.id && !(back[i].1 == SessionPriority::Foreground && back[j].1
        == SessionPriority::Foreground) by {
        assert(entries[i].0.id != entries[j].0.id);
    }
}

/// A session that is put in the foreground is there, and no other is.
pub proof fn lemma_foreground_is_the_one(entries: Entries, id: Seq<char>)
    requires
        sound(entries),
        has_id(entries, id),
    ensures
        foreground_of(with_priority(lowered(entries), id, SessionPriority::Foreground)) matches Some(
            s,
        ) && s.id == id,
{
    let low = lowered(entries);
    lemma_place(entries, id);
    assert forall|k: int| 0 <= k < place_of(entries, id) implies (#[trigger] low[k]).0.id != id by {
        assert(entries[k].0.id != id);
    }
    lemma_place_at(low, id, place_of(entries, id));
    let front = with_priority(low, id, SessionPriority::Foreground);
    let k = place_of(low, id);
    lemma_first_foreground(front, k);
}

proof fn lemma_first_foreground(entries: Entries, k: int)
    requires
        0 <= k < entries.len(),
        entries[k].1 == SessionPriority::Foreground,
        forall|i: int|
            0 <= i < entries.len() && i != k ==> (#[trigger] entries[i]).1
                != SessionPriority::Foreground,
    ensures
        foreground_of(entries) == Some(entries[k].0),
    decreases entries.len(),
{
    let rest = entries.drop_last();
    if k < rest.len() {
        assert forall|i: int| 0 <= i < rest.len() && i != k implies (#[trigger] rest[i]).1
            != SessionPriority::Foreground by {
            assert(rest[i] == entries[i]);
        }
        lemma_first_foreground(rest, k);
    } else {
        lemma_no_foreground(rest, entries);
    }
}

proof fn lemma_no_foreground(rest: Entries, entries: Entries)
    requires
        rest.len() <= entries.len(),
        forall|i: int|
            0 <= i < rest.len() ==> rest[i] == #[trigger] entries[i] && entries[i].1
                != SessionPriority::Foreground,
    ensures
        foreground_of(rest) is None,
    decreases rest.len(),
{
    if rest.len() > 0 {
        assert(rest.last() == entries[rest.len() - 1]);
        lemma_no_foreground(rest.drop_last(), entries);
    }
}

/// There are never more sessions than there is room for.
pub proof fn lemma_room_is_kept(v: SchedulerView, s: SessionView, p: SessionPriority, id: Seq<char>)
    requires
        v.entries.len() <= v.max_sessions,
    ensures
        v.entries.len() < v.max_sessions ==> added(v.entries, s, p).len() <= v.max_sessions,
        without_id(v.entries, id).len() <= v.max_sessions,
        with_priority(v.entries, id, p).len() == v.entries.len(),
        lowered(v.entries).len() == v.entries.len(),
{
    lemma_place(v.entries, id);
    lemma_place(v.entries, s.id);
    lemma_place(lowered(v.entries), s.id);
}

} // verus!
