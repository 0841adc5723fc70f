//! What the parts around the agent promise across calls.

use vstd::prelude::*;
use crate::agent::control::OobeStepKind;
use crate::agent::harness::AgentEvent;
use crate::agent::harness::AgentEventView;
use crate::daemon::lock;
use crate::daemon::lock::InactivityTracker;
use crate::daemon::lock::LockManager;
use crate::daemon::lock::LockTimer;
use crate::daemon::lock::TimerStep;
use crate::daemon::oobe;
use crate::daemon::oobe::OobeAction;
use crate::daemon::oobe::OobeEvent;
use crate::daemon::oobe::OobeState;
use crate::daemon::recall;
use crate::json;
use crate::json::JsonView;
use crate::memory::protocol;
use crate::memory::protocol::EpisodeView;
use crate::memory::protocol::HitView;
use crate::memory::protocol::MemoryLayer;
use crate::memory::protocol::MemoryQuery;
use crate::memory::protocol::MemoryResult;
use crate::memory::protocol::MemoryWrite;
use crate::memory::protocol::ProfileView;
use crate::memory::wire::QueryView;
use crate::text;

verus! {

// ---------------------------------------------------------------------------
// Locking
// ---------------------------------------------------------------------------

/// A session that was locked is locked, and the line tells that it was. Other sessions are as
/// before.
pub proof fn lemma_locked(
    manager: &mut LockManager,
    session_id: &str,
    line: String,
    other: &str,
    now: bool,
    before: bool,
    after: bool,
)
    requires
        call_ensures(LockManager::is_locked, (&*manager, other), before),
        call_ensures(LockManager::lock, (manager, session_id), line),
        call_ensures(LockManager::is_locked, (final(manager), session_id), now),
        call_ensures(LockManager::is_locked, (final(manager), other), after),
    ensures
        now,
        other@ != session_id@ ==> before == after,
        json::parsed(line@) matches Some(JsonView::Object(m)) && m.dom() == set![
            "type"@,
            "session_id"@,
        ] && m["type"@] == JsonView::Text("session_locked"@) && m["session_id"@] == JsonView::Text(
            session_id@,
        ),
{
    lemma_two_members("session_locked"@, session_id@);
}

/// A session that was unlocked is not locked, and the line tells that it was. Other sessions
/// are as before.
pub proof fn lemma_unlocked(
    manager: &mut LockManager,
    session_id: &str,
    pin: Option<&str>,
    result: (bool, String),
    other: &str,
    now: bool,
    before: bool,
    after: bool,
)
    requires
        call_ensures(LockManager::is_locked, (&*manager, other), before),
        call_ensures(LockManager::unlock, (manager, session_id, pin), result),
        call_ensures(LockManager::is_locked, (final(manager), session_id), now),
        call_ensures(LockManager::is_locked, (final(manager), other), after),
    ensures
        result.0,
        !now,
        other@ != session_id@ ==> before == after,
        json::parsed(result.1@) matches Some(JsonView::Object(m)) && m.dom() == set![
            "type"@,
            "session_id"@,
        ] && m["type"@] == JsonView::Text("session_unlocked"@) && m["session_id"@]
            == JsonView::Text(session_id@),
{
    lemma_two_members("session_unlocked"@, session_id@);
}

proof fn lemma_two_members(kind: Seq<char>, id: Seq<char>)
    ensures
        lock::lock_event(kind, id) matches JsonView::Object(m) && m.dom() == set![
            "type"@,
            "session_id"@,
        ] && m["type"@] == JsonView::Text(kind) && m["session_id"@] == JsonView::Text(id),
{
    reveal_strlit("type");
    reveal_strlit("session_id");
    assert("type"@.len() == 4 && "session_id"@.len() == 10);
    assert(lock::lock_event(kind, id)->Object_0.dom() =~= set!["type"@, "session_id"@]);
}

/// A new manager has no session locked.
pub proof fn lemma_none_locked(manager: LockManager, session_id: &str, r: bool)
    requires
        call_ensures(LockManager::new, (), manager),
        call_ensures(LockManager::is_locked, (&manager, session_id), r),
    ensures
        !r,
{
}

/// Idleness is counted in whole seconds from the last touch on.
pub proof fn lemma_idle(
    tracker: &mut InactivityTracker,
    touched_ms: u64,
    now_ms: u64,
    fresh: InactivityTracker,
    idle: u64,
    idle_fresh: u64,
)
    requires
        call_ensures(InactivityTracker::touch, (tracker, touched_ms), ()),
        call_ensures(InactivityTracker::new, (touched_ms,), fresh),
        call_ensures(InactivityTracker::idle_secs, (final(tracker), now_ms), idle),
        call_ensures(InactivityTracker::idle_secs, (&fresh, now_ms), idle_fresh),
    ensures
        idle == idle_fresh,
        now_ms >= touched_ms ==> idle * 1000 <= now_ms - touched_ms < idle * 1000 + 1000,
        now_ms < touched_ms ==> idle == 0,
{
}

/// A session locks by itself once it is idle for as long as was set, and never where nothing
/// or zero was set.
pub proof fn lemma_locks_by_itself(
    setting: Option<&str>,
    timeout: u64,
    timer: Option<LockTimer>,
    idle_secs: u64,
    step: TimerStep,
)
    requires
        call_ensures(lock::lock_timeout_secs, (setting,), timeout),
        call_ensures(LockTimer::new, (timeout,), timer),
        timer matches Some(t) ==> call_ensures(LockTimer::tick, (&t, idle_secs), step),
    ensures
        setting is None ==> timer is None,
        setting matches Some(s) ==> (timer is Some <==> text::long_number(s@) is Some
            && text::long_number(s@)->0 > 0),
        setting matches Some(s) ==> (timer is Some ==> {
            let secs = text::long_number(s@)->0;
            &&& step is Lock <==> idle_secs >= secs
            &&& step matches TimerStep::Lock { rest_secs } ==> rest_secs == secs
        }),
{
}

// ---------------------------------------------------------------------------
// The first start
// ---------------------------------------------------------------------------

/// Whether a line tells of a step of the first start.
pub open spec fn tells(action: OobeAction, step: Seq<char>, message: Seq<char>) -> bool {
    action matches OobeAction::Tell(line) && line@ == json::written(
        JsonView::Object(
            Map::empty().insert("type"@, JsonView::Text("oobe_step"@)).insert(
                "step"@,
                JsonView::Text(step),
            ).insert("message"@, JsonView::Text(message)),
        ),
    )
}

/// The first start is needed where there is no session yet and it is not skipped. It begins by
/// asking for a name.
pub proof fn lemma_first_start_begins(
    sessions_exist: bool,
    skip: bool,
    needed: bool,
    begun: Option<(OobeState, Vec<OobeAction>)>,
)
    requires
        call_ensures(OobeState::needed, (sessions_exist, skip), needed),
        call_ensures(OobeState::begin, (skip,), begun),
    ensures
        needed <==> !sessions_exist && !skip,
        begun is None <==> skip,
        begun matches Some((s, actions)) ==> {
            &&& s.step == OobeStepKind::Welcome
            &&& !s.completed
            &&& s.device_name is None
            &&& actions@.len() == 1
            &&& tells(
                actions@[0],
                "welcome"@,
                "Welcome to Kiki OS! Let's set up your device. Enter a name for this device."@,
            )
        },
{
    if let Some((s, actions)) = begun {
        assert(actions@[0].is(
            seq![oobe::OobeActionView::Tell(oobe::step_event(OobeStepKind::Welcome))][0],
        ));
    }
}

/// The name that is given is the name of the device, or a name that every device has. What is
/// meant for another step changes nothing.
pub proof fn lemma_name_is_taken(
    s: &mut OobeState,
    event: OobeEvent,
    actions: Vec<OobeAction>,
)
    requires
        s.step == OobeStepKind::Welcome,
        call_ensures(OobeState::step, (s, event), actions),
    ensures
        event matches OobeEvent::Input(msg) ==> (msg.step@ == "welcome"@ ==> {
            &&& final(s).step == OobeStepKind::AccountSetup
            &&& !final(s).completed
            &&& final(s).device_name matches Some(name) && name@ == (match msg.value@ {
                JsonView::Object(m) => if m.dom().contains("device_name"@)
                    && m["device_name"@] is Text {
                    m["device_name"@]->Text_0
                } else {
                    "kiki-device"@
                },
                _ => "kiki-device"@,
            })
            &&& actions@.len() == 1
            &&& tells(
                actions@[0],
                "account_setup"@,
                "Link your Kiki account. Open the URL shown in your browser to authorize this device."@,
            )
        }),
        event matches OobeEvent::Input(msg) ==> (msg.step@ != "welcome"@ ==> final(s)@ == old(s)@
            && actions@.len() == 0),
        event is Closed ==> (final(s).device_name matches Some(name) && name@
            == "kiki-device"@),
{
    let views = oobe::oobe_step(s@, event).1;
    if views.len() == 1 {
        assert(actions@[0].is(views[0]));
    }
}

/// Once the account is set up, the model is fetched, and the first start is complete.
pub proof fn lemma_set_up(s: &mut OobeState, event: OobeEvent, actions: Vec<OobeAction>)
    requires
        s.step == OobeStepKind::AccountSetup,
        call_ensures(OobeState::step, (s, event), actions),
        event matches OobeEvent::Input(msg) ==> msg.step@ == "account_setup"@,
    ensures
        final(s).completed,
        final(s).step == OobeStepKind::Done,
        text::opt_view(final(s).device_name) == text::opt_view(old(s).device_name),
        actions@.len() == 4,
        tells(
            actions@[0],
            "model_download"@,
            "Downloading the default AI model in the background. This may take a few minutes."@,
        ),
        actions@[1] is FetchModel,
        tells(actions@[2], "done"@, "Setup complete! Creating your first desktop session."@),
        actions@[3] matches OobeAction::Tell(line) && line@ == json::written(
            JsonView::Object(Map::empty().insert("type"@, JsonView::Text("oobe_complete"@))),
        ),
{
    let views = oobe::oobe_step(s@, event).1;
    assert(actions@[0].is(views[0]));
    assert(actions@[1].is(views[1]));
    assert(actions@[2].is(views[2]));
    assert(actions@[3].is(views[3]));
}

/// The model is the one that is set, else the default one.
pub proof fn lemma_model(setting: Option<&str>, model: String)
    requires
        call_ensures(oobe::default_model, (setting,), model),
    ensures
        setting matches Some(s) ==> model@ == s@,
        setting is None ==> model@ == "llama3.2:3b"@,
{
}

// ---------------------------------------------------------------------------
// Memory of sessions
// ---------------------------------------------------------------------------

/// The end of a session, an error and a recovery from one are remembered as what they were,
/// each of its time, and nothing else is remembered by itself.
pub proof fn lemma_remembered(
    event: AgentEvent,
    session_id: &str,
    ts_ms: u64,
    write: Option<MemoryWrite>,
)
    requires
        call_ensures(recall::reflection_write, (&event, session_id, ts_ms), write),
    ensures
        match event@ {
            AgentEventView::Done { session_id: ended, steps } => write matches Some(
                MemoryWrite::Episode { event: e },
            ) && e@ == (EpisodeView {
                id: "session-"@ + ended + "-"@ + text::decimal(ts_ms as nat),
                kind: "session_done"@,
                session_id: ended,
                summary: "session "@ + ended + " completed in "@ + text::decimal(steps as nat)
                    + " steps"@,
                outcome: "ok"@,
                ts_ms,
                important: false,
            }),
            AgentEventView::Error { error } => write matches Some(
                MemoryWrite::Episode { event: e },
            ) && e@ == (EpisodeView {
                id: "error-"@ + text::decimal(ts_ms as nat),
                kind: "agent_error"@,
                session_id: session_id@,
                summary: "agent error: "@ + error,
                outcome: "error"@,
                ts_ms,
                important: false,
            }),
            AgentEventView::Healing { attempt, error } => write matches Some(
                MemoryWrite::Episode { event: e },
            ) && e@ == (EpisodeView {
                id: "healing-"@ + text::decimal(ts_ms as nat) + "-"@ + text::decimal(
                    attempt as nat,
                ),
                kind: "healing"@,
                session_id: session_id@,
                summary: "recovered from failure (attempt "@ + text::decimal(attempt as nat)
                    + "): "@ + error,
                outcome: "healed"@,
                ts_ms,
                important: false,
            }),
            _ => write is None,
        },
{
}

/// Before the first request memory is asked who the user is, for the five latest corrections,
/// and for the five best entries on the hint in the other three layers.
pub proof fn lemma_asked_of_memory(
    hint: &str,
    queries: (MemoryQuery, MemoryQuery, MemoryQuery),
)
    requires
        call_ensures(recall::recall_queries, (hint,), queries),
    ensures
        queries.0@ == QueryView::UserProfile,
        queries.1@ == (QueryView::Corrections { limit: 5 }),
        queries.2@ matches QueryView::Search { query, layers, limit } && query == hint@ && limit
            == 5 && layers.len() == 3 && layers.contains(MemoryLayer::Procedural)
            && layers.contains(MemoryLayer::Episodic) && layers.contains(MemoryLayer::Semantic),
{
    if let QueryView::Search { query, layers, limit } = queries.2@ {
        assert(layers[0] == MemoryLayer::Procedural);
        assert(layers[1] == MemoryLayer::Episodic);
        assert(layers[2] == MemoryLayer::Semantic);
    }
}

/// What is recalled: first who the user is, where anything is known of that, then each
/// correction, then each entry that was found with its layer, in order.
pub proof fn lemma_recalled_lines(
    profile: Option<MemoryResult>,
    corrections: Option<MemoryResult>,
    found: Option<MemoryResult>,
    lines: Vec<String>,
)
    requires
        call_ensures(recall::recall_lines, (&profile, &corrections, &found), lines),
    ensures
        ({
            let c = match corrections {
                Some(MemoryResult::Hits { hits }) => protocol::hits_view(hits@),
                _ => Seq::<HitView>::empty(),
            };
            let f = match found {
                Some(MemoryResult::Hits { hits }) => protocol::hits_view(hits@),
                _ => Seq::<HitView>::empty(),
            };
            let head = recall::identity_lines(
                match profile {
                    Some(MemoryResult::Profile { profile }) => Some(profile@),
                    _ => None::<ProfileView>,
                },
            );
            let all = text::views(lines@);
            &&& all.len() == head.len() + c.len() + f.len()
            &&& head.len() <= 1
            &&& head.len() == 1 ==> all[0] == head[0]
            &&& forall|i: int|
                #![trigger c[i]]
                0 <= i < c.len() ==> all[head.len() + i] == "correction: "@ + recall::flat(
                    c[i].content,
                )
            &&& forall|i: int|
                #![trigger f[i]]
                0 <= i < f.len() ==> all[head.len() + c.len() + i] == (match f[i].layer {
                    MemoryLayer::Episodic => "Episodic"@,
                    MemoryLayer::Semantic => "Semantic"@,
                    MemoryLayer::Procedural => "Procedural"@,
                    MemoryLayer::Identity => "Identity"@,
                }) + ": "@ + recall::flat(f[i].content)
        }),
{
}

/// Who the user is: the name and the fields of expertise, as far as they are known.
pub proof fn lemma_who_the_user_is(p: ProfileView)
    ensures
        ({
            let lines = recall::identity_lines(Some(p));
            let skills = "expertise: "@ + text::joined(p.expertise, ", "@);
            &&& recall::identity_lines(None).len() == 0
            &&& p.display_name.len() == 0 && p.expertise.len() == 0 ==> lines.len() == 0
            &&& p.display_name.len() > 0 && p.expertise.len() == 0 ==> lines == seq![
                "identity — "@ + ("user is "@ + p.display_name),
            ]
            &&& p.display_name.len() == 0 && p.expertise.len() > 0 ==> lines == seq![
                "identity — "@ + skills,
            ]
            &&& p.display_name.len() > 0 && p.expertise.len() > 0 ==> lines == seq![
                "identity — "@ + ("user is "@ + p.display_name + "; "@ + skills),
            ]
        }),
{
    reveal_with_fuel(text::joined, 3);
    let skills = "expertise: "@ + text::joined(p.expertise, ", "@);
    let name = "user is "@ + p.display_name;
    if p.display_name.len() > 0 && p.expertise.len() > 0 {
        let two = seq![name].push(skills);
        assert(recall::who(p) == two);
        assert(two.drop_last() =~= seq![name]);
        assert(text::joined(two, "; "@) == text::joined(seq![name], "; "@) + "; "@ + skills);
        assert(text::joined(seq![name], "; "@) == name);
    } else if p.expertise.len() > 0 {
        assert(recall::who(p) =~= seq![skills]);
    }
}

proof fn lemma_flat_step(c: char, rest: Seq<char>)
    ensures
        recall::flat(seq![c] + rest) == seq![if c == '\n' { ' ' } else { c }] + recall::flat(rest),
{
    reveal_strlit("\n");
    reveal_strlit(" ");
    let t = seq![c] + rest;
    assert(t.drop_first() =~= rest);
    assert(t.skip(1) =~= rest);
    assert(t[0] == c);
    assert(t.subrange(0, 1) =~= seq![c]);
    assert("\n"@ =~= seq!['\n']);
    assert(" "@ =~= seq![' ']);
    if c == '\n' {
        assert(text::begins(t, "\n"@));
    } else {
        assert(t.subrange(0, 1)[0] != "\n"@[0]);
        assert(!text::begins(t, "\n"@));
    }
}

/// What is recalled stands on one line each: every line break in it becomes a blank, and
/// nothing else changes.
pub proof fn lemma_on_one_line(content: Seq<char>)
    ensures
        recall::flat(content).len() == content.len(),
        forall|i: int|
            0 <= i < content.len() ==> #[trigger] recall::flat(content)[i] == (if content[i]
                == '\n' {
                ' '
            } else {
                content[i]
            }),
    decreases content.len(),
{
    if content.len() > 0 {
        let rest = content.drop_first();
        lemma_on_one_line(rest);
        lemma_flat_step(content[0], rest);
        assert(seq![content[0]] + rest =~= content);
    }
}

/// What opens with a refusal, a wish or a rule corrects the agent, and nothing else does.
pub proof fn lemma_what_corrects(lower: Seq<char>)
    ensures
        recall::corrects(lower) <==> {
            ||| text::begins(lower, "no,"@)
            ||| text::begins(lower, "no "@)
            ||| text::begins(lower, "don't "@)
            ||| text::begins(lower, "do not "@)
            ||| text::begins(lower, "stop "@)
            ||| text::begins(lower, "actually,"@)
            ||| text::begins(lower, "actually "@)
            ||| text::begins(lower, "instead "@)
            ||| text::begins(lower, "i prefer "@)
            ||| text::begins(lower, "prefer "@)
            ||| text::begins(lower, "never "@)
            ||| text::begins(lower, "always "@)
            ||| text::begins(lower, "not like that"@)
            ||| text::begins(lower, "that's wrong"@)
            ||| text::begins(lower, "thats wrong"@)
            ||| text::begins(lower, "that is wrong"@)
            ||| text::begins(lower, "incorrect"@)
            ||| text::begins(lower, "you should"@)
        },
{
    let o = recall::openers();
    assert(o[0]@ == "no,"@ && o[1]@ == "no "@ && o[2]@ == "don't "@ && o[3]@ == "do not "@);
    assert(o[4]@ == "stop "@ && o[5]@ == "actually,"@ && o[6]@ == "actually "@);
    assert(o[7]@ == "instead "@ && o[8]@ == "i prefer "@ && o[9]@ == "prefer "@);
    assert(o[10]@ == "never "@ && o[11]@ == "always "@ && o[12]@ == "not like that"@);
    assert(o[13]@ == "that's wrong"@ && o[14]@ == "thats wrong"@ && o[15]@ == "that is wrong"@);
    assert(o[16]@ == "incorrect"@ && o[17]@ == "you should"@);
}

/// A correction is kept as the user said it, without the white space around it.
pub proof fn lemma_correction_is_what_was_said(said: Seq<char>, lower: Seq<char>)
    ensures
        match recall::correction(said, lower) {
            Some(c) => c == text::trimmed(said) && c.len() > 0 && recall::corrects(lower),
            None => text::trimmed(said).len() == 0 || !recall::corrects(lower),
        },
{
}

/// What the user says is taken as a correction exactly where it opens as one in lower case, and
/// is then kept as said, without the white space around it.
pub proof fn lemma_correction_is_heard(said: &str, heard: Option<String>)
    requires
        call_ensures(recall::detect_correction, (said,), heard),
    ensures
        text::ascii(said@) ==> (heard is Some <==> text::trimmed(said@).len() > 0
            && recall::corrects(text::ascii_lower(text::trimmed(said@)))),
        heard matches Some(c) ==> c@ == text::trimmed(said@),
{
}

} // verus!
