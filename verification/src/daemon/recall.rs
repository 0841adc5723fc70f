//! What the agent remembers for a request, and what it learns from a session.

use vstd::prelude::*;
use crate::agent::harness::AgentEvent;
use crate::agent::harness::AgentEventView;
use crate::memory::protocol;
use crate::memory::protocol::EpisodeEvent;
use crate::memory::protocol::EpisodeView;
use crate::memory::protocol::HitView;
use crate::memory::protocol::MemoryLayer;
use crate::memory::protocol::MemoryQuery;
use crate::memory::protocol::MemoryResult;
use crate::memory::protocol::MemoryWrite;
use crate::memory::protocol::ProfileView;
use crate::memory::wire::QueryView;
use crate::text;

verus! {

// ---------------------------------------------------------------------------
// Corrections
// ---------------------------------------------------------------------------

/// Words with which a correction of the agent opens.
pub open spec fn openers() -> Seq<&'static str> {
    seq![
        "no,", "no ", "don't ", "do not ", "stop ", "actually,", "actually ",
        "instead ", "i prefer ", "prefer ", "never ", "always ", "not like that",
        "that's wrong", "thats wrong", "that is wrong", "incorrect", "you should",
    ]
}

/// Whether a text in lower case corrects the agent: it opens with such words.
pub open spec fn corrects(lower: Seq<char>) -> bool {
    exists|i: int| 0 <= i < openers().len() && text::begins(lower, (#[trigger] openers()[i])@)
}

/// The correction in what the user said, where `lower` gives the lower case: all of it,
/// without white space around it.
pub open spec fn correction(said: Seq<char>, lower: Seq<char>) -> Option<Seq<char>> {
    if text::trimmed(said).len() > 0 && corrects(lower) {
        Some(text::trimmed(said))
    } else {
        None
    }
}

/// The correction in what the user said in ASCII.
pub open spec fn ascii_correction(said: Seq<char>) -> Option<Seq<char>> {
    correction(said, text::ascii_lower(text::trimmed(said)))
}

/// Whether a text in lower case corrects the agent.
pub fn is_correction(lower: &str) -> (r: bool)
    ensures
        r == corrects(lower@),
{
    let list: Vec<&'static str> = vec![
        "no,", "no ", "don't ", "do not ", "stop ", "actually,", "actually ",
        "instead ", "i prefer ", "prefer ", "never ", "always ", "not like that",
        "that's wrong", "thats wrong", "that is wrong", "incorrect", "you should",
    ];
    assert(list@ =~= openers());
    let mut i: usize = 0;
    while i < list.len()
        invariant
            i <= list.len(),
            list@ == openers(),
            forall|k: int|
                0 <= k < i ==> !text::begins(lower@, (#[trigger] openers()[k])@),
        decreases list.len() - i,
    {
        assert(list@[i as int] == openers()[i as int]);
        if text::starts_with(lower, list[i]) {
            return true;
        }
        i += 1;
    }
    false
}

/// The correction in what the user said, if it is one: all of it, without white space around
/// it.
pub fn detect_correction(said: &str) -> (correction: Option<String>)
    ensures
        text::opt_view(correction) == self::correction(
            said@,
            text::lowercase(text::trimmed(said@)),
        ),
        text::ascii(said@) ==> text::opt_view(correction) == ascii_correction(said@),
{
    let t = text::trim(said);
    if t.as_str().is_empty() {
        return None;
    }
    proof {
        if text::ascii(said@) {
            text::lemma_trimmed_ascii(said@);
        }
    }
    let lower = text::to_lower(t.as_str());
    if is_correction(lower.as_str()) {
        Some(t)
    } else {
        None
    }
}

/// A correction is all that was said, without white space around it. Whether something is
/// one depends neither on its case nor on white space around it, and what opens with such
/// words, in any case, is one.
pub proof fn lemma_case_does_not_matter(said: Seq<char>)
    requires
        text::ascii(said),
    ensures
        ascii_correction(said) matches Some(c) ==> c == text::trimmed(said),
        text::trimmed(said).len() == 0 ==> ascii_correction(said) is None,
        ascii_correction(text::trimmed(said)) == ascii_correction(said),
        ascii_correction(text::ascii_upper(said)) is Some <==> ascii_correction(said) is Some,
        forall|i: int|
            0 <= i < openers().len() && text::begins(
                text::ascii_lower(text::trimmed(said)),
                (#[trigger] openers()[i])@,
            ) && text::trimmed(said).len() > 0 ==> ascii_correction(said) is Some,
{
    text::lemma_trimmed_once(said);
    text::lemma_upper_case(said);
    text::lemma_upper_case(text::trimmed(said));
}

// ---------------------------------------------------------------------------
// Reflection
// ---------------------------------------------------------------------------

/// What is remembered of an event of the agent: that a session ended, an error, and a failure
/// that was recovered from.
pub open spec fn reflection(event: AgentEventView, session_id: Seq<char>, ts_ms: u64) -> Option<
    EpisodeView,
> {
    match event {
        AgentEventView::Done { session_id: ended, steps } => Some(
            EpisodeView {
                id: "session-"@ + ended + "-"@ + text::decimal(ts_ms as nat),
                kind: "session_done"@,
                session_id: ended,
                summary: "session "@ + ended + " completed in "@ + text::decimal(steps as nat)
                    + " steps"@,
                outcome: "ok"@,
                ts_ms,
                important: false,
            },
        ),
        AgentEventView::Error { error } => Some(
            EpisodeView {
                id: "error-"@ + text::decimal(ts_ms as nat),
                kind: "agent_error"@,
                session_id,
                summary: "agent error: "@ + error,
                outcome: "error"@,
                ts_ms,
                important: false,
            },
        ),
        AgentEventView::Healing { attempt, error } => Some(
            EpisodeView {
                id: "healing-"@ + text::decimal(ts_ms as nat) + "-"@ + text::decimal(
                    attempt as nat,
                ),
                kind: "healing"@,
                session_id,
                summary: "recovered from failure (attempt "@ + text::decimal(attempt as nat)
                    + "): "@ + error,
                outcome: "healed"@,
                ts_ms,
                important: false,
            },
        ),
        _ => None,
    }
}

/// What is written to memory for an event of the agent.
pub fn reflection_write(event: &AgentEvent, session_id: &str, ts_ms: u64) -> (write: Option<
    MemoryWrite,
>)
    ensures
        match write {
            Some(w) => w matches MemoryWrite::Episode { event: e } && reflection(
                event@,
                session_id@,
                ts_ms,
            ) == Some(e@),
            None => reflection(event@, session_id@, ts_ms) is None,
        },
{
    let episode = match event {
        AgentEvent::Done { session_id: ended, steps } => {
            let mut id = "session-".to_string();
            id.append(ended.as_str());
            id.append("-");
            id.append(text::decimal_text(ts_ms).as_str());
            let mut summary = "session ".to_string();
            summary.append(ended.as_str());
            summary.append(" completed in ");
            summary.append(text::decimal_text(*steps as u64).as_str());
            summary.append(" steps");
            EpisodeEvent {
                id,
                kind: "session_done".to_string(),
                session_id: ended.clone(),
                summary,
                outcome: "ok".to_string(),
                ts_ms,
                important: false,
            }
        },
        AgentEvent::Error { error } => EpisodeEvent {
            id: "error-".to_string().concat(text::decimal_text(ts_ms).as_str()),
            kind: "agent_error".to_string(),
            session_id: session_id.to_string(),
            summary: "agent error: ".to_string().concat(error.as_str()),
            outcome: "error".to_string(),
            ts_ms,
            important: false,
        },
        AgentEvent::Healing { attempt, error } => {
            let mut id = "healing-".to_string();
            id.append(text::decimal_text(ts_ms).as_str());
            id.append("-");
            id.append(text::decimal_text(*attempt as u64).as_str());
            let mut summary = "recovered from failure (attempt ".to_string();
            summary.append(text::decimal_text(*attempt as u64).as_str());
            summary.append("): ");
            summary.append(error.as_str());
            EpisodeEvent {
                id,
                kind: "healing".to_string(),
                session_id: session_id.to_string(),
                summary,
                outcome: "healed".to_string(),
                ts_ms,
                important: false,
            }
        },
        _ => {
            return None;
        },
    };
    Some(MemoryWrite::Episode { event: episode })
}

// ---------------------------------------------------------------------------
// Recall
// ---------------------------------------------------------------------------

/// What memory is asked for a request, beside the profile: standing corrections, and what is
/// relevant.
pub fn recall_queries(hint: &str) -> (queries: (MemoryQuery, MemoryQuery, MemoryQuery))
    ensures
        queries.0@ == QueryView::UserProfile,
        queries.1@ == (QueryView::Corrections { limit: 5 }),
        queries.2@ == (QueryView::Search {
            query: hint@,
            layers: seq![
                MemoryLayer::Procedural,
                MemoryLayer::Episodic,
                MemoryLayer::Semantic,
            ],
            limit: 5,
        }),
{
    let mut layers: Vec<MemoryLayer> = Vec::new();
    layers.push(MemoryLayer::Procedural);
    layers.push(MemoryLayer::Episodic);
    layers.push(MemoryLayer::Semantic);
    assert(layers@ =~= seq![
        MemoryLayer::Procedural,
        MemoryLayer::Episodic,
        MemoryLayer::Semantic,
    ]);
    (
        MemoryQuery::UserProfile,
        MemoryQuery::Corrections { limit: 5 },
        MemoryQuery::Search { query: hint.to_string(), layers, limit: 5 },
    )
}

/// What is known of the user, in parts.
pub open spec fn who(p: ProfileView) -> Seq<Seq<char>> {
    let name = if p.display_name.len() > 0 {
        seq!["user is "@ + p.display_name]
    } else {
        Seq::empty()
    };
    if p.expertise.len() > 0 {
        name.push("expertise: "@ + text::joined(p.expertise, ", "@))
    } else {
        name
    }
}

/// The line on the user, where anything is known.
pub open spec fn identity_lines(profile: Option<ProfileView>) -> Seq<Seq<char>> {
    match profile {
        Some(p) => if who(p).len() > 0 {
            seq!["identity — "@ + text::joined(who(p), "; "@)]
        } else {
            Seq::empty()
        },
        None => Seq::empty(),
    }
}

/// A text on one line.
pub open spec fn flat(content: Seq<char>) -> Seq<char> {
    text::replaced(content, "\n"@, " "@)
}

/// The lines on corrections.
pub open spec fn correction_lines(hits: Seq<HitView>) -> Seq<Seq<char>> {
    Seq::new(hits.len(), |i: int| "correction: "@ + flat(hits[i].content))
}

/// The lines on what is relevant.
pub open spec fn found_lines(hits: Seq<HitView>) -> Seq<Seq<char>> {
    Seq::new(hits.len(), |i: int| hits[i].layer.title() + ": "@ + flat(hits[i].content))
}

/// The profile that memory gave, if it gave one.
pub open spec fn profile_of(reply: Option<MemoryResult>) -> Option<ProfileView> {
    match reply {
        Some(MemoryResult::Profile { profile }) => Some(profile@),
        _ => None,
    }
}

/// The hits that memory gave, none where it did not answer with hits.
pub open spec fn hits_of(reply: Option<MemoryResult>) -> Seq<HitView> {
    match reply {
        Some(MemoryResult::Hits { hits }) => protocol::hits_view(hits@),
        _ => Seq::empty(),
    }
}

/// A text on one line.
pub fn flat_text(content: &str) -> (line: String)
    ensures
        line@ == flat(content@),
{
    proof {
        reveal_strlit("\n");
    }
    text::replace(content, "\n", " ")
}

fn push_line(lines: &mut Vec<String>, line: String)
    ensures
        text::views(final(lines)@) == text::views(old(lines)@).push(line@),
{
    proof {
        text::lemma_views_push(lines@, line);
    }
    lines.push(line);
}

/// What is recalled for a request, from what memory answered: who the user is, standing
/// corrections, and what is relevant. Where memory does not answer, nothing is recalled.
pub fn recall_lines(
    profile: &Option<MemoryResult>,
    corrections: &Option<MemoryResult>,
    found: &Option<MemoryResult>,
) -> (lines: Vec<String>)
    ensures
        text::views(lines@) == identity_lines(profile_of(*profile)) + correction_lines(hits_of(*corrections)) + found_lines(hits_of(*found)),
{
    let mut lines: Vec<String> = Vec::new();
    assert(text::views(lines@) =~= Seq::<Seq<char>>::empty());
    if let Some(MemoryResult::Profile { profile: p }) = profile {
        let mut parts: Vec<String> = Vec::new();
        assert(text::views(parts@) =~= Seq::<Seq<char>>::empty());
        if !p.display_name.as_str().is_empty() {
            push_line(&mut parts, "user is ".to_string().concat(p.display_name.as_str()));
            assert(text::views(parts@) =~= seq!["user is "@ + p@.display_name]);
        }
        if p.expertise.len() > 0 {
            let areas = text::join(&p.expertise, ", ");
            push_line(&mut parts, "expertise: ".to_string().concat(areas.as_str()));
        }
        assert(text::views(parts@) =~= who(p@));
        assert(who(p@).len() == parts.len());
        if parts.len() > 0 {
            let all = text::join(&parts, "; ");
            push_line(&mut lines, "identity — ".to_string().concat(all.as_str()));
        }
    }
    let ghost identity = text::views(lines@);
    assert(identity =~= identity_lines(profile_of(*profile)));
    if let Some(MemoryResult::Hits { hits }) = corrections {
        let ghost all = correction_lines(protocol::hits_view(hits@));
        let mut i: usize = 0;
        assert(identity + all.take(0) =~= identity);
        while i < hits.len()
            invariant
                i <= hits.len(),
                all == correction_lines(protocol::hits_view(hits@)),
                text::views(lines@) == identity + all.take(i as int),
            decreases hits.len() - i,
        {
            let line = "correction: ".to_string().concat(
                flat_text(hits[i].content.as_str()).as_str(),
            );
            assert(line@ == all[i as int]);
            push_line(&mut lines, line);
            i += 1;
            assert(identity + all.take(i as int) =~= (identity + all.take(i - 1)).push(
                all[i - 1],
            ));
        }
        assert(all.take(i as int) =~= all);
    }
    let ghost head = text::views(lines@);
    assert(head =~= identity + correction_lines(hits_of(*corrections)));
    if let Some(MemoryResult::Hits { hits }) = found {
        let ghost all = found_lines(protocol::hits_view(hits@));
        let mut i: usize = 0;
        assert(head + all.take(0) =~= head);
        while i < hits.len()
            invariant
                i <= hits.len(),
                all == found_lines(protocol::hits_view(hits@)),
                text::views(lines@) == head + all.take(i as int),
            decreases hits.len() - i,
        {
            let mut line = hits[i].layer.title_text().to_string();
            line.append(": ");
            line.append(flat_text(hits[i].content.as_str()).as_str());
            assert(line@ == all[i as int]);
            push_line(&mut lines, line);
            i += 1;
            assert(head + all.take(i as int) =~= (head + all.take(i - 1)).push(all[i - 1]));
        }
        assert(all.take(i as int) =~= all);
    }
    assert(text::views(lines@) =~= head + found_lines(hits_of(*found)));
    lines
}

} // verus!
