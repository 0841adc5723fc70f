//! What memory keeps: what each write leaves behind, and what recent entries, corrections,
//! retention, deletion and import give.

use vstd::prelude::*;
use crate::memory::laws;
use crate::memory::protocol;
use crate::memory::protocol::EpisodeView;
use crate::memory::protocol::FactView;
use crate::memory::protocol::HitView;
use crate::memory::protocol::MemoryHit;
use crate::memory::protocol::MemoryLayer;
use crate::memory::protocol::MemoryQuery;
use crate::memory::protocol::MemoryResult;
use crate::memory::protocol::MemoryWrite;
use crate::memory::protocol::ProceduralEntry;
use crate::memory::protocol::ProceduralView;
use crate::memory::protocol::ResultView;
use crate::memory::protocol::Score;
use crate::memory::protocol::SemanticFact;
use crate::memory::protocol::SnapshotView;
use crate::memory::protocol::UserProfile;
use crate::memory::recall_laws;
use crate::memory::store;
use crate::memory::store::DayView;
use crate::memory::store::LineView;
use crate::memory::store::MemoryStore;
use crate::memory::store::StoreView;
use crate::sort;
use crate::sort::Rank;
use crate::sorted_map;
use crate::text;

verus! {

// ---------------------------------------------------------------------------
// Writing
// ---------------------------------------------------------------------------

/// A fact that is written stands under its id as it was given, in place of any before, and
/// nothing else changes.
pub proof fn lemma_fact_is_kept(s: StoreView, w: MemoryWrite)
    requires
        sorted_map::ascending(s.facts),
        w is Semantic,
    ensures
        w matches MemoryWrite::Semantic { id, topic, content, ts_ms } ==> {
            let t = store::written(s, w);
            &&& sorted_map::as_map(t.facts) == sorted_map::as_map(s.facts).insert(
                id@,
                FactView { id: id@, topic: topic@, content: content@, updated_ms: ts_ms },
            )
            &&& t.procedural == s.procedural
            &&& t.days == s.days
            &&& t.profile == s.profile
        },
{
    if let MemoryWrite::Semantic { id, topic, content, ts_ms } = w {
        sorted_map::lemma_put(
            s.facts,
            id@,
            FactView { id: id@, topic: topic@, content: content@, updated_ms: ts_ms },
        );
    }
}

/// A procedure that is written stands under its key with its content, no correction and of no
/// time, its confidence held between zero and one, and nothing else changes.
pub proof fn lemma_procedure_is_kept(s: StoreView, w: MemoryWrite)
    requires
        sorted_map::ascending(s.procedural),
        w is Procedural,
    ensures
        w matches MemoryWrite::Procedural { key, content, confidence } ==> {
            let t = store::written(s, w);
            let map = sorted_map::as_map(t.procedural);
            &&& map == sorted_map::as_map(s.procedural).insert(key@, map[key@])
            &&& map[key@].key == key@
            &&& map[key@].content == content@
            &&& !map[key@].correction
            &&& map[key@].updated_ms == 0
            &&& confidence <= 0x3f80_0000 ==> map[key@].confidence == confidence
            &&& 0x3f80_0000 < confidence <= 0x7f80_0000 ==> map[key@].confidence == 0x3f80_0000
            &&& 0x8000_0000 < confidence <= 0xff80_0000 ==> map[key@].confidence == 0
            &&& t.facts == s.facts
            &&& t.days == s.days
            &&& t.profile == s.profile
        },
{
    if let MemoryWrite::Procedural { key, content, confidence } = w {
        sorted_map::lemma_put(
            s.procedural,
            key@,
            ProceduralView {
                key: key@,
                content: content@,
                confidence: protocol::clamped(confidence),
                updated_ms: 0,
                correction: false,
            },
        );
    }
}

/// A correction by the user is kept as one, under a key of its time, with full confidence and
/// with what the user said, followed by its context where there is one. Nothing else changes.
pub proof fn lemma_correction_is_kept(s: StoreView, w: MemoryWrite)
    requires
        sorted_map::ascending(s.procedural),
        w is UserCorrection,
    ensures
        w matches MemoryWrite::UserCorrection { correction, context, ts_ms } ==> {
            let t = store::written(s, w);
            let key = "correction:"@ + text::decimal(ts_ms as nat);
            &&& sorted_map::as_map(t.procedural) == sorted_map::as_map(s.procedural).insert(
                key,
                ProceduralView {
                    key,
                    content: if context@.len() == 0 {
                        correction@
                    } else {
                        correction@ + "\n(context: "@ + context@ + ")"@
                    },
                    confidence: 0x3f80_0000,
                    updated_ms: ts_ms,
                    correction: true,
                },
            )
            &&& t.facts == s.facts
            &&& t.days == s.days
            &&& t.profile == s.profile
        },
{
    if let MemoryWrite::UserCorrection { correction, context, ts_ms } = w {
        let key = "correction:"@ + text::decimal(ts_ms as nat);
        sorted_map::lemma_put(
            s.procedural,
            key,
            ProceduralView {
                key,
                content: store::correction_text(correction@, context@),
                confidence: 0x3f80_0000,
                updated_ms: ts_ms,
                correction: true,
            },
        );
    }
}

/// An event that is written is one event more, as it was given, and no other is lost. It
/// stands on the last line of the file of its day, and nothing else changes.
pub proof fn lemma_event_is_kept(s: StoreView, w: MemoryWrite)
    requires
        w is Episode,
    ensures
        w matches MemoryWrite::Episode { event } ==> {
            let t = store::written(s, w);
            let name = "day-"@ + text::decimal((event.ts_ms / 86_400_000) as nat) + ".jsonl"@;
            &&& exists|at: int|
                0 <= at <= store::episodes(s.days).len() && store::episodes(t.days)
                    == #[trigger] store::episodes(s.days).insert(at, event@)
            &&& exists|i: int|
                {
                    &&& 0 <= i < t.days.len()
                    &&& (#[trigger] t.days[i]).name == name
                    &&& t.days[i].lines.len() > 0
                    &&& t.days[i].lines.last().event == Some(event@)
                }
            &&& t.facts == s.facts
            &&& t.procedural == s.procedural
            &&& t.profile == s.profile
        },
{
    if let MemoryWrite::Episode { event } = w {
        let name = store::day_name(event.ts_ms);
        let line = store::event_line(event@);
        let at = laws::lemma_append_keeps(s.days, name, line);
        assert(store::episodes(store::written(s, w).days) == store::episodes(s.days).insert(
            at as int,
            event@,
        ));
        lemma_line_stands(s.days, name, line);
    }
}

proof fn lemma_line_stands(days: Seq<DayView>, name: Seq<char>, line: LineView)
    ensures
        exists|i: int|
            {
                let now = store::with_line(days, name, line);
                &&& 0 <= i < now.len()
                &&& (#[trigger] store::with_line(days, name, line)[i]).name == name
                &&& now[i].lines.len() > 0
                &&& now[i].lines.last() == line
            },
    decreases days.len(),
{
    let now = store::with_line(days, name, line);
    if days.len() == 0 || days[0].name == name {
        assert(now[0].name == name);
        assert(now[0].lines.last() == line);
    } else {
        let rest = days.drop_first();
        lemma_line_stands(rest, name, line);
        let i = choose|i: int|
            {
                let then = store::with_line(rest, name, line);
                &&& 0 <= i < then.len()
                &&& (#[trigger] store::with_line(rest, name, line)[i]).name == name
                &&& then[i].lines.len() > 0
                &&& then[i].lines.last() == line
            };
        assert(now[i + 1] == store::with_line(rest, name, line)[i]);
    }
}

/// A profile that is written is the profile, and nothing else changes.
pub proof fn lemma_profile_is_kept(s: StoreView, w: MemoryWrite)
    requires
        w is Profile,
    ensures
        w matches MemoryWrite::Profile { profile } ==> store::written(s, w) == (StoreView {
            profile: profile@,
            ..s
        }),
{
}

/// The line of an event is the JSON object of its fields.
pub proof fn lemma_event_line(event: EpisodeView)
    ensures
        store::event_line(event).event == Some(event),
        store::event_line(event).text == "{\"id\":"@ + crate::json::written(
            crate::json::JsonView::Text(event.id),
        ) + ",\"kind\":"@ + crate::json::written(crate::json::JsonView::Text(event.kind))
            + ",\"session_id\":"@ + crate::json::written(
            crate::json::JsonView::Text(event.session_id),
        ) + ",\"summary\":"@ + crate::json::written(crate::json::JsonView::Text(event.summary))
            + ",\"outcome\":"@ + crate::json::written(crate::json::JsonView::Text(event.outcome))
            + ",\"ts_ms\":"@ + text::decimal(event.ts_ms as nat) + ",\"important\":"@ + (
        if event.important {
            "true"@
        } else {
            "false"@
        }) + "}"@,
{
}

// ---------------------------------------------------------------------------
// Reading
// ---------------------------------------------------------------------------

/// Every event on a line is read, and what is read stands on a line. Events of earlier files
/// come first.
pub proof fn lemma_events_are_read(days: Seq<DayView>, more: Seq<DayView>)
    ensures
        forall|i: int, j: int|
            0 <= i < days.len() && 0 <= j < days[i].lines.len() ==> ((
            #[trigger] days[i].lines[j]).event matches Some(e) ==> store::episodes(days).contains(
                e,
            )),
        forall|k: int|
            0 <= k < store::episodes(days).len() ==> exists|i: int, j: int|
                0 <= i < days.len() && 0 <= j < days[i].lines.len() && (
                #[trigger] days[i].lines[j]).event == Some(#[trigger] store::episodes(days)[k]),
        store::episodes(days + more) == store::episodes(days) + store::episodes(more),
    decreases days.len(), more.len(),
{
    if more.len() == 0 {
        assert(days + more =~= days);
        assert(store::episodes(days) + store::episodes(more) =~= store::episodes(days));
    } else {
        lemma_events_are_read(days, more.drop_last());
        assert((days + more).drop_last() =~= days + more.drop_last());
        assert(store::episodes(days + more) =~= store::episodes(days) + store::episodes(more));
    }
    if days.len() > 0 {
        let rest = days.drop_last();
        let n = days.len() - 1;
        lemma_events_are_read(rest, Seq::empty());
        lemma_lines_are_read(days[n].lines);
        let all = store::episodes(days);
        let early = store::episodes(rest);
        let late = store::line_events(days[n].lines);
        assert forall|i: int, j: int|
            0 <= i < days.len() && 0 <= j < days[i].lines.len() implies ((
        #[trigger] days[i].lines[j]).event matches Some(e) ==> all.contains(e)) by {
            if days[i].lines[j].event is Some {
                let e = days[i].lines[j].event->0;
                if i < n {
                    assert(rest[i].lines[j].event == Some(e));
                    let k = early.index_of(e);
                    assert(all[k] == e);
                } else {
                    let k = late.index_of(e);
                    assert(all[early.len() + k] == e);
                }
            }
        }
        assert forall|k: int| 0 <= k < all.len() implies exists|i: int, j: int|
            0 <= i < days.len() && 0 <= j < days[i].lines.len() && (
            #[trigger] days[i].lines[j]).event == Some(#[trigger] all[k]) by {
            if k < early.len() {
                assert(all[k] == early[k]);
                let (i, j) = choose|i: int, j: int|
                    0 <= i < rest.len() && 0 <= j < rest[i].lines.len() && (
                    #[trigger] rest[i].lines[j]).event == Some(early[k]);
                assert(days[i].lines[j] == rest[i].lines[j]);
            } else {
                let m = k - early.len();
                assert(all[k] == late[m]);
                let j = choose|j: int|
                    0 <= j < days[n].lines.len() && (#[trigger] days[n].lines[j]).event == Some(
                        late[m],
                    );
                assert(days[n].lines[j].event == Some(all[k]));
            }
        }
    }
}

proof fn lemma_lines_are_read(lines: Seq<LineView>)
    ensures
        forall|j: int|
            0 <= j < lines.len() ==> ((#[trigger] lines[j]).event matches Some(e)
                ==> store::line_events(lines).contains(e)),
        forall|k: int|
            0 <= k < store::line_events(lines).len() ==> exists|j: int|
                0 <= j < lines.len() && (#[trigger] lines[j]).event == Some(
                    #[trigger] store::line_events(lines)[k],
                ),
    decreases lines.len(),
{
    if lines.len() > 0 {
        let rest = lines.drop_last();
        lemma_lines_are_read(rest);
        let all = store::line_events(lines);
        let early = store::line_events(rest);
        assert forall|j: int| 0 <= j < lines.len() implies ((#[trigger] lines[j]).event matches Some(
            e,
        ) ==> all.contains(e)) by {
            if lines[j].event is Some {
                let e = lines[j].event->0;
                if j < rest.len() {
                    assert(rest[j].event == Some(e));
                    let k = early.index_of(e);
                    assert(all[k] == e);
                } else {
                    assert(all.last() == e);
                }
            }
        }
        assert forall|k: int| 0 <= k < all.len() implies exists|j: int|
            0 <= j < lines.len() && (#[trigger] lines[j]).event == Some(#[trigger] all[k]) by {
            if k < early.len() {
                assert(all[k] == early[k]);
                let j = choose|j: int|
                    0 <= j < rest.len() && (#[trigger] rest[j]).event == Some(early[k]);
                assert(lines[j].event == Some(all[k]));
            } else {
                assert(lines[lines.len() - 1].event == Some(all[k]));
            }
        }
    }
}

/// The lines of a file that are read are those with something on them, in order.
pub proof fn lemma_blank_lines_go(lines: Seq<Seq<char>>)
    ensures
        store::nonblank(lines) == lines.filter(|l: Seq<char>| text::trimmed(l).len() > 0),
    decreases lines.len(),
{
    reveal(Seq::filter);
    if lines.len() > 0 {
        lemma_blank_lines_go(lines.drop_last());
    }
}

/// How a recent entry is shown: with its own id, content and time, and with full score.
pub open spec fn recent_of(
    layer: MemoryLayer,
    id: Seq<char>,
    content: Seq<char>,
    ts_ms: u64,
    since_ms: u64,
) -> Option<HitView> {
    if ts_ms >= since_ms {
        Some(HitView { layer, id, score: Score::Full, content, ts_ms })
    } else {
        None
    }
}

proof fn lemma_recent_events(events: Seq<EpisodeView>, since_ms: u64)
    ensures
        store::recent_episodes(events, since_ms) == recall_laws::picked(
            events,
            |e: EpisodeView|
                timed(recent_of(MemoryLayer::Episodic, e.id, e.summary, e.ts_ms, since_ms)),
        ),
    decreases events.len(),
{
    if events.len() > 0 {
        lemma_recent_events(events.drop_last(), since_ms);
    }
}

proof fn lemma_recent_procedures(entries: Seq<(Seq<char>, ProceduralView)>, since_ms: u64)
    ensures
        store::recent_procedural(entries, since_ms) == recall_laws::picked(
            entries,
            |e: (Seq<char>, ProceduralView)|
                timed(
                    recent_of(
                        MemoryLayer::Procedural,
                        e.1.key,
                        e.1.content,
                        e.1.updated_ms,
                        since_ms,
                    ),
                ),
        ),
    decreases entries.len(),
{
    if entries.len() > 0 {
        lemma_recent_procedures(entries.drop_last(), since_ms);
    }
}

proof fn lemma_recent_facts(entries: Seq<(Seq<char>, FactView)>, since_ms: u64)
    ensures
        store::recent_facts(entries, since_ms) == recall_laws::picked(
            entries,
            |e: (Seq<char>, FactView)|
                timed(
                    recent_of(
                        MemoryLayer::Semantic,
                        e.1.id,
                        e.1.content,
                        e.1.updated_ms,
                        since_ms,
                    ),
                ),
        ),
    decreases entries.len(),
{
    if entries.len() > 0 {
        lemma_recent_facts(entries.drop_last(), since_ms);
    }
}

spec fn timed(hit: Option<HitView>) -> Option<(Rank, HitView)> {
    match hit {
        Some(h) => Some((Rank { first: 0, second: h.ts_ms }, h)),
        None => None,
    }
}

proof fn lemma_by_time(all: Seq<(Rank, HitView)>, limit: nat)
    requires
        forall|i: int|
            0 <= i < all.len() ==> (#[trigger] all[i]).0 == (Rank {
                first: 0,
                second: all[i].1.ts_ms,
            }),
    ensures
        ({
            let hits = sort::top(all, limit);
            &&& hits.len() == (if all.len() <= limit { all.len() } else { limit })
            &&& forall|i: int|
                0 <= i < all.len() ==> latest_shown(hits, (#[trigger] all[i]).1, limit)
            &&& forall|k: int|
                0 <= k < hits.len() ==> exists|i: int|
                    0 <= i < all.len() && (#[trigger] all[i]).1 == #[trigger] hits[k]
            &&& forall|i: int, j: int|
                0 <= i < j < hits.len() ==> (#[trigger] hits[i]).ts_ms >= (
                #[trigger] hits[j]).ts_ms
        }),
{
    let hits = sort::top(all, limit);
    let sorted = sort::in_ranks(all);
    sort::lemma_top(all, limit);
    sort::lemma_in_ranks(all);
    let places = sort::lemma_places(all);
    assert forall|i: int| 0 <= i < all.len() implies latest_shown(
        hits,
        (#[trigger] all[i]).1,
        limit,
    ) by {
        assert(places.contains(i));
        let j = places.index_of(i);
        if j < hits.len() {
            assert(hits[j] == sorted[j].1);
            assert(hits.contains(all[i].1));
        } else {
            assert forall|k: int| 0 <= k < hits.len() implies (#[trigger] hits[k]).ts_ms
                >= all[i].1.ts_ms by {
                assert(sort::leads(all, places[k], places[j]));
                assert(hits[k] == sorted[k].1);
            }
        }
    }
    assert forall|k: int| 0 <= k < hits.len() implies exists|i: int|
        0 <= i < all.len() && (#[trigger] all[i]).1 == #[trigger] hits[k] by {
        assert(hits[k] == sorted[k].1);
        assert(all[places[k]].1 == hits[k]);
    }
    assert forall|i: int, j: int| 0 <= i < j < hits.len() implies (#[trigger] hits[i]).ts_ms >= (
    #[trigger] hits[j]).ts_ms by {
        assert(hits[i] == sorted[i].1 && hits[j] == sorted[j].1);
        assert(sort::leads(all, places[i], places[j]));
    }
}

/// Whether a hit is shown, or as many as asked for are shown of which none is older.
pub open spec fn latest_shown(hits: Seq<HitView>, hit: HitView, limit: nat) -> bool {
    hits.contains(hit) || (hits.len() == limit && forall|k: int|
        0 <= k < hits.len() ==> (#[trigger] hits[k]).ts_ms >= hit.ts_ms)
}

/// Every entry of the layers asked for whose time is `since_ms` or later is among the recent
/// ones, with its own id, content and time. None is older, and the latest comes first.
pub proof fn lemma_recent(s: StoreView, since_ms: u64, layers: Seq<MemoryLayer>)
    ensures
        ({
            let hits = store::recent_view(s, since_ms, layers);
            let events = store::episodes(s.days);
            &&& recall_laws::asked(layers, MemoryLayer::Episodic) ==> forall|i: int|
                0 <= i < events.len() ==> (recent_of(
                    MemoryLayer::Episodic,
                    (#[trigger] events[i]).id,
                    events[i].summary,
                    events[i].ts_ms,
                    since_ms,
                ) matches Some(hit) ==> hits.contains(hit))
            &&& recall_laws::asked(layers, MemoryLayer::Procedural) ==> forall|i: int|
                0 <= i < s.procedural.len() ==> (recent_of(
                    MemoryLayer::Procedural,
                    (#[trigger] s.procedural[i]).1.key,
                    s.procedural[i].1.content,
                    s.procedural[i].1.updated_ms,
                    since_ms,
                ) matches Some(hit) ==> hits.contains(hit))
            &&& recall_laws::asked(layers, MemoryLayer::Semantic) ==> forall|i: int|
                0 <= i < s.facts.len() ==> (recent_of(
                    MemoryLayer::Semantic,
                    (#[trigger] s.facts[i]).1.id,
                    s.facts[i].1.content,
                    s.facts[i].1.updated_ms,
                    since_ms,
                ) matches Some(hit) ==> hits.contains(hit))
            &&& forall|k: int|
                0 <= k < hits.len() ==> (#[trigger] hits[k]).ts_ms >= since_ms && hits[k].layer
                    != MemoryLayer::Identity && recall_laws::asked(layers, hits[k].layer)
            &&& forall|i: int, j: int|
                0 <= i < j < hits.len() ==> (#[trigger] hits[i]).ts_ms >= (
                #[trigger] hits[j]).ts_ms
        }),
{
    let hits = store::recent_view(s, since_ms, layers);
    let events = store::episodes(s.days);
    let fe = |e: EpisodeView|
        timed(recent_of(MemoryLayer::Episodic, e.id, e.summary, e.ts_ms, since_ms));
    let fp = |e: (Seq<char>, ProceduralView)|
        timed(
            recent_of(MemoryLayer::Procedural, e.1.key, e.1.content, e.1.updated_ms, since_ms),
        );
    let ff = |e: (Seq<char>, FactView)|
        timed(recent_of(MemoryLayer::Semantic, e.1.id, e.1.content, e.1.updated_ms, since_ms));
    lemma_recent_events(events, since_ms);
    lemma_recent_procedures(s.procedural, since_ms);
    lemma_recent_facts(s.facts, since_ms);
    recall_laws::lemma_picked(events, fe);
    recall_laws::lemma_picked(s.procedural, fp);
    recall_laws::lemma_picked(s.facts, ff);
    let a = store::if_asked(
        layers,
        MemoryLayer::Episodic,
        store::recent_episodes(events, since_ms),
    );
    let b = store::if_asked(
        layers,
        MemoryLayer::Procedural,
        store::recent_procedural(s.procedural, since_ms),
    );
    let c = store::if_asked(layers, MemoryLayer::Semantic, store::recent_facts(s.facts, since_ms));
    let all = store::all_recent(s, since_ms, layers);
    assert(all == a + b + c);
    assert forall|i: int| 0 <= i < all.len() implies (#[trigger] all[i]).0 == (Rank {
        first: 0,
        second: all[i].1.ts_ms,
    }) && all[i].1.ts_ms >= since_ms && all[i].1.layer != MemoryLayer::Identity
        && recall_laws::asked(layers, all[i].1.layer) by {
        if i < a.len() {
            assert(all[i] == a[i]);
        } else if i < a.len() + b.len() {
            assert(all[i] == b[i - a.len()]);
        } else {
            assert(all[i] == c[i - a.len() - b.len()]);
        }
    }
    lemma_by_time(all, all.len());
    sort::lemma_in_ranks(all);
    assert(hits == sort::top(all, all.len()));
    let places = sort::lemma_places(all);
    assert forall|i: int| 0 <= i < all.len() implies hits.contains((#[trigger] all[i]).1) by {
        assert(places.contains(i));
        let j = places.index_of(i);
        assert(hits[j] == all[i].1);
    }
    assert forall|i: int| 0 <= i < a.len() implies hits.contains((#[trigger] a[i]).1) by {
        assert(all[i] == a[i]);
    }
    assert forall|i: int| 0 <= i < b.len() implies hits.contains((#[trigger] b[i]).1) by {
        assert(all[a.len() + i] == b[i]);
    }
    assert forall|i: int| 0 <= i < c.len() implies hits.contains((#[trigger] c[i]).1) by {
        assert(all[a.len() + b.len() + i] == c[i]);
    }
    assert forall|i: int|
        0 <= i < events.len() && recall_laws::asked(layers, MemoryLayer::Episodic) implies (
    recent_of(
        MemoryLayer::Episodic,
        (#[trigger] events[i]).id,
        events[i].summary,
        events[i].ts_ms,
        since_ms,
    ) matches Some(hit) ==> hits.contains(hit)) by {
        if fe(events[i]) is Some {
            let k = a.index_of(fe(events[i])->0);
            assert(hits.contains(a[k].1));
        }
    }
    assert forall|i: int|
        0 <= i < s.procedural.len() && recall_laws::asked(
            layers,
            MemoryLayer::Procedural,
        ) implies (recent_of(
        MemoryLayer::Procedural,
        (#[trigger] s.procedural[i]).1.key,
        s.procedural[i].1.content,
        s.procedural[i].1.updated_ms,
        since_ms,
    ) matches Some(hit) ==> hits.contains(hit)) by {
        if fp(s.procedural[i]) is Some {
            let k = b.index_of(fp(s.procedural[i])->0);
            assert(hits.contains(b[k].1));
        }
    }
    assert forall|i: int|
        0 <= i < s.facts.len() && recall_laws::asked(layers, MemoryLayer::Semantic) implies (
    recent_of(
        MemoryLayer::Semantic,
        (#[trigger] s.facts[i]).1.id,
        s.facts[i].1.content,
        s.facts[i].1.updated_ms,
        since_ms,
    ) matches Some(hit) ==> hits.contains(hit)) by {
        if ff(s.facts[i]) is Some {
            let k = c.index_of(ff(s.facts[i])->0);
            assert(hits.contains(c[k].1));
        }
    }
    assert forall|k: int| 0 <= k < hits.len() implies (#[trigger] hits[k]).ts_ms >= since_ms
        && hits[k].layer != MemoryLayer::Identity && recall_laws::asked(
        layers,
        hits[k].layer,
    ) by {
        let i = choose|i: int| 0 <= i < all.len() && (#[trigger] all[i]).1 == hits[k];
        assert(all[i].1.ts_ms >= since_ms);
    }
}

/// How a correction is shown: under its key with its content, its time and its confidence.
pub open spec fn correction_of(e: ProceduralView) -> Option<HitView> {
    if e.correction {
        Some(
            HitView {
                layer: MemoryLayer::Procedural,
                id: e.key,
                score: Score::Confidence(e.confidence),
                content: e.content,
                ts_ms: e.updated_ms,
            },
        )
    } else {
        None
    }
}

proof fn lemma_corrections_picked(entries: Seq<(Seq<char>, ProceduralView)>)
    ensures
        store::correction_hits(entries) == recall_laws::picked(
            entries,
            |e: (Seq<char>, ProceduralView)| timed(correction_of(e.1)),
        ),
    decreases entries.len(),
{
    if entries.len() > 0 {
        lemma_corrections_picked(entries.drop_last());
    }
}

/// Every correction is shown, unless as many as asked for are shown of which none is older,
/// and nothing but corrections is shown.
pub proof fn lemma_corrections_are_shown(s: StoreView, limit: nat)
    ensures
        ({
            let hits = store::corrections_view(s, limit);
            &&& forall|i: int|
                0 <= i < s.procedural.len() ==> (correction_of(
                    (#[trigger] s.procedural[i]).1,
                ) matches Some(hit) ==> latest_shown(hits, hit, limit))
            &&& forall|k: int|
                0 <= k < hits.len() ==> exists|i: int|
                    0 <= i < s.procedural.len() && correction_of((#[trigger] s.procedural[i]).1)
                        == Some(#[trigger] hits[k])
        }),
{
    let f = |e: (Seq<char>, ProceduralView)| timed(correction_of(e.1));
    let all = store::correction_hits(s.procedural);
    let hits = store::corrections_view(s, limit);
    lemma_corrections_picked(s.procedural);
    recall_laws::lemma_picked(s.procedural, f);
    lemma_by_time(all, limit);
    assert forall|i: int| 0 <= i < s.procedural.len() implies (correction_of(
        (#[trigger] s.procedural[i]).1,
    ) matches Some(hit) ==> latest_shown(hits, hit, limit)) by {
        if f(s.procedural[i]) is Some {
            let k = all.index_of(f(s.procedural[i])->0);
            assert(latest_shown(hits, all[k].1, limit));
        }
    }
    assert forall|k: int| 0 <= k < hits.len() implies exists|i: int|
        0 <= i < s.procedural.len() && correction_of((#[trigger] s.procedural[i]).1) == Some(
            #[trigger] hits[k],
        ) by {
        let j = choose|j: int| 0 <= j < all.len() && (#[trigger] all[j]).1 == hits[k];
        let i = choose|i: int|
            0 <= i < s.procedural.len() && f(#[trigger] s.procedural[i]) == Some(all[j]);
        assert(correction_of(s.procedural[i].1) == Some(hits[k]));
    }
}

// ---------------------------------------------------------------------------
// Retention and deletion
// ---------------------------------------------------------------------------

/// The earliest time that is kept lies as many days of 86 400 000 milliseconds before now as
/// asked for, or at the beginning of time where there are not so many.
pub proof fn lemma_cutoff(retention_days: u32, now_ms: u64)
    ensures
        now_ms >= retention_days * 86_400_000 ==> store::cutoff(retention_days, now_ms)
            + retention_days * 86_400_000 == now_ms,
        now_ms < retention_days * 86_400_000 ==> store::cutoff(retention_days, now_ms) == 0,
{
}

proof fn lemma_kept_count(lines: Seq<LineView>, cutoff: u64)
    ensures
        ({
            let kept = store::kept_lines(lines, |l: LineView| store::has_expired(l, cutoff));
            &&& kept.len() <= lines.len()
            &&& lines.len() - kept.len() == store::line_events(lines).len() - store::line_events(
                kept,
            ).len()
        }),
    decreases lines.len(),
{
    if lines.len() > 0 {
        let drop_it = |l: LineView| store::has_expired(l, cutoff);
        let rest = lines.drop_last();
        lemma_kept_count(rest, cutoff);
        let kept = store::kept_lines(lines, drop_it);
        if !drop_it(lines.last()) {
            assert(kept.drop_last() =~= store::kept_lines(rest, drop_it));
        }
    }
}

/// Expiry says how many events it dropped: as many as there are fewer afterwards.
pub proof fn lemma_expired_count(days: Seq<DayView>, cutoff: u64)
    ensures
        store::expired_count(days, cutoff) == store::episodes(days).len() - store::episodes(
            store::expired_days(days, cutoff),
        ).len(),
    decreases days.len(),
{
    if days.len() > 0 {
        let rest = days.drop_last();
        lemma_expired_count(rest, cutoff);
        lemma_kept_count(days.last().lines, cutoff);
        let lines = store::kept_lines(
            days.last().lines,
            |l: LineView| store::has_expired(l, cutoff),
        );
        let before = store::expired_days(rest, cutoff);
        if lines.len() > 0 {
            let now = before.push(DayView { name: days.last().name, lines });
            assert(now.drop_last() =~= before);
        }
    }
}

/// Deletion says that there was something to delete exactly where a fact, a procedural entry
/// or an event had the id.
pub proof fn lemma_delete_tells(s: StoreView, id: Seq<char>)
    requires
        sorted_map::ascending(s.facts),
        sorted_map::ascending(s.procedural),
    ensures
        store::holds_entry(s, id) <==> {
            ||| exists|i: int| 0 <= i < s.facts.len() && (#[trigger] s.facts[i]).0 == id
            ||| exists|i: int| 0 <= i < s.procedural.len() && (#[trigger] s.procedural[i]).0 == id
            ||| exists|i: int|
                0 <= i < store::episodes(s.days).len() && (#[trigger] store::episodes(
                    s.days,
                )[i]).id == id
        },
{
    sorted_map::lemma_as_map(s.facts);
    sorted_map::lemma_as_map(s.procedural);
    lemma_events_are_read(s.days, Seq::empty());
    let events = store::episodes(s.days);
    assert(sorted_map::as_map(s.facts).dom().contains(id) <==> sorted_map::has_key(s.facts, id));
    assert(sorted_map::as_map(s.procedural).dom().contains(id) <==> sorted_map::has_key(
        s.procedural,
        id,
    ));
    if store::some_line_holds(s.days, id) {
        let (i, j) = choose|i: int, j: int|
            0 <= i < s.days.len() && 0 <= j < s.days[i].lines.len() && store::holds_id(
                #[trigger] s.days[i].lines[j],
                id,
            );
        let e = s.days[i].lines[j].event->0;
        assert(events.contains(e));
        let k = events.index_of(e);
        assert(events[k].id == id);
    }
    if exists|k: int| 0 <= k < events.len() && (#[trigger] events[k]).id == id {
        let k = choose|k: int| 0 <= k < events.len() && (#[trigger] events[k]).id == id;
        let (i, j) = choose|i: int, j: int|
            0 <= i < s.days.len() && 0 <= j < s.days[i].lines.len() && (
            #[trigger] s.days[i].lines[j]).event == Some(events[k]);
        assert(store::holds_id(s.days[i].lines[j], id));
    }
}

// ---------------------------------------------------------------------------
// Export and import
// ---------------------------------------------------------------------------

/// A snapshot holds the profile, every fact and procedural entry in the order of their ids,
/// and every event.
pub proof fn lemma_snapshot_is_whole(s: StoreView)
    ensures
        ({
            let snap = store::snapshot_view(s);
            &&& snap.profile == s.profile
            &&& snap.facts.len() == s.facts.len()
            &&& forall|i: int|
                0 <= i < s.facts.len() ==> snap.facts[i] == (#[trigger] s.facts[i]).1
            &&& snap.procedural.len() == s.procedural.len()
            &&& forall|i: int|
                0 <= i < s.procedural.len() ==> snap.procedural[i] == (
                #[trigger] s.procedural[i]).1
            &&& snap.episodes == store::episodes(s.days)
        }),
{
}

proof fn lemma_put_facts(s: StoreView, facts: Seq<FactView>, i: int)
    requires
        sorted_map::ascending(s.facts),
        0 <= i < facts.len(),
        forall|j: int| i < j < facts.len() ==> (#[trigger] facts[j]).id != facts[i].id,
    ensures
        sorted_map::ascending(store::with_facts(s, facts).facts),
        sorted_map::as_map(store::with_facts(s, facts).facts).contains_pair(
            facts[i].id,
            facts[i],
        ),
    decreases facts.len(),
{
    let rest = facts.drop_last();
    let last = facts.last();
    let held = last;
    lemma_facts_ascend(s, rest);
    let before = store::with_facts(s, rest).facts;
    sorted_map::lemma_put(before, last.id, held);
    if i < rest.len() {
        assert(facts[facts.len() - 1].id != facts[i].id);
        assert forall|j: int| i < j < rest.len() implies (#[trigger] rest[j]).id
            != rest[i].id by {
            assert(facts[j].id != facts[i].id);
        }
        lemma_put_facts(s, rest, i);
    }
}

proof fn lemma_facts_ascend(s: StoreView, facts: Seq<FactView>)
    requires
        sorted_map::ascending(s.facts),
    ensures
        sorted_map::ascending(store::with_facts(s, facts).facts),
    decreases facts.len(),
{
    if facts.len() > 0 {
        let last = facts.last();
        lemma_facts_ascend(s, facts.drop_last());
        sorted_map::lemma_put(
            store::with_facts(s, facts.drop_last()).facts,
            last.id,
            last,
        );
    }
}

proof fn lemma_leave_facts(s: StoreView, facts: Seq<FactView>, key: Seq<char>)
    requires
        sorted_map::ascending(s.facts),
        forall|i: int| 0 <= i < facts.len() ==> (#[trigger] facts[i]).id != key,
    ensures
        ({
            let map = sorted_map::as_map(store::with_facts(s, facts).facts);
            &&& map.dom().contains(key) <==> sorted_map::as_map(s.facts).dom().contains(key)
            &&& map[key] == sorted_map::as_map(s.facts)[key]
        }),
    decreases facts.len(),
{
    if facts.len() > 0 {
        let rest = facts.drop_last();
        let last = facts.last();
        assert(facts[facts.len() - 1].id != key);
        assert forall|i: int| 0 <= i < rest.len() implies (#[trigger] rest[i]).id != key by {
            assert(facts[i].id != key);
        }
        lemma_leave_facts(s, rest, key);
        lemma_facts_ascend(s, rest);
        sorted_map::lemma_put(
            store::with_facts(s, rest).facts,
            last.id,
            last,
        );
    }
}

proof fn lemma_put_procedures(s: StoreView, entries: Seq<ProceduralView>, i: int)
    requires
        sorted_map::ascending(s.procedural),
        0 <= i < entries.len(),
        forall|j: int| i < j < entries.len() ==> (#[trigger] entries[j]).key != entries[i].key,
    ensures
        sorted_map::ascending(store::with_procedures(s, entries).procedural),
        sorted_map::as_map(store::with_procedures(s, entries).procedural).contains_pair(
            entries[i].key,
            (ProceduralView { confidence: protocol::clamped(entries[i].confidence), ..entries[i] }),
        ),
    decreases entries.len(),
{
    let rest = entries.drop_last();
    let last = entries.last();
    let held = (ProceduralView { confidence: protocol::clamped(last.confidence), ..last });
    lemma_procedures_ascend(s, rest);
    let before = store::with_procedures(s, rest).procedural;
    sorted_map::lemma_put(before, last.key, held);
    if i < rest.len() {
        assert(entries[entries.len() - 1].key != entries[i].key);
        assert forall|j: int| i < j < rest.len() implies (#[trigger] rest[j]).key
            != rest[i].key by {
            assert(entries[j].key != entries[i].key);
        }
        lemma_put_procedures(s, rest, i);
    }
}

proof fn lemma_procedures_ascend(s: StoreView, entries: Seq<ProceduralView>)
    requires
        sorted_map::ascending(s.procedural),
    ensures
        sorted_map::ascending(store::with_procedures(s, entries).procedural),
    decreases entries.len(),
{
    if entries.len() > 0 {
        let last = entries.last();
        lemma_procedures_ascend(s, entries.drop_last());
        sorted_map::lemma_put(
            store::with_procedures(s, entries.drop_last()).procedural,
            last.key,
            (ProceduralView { confidence: protocol::clamped(last.confidence), ..last }),
        );
    }
}

proof fn lemma_leave_procedures(s: StoreView, entries: Seq<ProceduralView>, key: Seq<char>)
    requires
        sorted_map::ascending(s.procedural),
        forall|i: int| 0 <= i < entries.len() ==> (#[trigger] entries[i]).key != key,
    ensures
        ({
            let map = sorted_map::as_map(store::with_procedures(s, entries).procedural);
            &&& map.dom().contains(key) <==> sorted_map::as_map(s.procedural).dom().contains(key)
            &&& map[key] == sorted_map::as_map(s.procedural)[key]
        }),
    decreases entries.len(),
{
    if entries.len() > 0 {
        let rest = entries.drop_last();
        let last = entries.last();
        assert(entries[entries.len() - 1].key != key);
        assert forall|i: int| 0 <= i < rest.len() implies (#[trigger] rest[i]).key != key by {
            assert(entries[i].key != key);
        }
        lemma_leave_procedures(s, rest, key);
        lemma_procedures_ascend(s, rest);
        sorted_map::lemma_put(
            store::with_procedures(s, rest).procedural,
            last.key,
            (ProceduralView { confidence: protocol::clamped(last.confidence), ..last }),
        );
    }
}

proof fn lemma_add_events(s: StoreView, known: Seq<EpisodeView>, events: Seq<EpisodeView>)
    ensures
        ({
            let t = store::with_new_episodes(s, known, events);
            let now = store::episodes(t.days);
            &&& forall|k: int|
                0 <= k < store::episodes(s.days).len() ==> now.contains(
                    #[trigger] store::episodes(s.days)[k],
                )
            &&& forall|i: int|
                0 <= i < events.len() && !store::has_event(known, (#[trigger] events[i]).id)
                    ==> now.contains(events[i])
            &&& forall|k: int|
                0 <= k < now.len() ==> store::episodes(s.days).contains(#[trigger] now[k]) || (
                events.contains(now[k]) && !store::has_event(known, now[k].id))
            &&& t.facts == s.facts
            &&& t.procedural == s.procedural
            &&& t.profile == s.profile
        }),
    decreases events.len(),
{
    let base = store::episodes(s.days);
    let now = store::episodes(store::with_new_episodes(s, known, events).days);
    if events.len() == 0 {
        assert forall|k: int| 0 <= k < base.len() implies now.contains(#[trigger] base[k]) by {
            assert(now[k] == base[k]);
        }
        assert forall|k: int| 0 <= k < now.len() implies base.contains(#[trigger] now[k]) by {
            assert(base[k] == now[k]);
        }
    } else {
        let rest = events.drop_last();
        let last = events.last();
        lemma_add_events(s, known, rest);
        let t = store::with_new_episodes(s, known, rest);
        let before = store::episodes(t.days);
        if !store::has_event(known, last.id) {
            let at = laws::lemma_append_keeps(
                t.days,
                store::day_name(last.ts_ms),
                store::event_line(last),
            );
            assert(now == before.insert(at as int, last));
            assert(now[at as int] == last);
            assert forall|e: EpisodeView| #[trigger] before.contains(e) implies now.contains(
                e,
            ) by {
                let k = before.index_of(e);
                if k < at {
                    assert(now[k] == e);
                } else {
                    assert(now[k + 1] == e);
                }
            }
            assert forall|k: int| 0 <= k < now.len() implies now[k] == last || before.contains(
                #[trigger] now[k],
            ) by {
                if k < at {
                    assert(now[k] == before[k]);
                } else if k > at {
                    assert(now[k] == before[k - 1]);
                }
            }
        }
        assert forall|k: int| 0 <= k < base.len() implies now.contains(#[trigger] base[k]) by {
            assert(before.contains(base[k]));
        }
        assert forall|i: int|
            0 <= i < events.len() && !store::has_event(
                known,
                (#[trigger] events[i]).id,
            ) implies now.contains(events[i]) by {
            if i < rest.len() {
                assert(rest[i] == events[i]);
                assert(before.contains(events[i]));
            }
        }
        assert forall|k: int| 0 <= k < now.len() implies base.contains(#[trigger] now[k]) || (
        events.contains(now[k]) && !store::has_event(known, now[k].id)) by {
            let e = now[k];
            if e == last && !store::has_event(known, last.id) {
                assert(events[events.len() - 1] == e);
            } else {
                assert(before.contains(e));
                let m = before.index_of(e);
                assert(before[m] == e);
                if !base.contains(e) {
                    assert(rest.contains(e));
                    let i = rest.index_of(e);
                    assert(events[i] == e);
                }
            }
        }
    }
}

proof fn lemma_import_parts(s: StoreView, snap: SnapshotView)
    ensures
        ({
            let a = StoreView { profile: snap.profile, ..s };
            let b = store::with_facts(a, snap.facts);
            let c = store::with_procedures(b, snap.procedural);
            let t = store::imported(s, snap);
            &&& a.facts == s.facts
            &&& b.procedural == s.procedural
            &&& b.days == s.days
            &&& c.days == s.days
            &&& t.profile == snap.profile
            &&& t.facts == b.facts
            &&& t.procedural == c.procedural
            &&& t == store::with_new_episodes(c, store::episodes(s.days), snap.episodes)
        }),
{
    let a = StoreView { profile: snap.profile, ..s };
    let b = store::with_facts(a, snap.facts);
    let c = store::with_procedures(b, snap.procedural);
    store::lemma_puts_keep_days(a, snap.facts, Seq::empty());
    store::lemma_puts_keep_days(b, Seq::empty(), snap.procedural);
    lemma_add_events(c, store::episodes(s.days), snap.episodes);
}

/// An import replaces the profile, and of the facts under one id the last of the snapshot
/// stands afterwards.
pub proof fn lemma_import_takes_facts(s: StoreView, snap: SnapshotView, i: int)
    requires
        sorted_map::ascending(s.facts),
        0 <= i < snap.facts.len(),
        forall|j: int|
            i < j < snap.facts.len() ==> (#[trigger] snap.facts[j]).id != snap.facts[i].id,
    ensures
        store::imported(s, snap).profile == snap.profile,
        sorted_map::as_map(store::imported(s, snap).facts).contains_pair(
            snap.facts[i].id,
            snap.facts[i],
        ),
{
    lemma_import_parts(s, snap);
    lemma_put_facts(StoreView { profile: snap.profile, ..s }, snap.facts, i);
}

/// Of the procedural entries under one key the last of the snapshot stands after an import,
/// its confidence held between zero and one.
pub proof fn lemma_import_takes_procedures(s: StoreView, snap: SnapshotView, i: int)
    requires
        sorted_map::ascending(s.procedural),
        0 <= i < snap.procedural.len(),
        forall|j: int|
            i < j < snap.procedural.len() ==> (#[trigger] snap.procedural[j]).key
                != snap.procedural[i].key,
    ensures
        sorted_map::as_map(store::imported(s, snap).procedural).contains_pair(
            snap.procedural[i].key,
            ProceduralView {
                confidence: protocol::clamped(snap.procedural[i].confidence),
                ..snap.procedural[i]
            },
        ),
{
    lemma_import_parts(s, snap);
    let b = store::with_facts(StoreView { profile: snap.profile, ..s }, snap.facts);
    lemma_put_procedures(b, snap.procedural, i);
}

/// What a snapshot does not name stays as it was.
pub proof fn lemma_import_leaves_the_rest(s: StoreView, snap: SnapshotView, key: Seq<char>)
    requires
        sorted_map::ascending(s.facts),
        sorted_map::ascending(s.procedural),
        forall|i: int| 0 <= i < snap.facts.len() ==> (#[trigger] snap.facts[i]).id != key,
        forall|i: int|
            0 <= i < snap.procedural.len() ==> (#[trigger] snap.procedural[i]).key != key,
    ensures
        ({
            let facts = sorted_map::as_map(store::imported(s, snap).facts);
            let procedures = sorted_map::as_map(store::imported(s, snap).procedural);
            &&& facts.dom().contains(key) <==> sorted_map::as_map(s.facts).dom().contains(key)
            &&& facts[key] == sorted_map::as_map(s.facts)[key]
            &&& procedures.dom().contains(key) <==> sorted_map::as_map(
                s.procedural,
            ).dom().contains(key)
            &&& procedures[key] == sorted_map::as_map(s.procedural)[key]
        }),
{
    lemma_import_parts(s, snap);
    let a = StoreView { profile: snap.profile, ..s };
    lemma_leave_facts(a, snap.facts, key);
    lemma_leave_procedures(store::with_facts(a, snap.facts), snap.procedural, key);
}

/// No event of the store is lost in an import, and the events of the snapshot whose ids the
/// store did not have are added, and no others.
pub proof fn lemma_import_adds_new_events(s: StoreView, snap: SnapshotView)
    ensures
        ({
            let old_events = store::episodes(s.days);
            let now = store::episodes(store::imported(s, snap).days);
            &&& forall|k: int| 0 <= k < old_events.len() ==> now.contains(#[trigger] old_events[k])
            &&& forall|i: int|
                0 <= i < snap.episodes.len() && (forall|k: int|
                    0 <= k < old_events.len() ==> (#[trigger] old_events[k]).id
                        != snap.episodes[i].id) ==> now.contains(#[trigger] snap.episodes[i])
            &&& forall|k: int|
                0 <= k < now.len() ==> old_events.contains(#[trigger] now[k]) || (
                snap.episodes.contains(now[k]) && forall|m: int|
                    0 <= m < old_events.len() ==> (#[trigger] old_events[m]).id != now[k].id)
        }),
{
    lemma_import_parts(s, snap);
    let b = store::with_facts(StoreView { profile: snap.profile, ..s }, snap.facts);
    lemma_add_events(
        store::with_procedures(b, snap.procedural),
        store::episodes(s.days),
        snap.episodes,
    );
}

/// The profile that was put is the one that is loaded, all of it, and the layers stay as they
/// were.
pub proof fn lemma_profile_is_loaded(
    store: &mut MemoryStore,
    profile: UserProfile,
    loaded: UserProfile,
)
    requires
        call_ensures(MemoryStore::put_profile, (store, &profile), ()),
        call_ensures(MemoryStore::load_profile, (final(store),), loaded),
    ensures
        loaded@ == profile@,
        final(store)@.facts == old(store)@.facts,
        final(store)@.procedural == old(store)@.procedural,
        final(store)@.days == old(store)@.days,
{
}

/// Expiry drops exactly the events that are older than the days to keep and not important, and
/// says how many; it leaves everything else.
pub proof fn lemma_expiry(store: &mut MemoryStore, retention_days: u32, now_ms: u64, n: usize)
    requires
        call_ensures(MemoryStore::expire, (store, retention_days, now_ms), n),
        now_ms >= retention_days * 86_400_000,
        store::episodes(store@.days).len() <= usize::MAX,
    ensures
        store::episodes(final(store)@.days) == store::episodes(old(store)@.days).filter(
            |e: EpisodeView| e.important || e.ts_ms + retention_days * 86_400_000 >= now_ms,
        ),
        n == store::episodes(old(store)@.days).len() - store::episodes(final(store)@.days).len(),
        final(store)@.facts == old(store)@.facts,
        final(store)@.procedural == old(store)@.procedural,
        final(store)@.profile == old(store)@.profile,
{
    let cut = store::cutoff(retention_days, now_ms);
    lemma_cutoff(retention_days, now_ms);
    laws::lemma_expire_keeps(old(store)@.days, cut);
    lemma_expired_count(old(store)@.days, cut);
    lemma_alike_filters(
        store::episodes(old(store)@.days),
        |e: EpisodeView| e.important || e.ts_ms >= cut,
        |e: EpisodeView| e.important || e.ts_ms + retention_days * 86_400_000 >= now_ms,
    );
}

proof fn lemma_alike_filters<T>(s: Seq<T>, f: spec_fn(T) -> bool, g: spec_fn(T) -> bool)
    requires
        forall|x: T| #[trigger] f(x) == g(x),
    ensures
        s.filter(f) == s.filter(g),
    decreases s.len(),
{
    reveal(Seq::filter);
    if s.len() > 0 {
        lemma_alike_filters(s.drop_last(), f, g);
        assert(f(s.last()) == g(s.last()));
    }
}

/// Each question is answered by what it asks for: the profile, or what searching, looking back
/// or asking for corrections gives.
pub proof fn lemma_questions_are_answered(
    store: MemoryStore,
    query: String,
    layers: Vec<MemoryLayer>,
    limit: usize,
    since_ms: u64,
    hits: Vec<MemoryHit>,
    late: Vec<MemoryHit>,
    told: Vec<MemoryHit>,
    a: MemoryResult,
    b: MemoryResult,
    c: MemoryResult,
    d: MemoryResult,
)
    requires
        exists|words: &str| words@ == query@ && #[trigger] call_ensures(
            MemoryStore::search,
            (&store, words, &layers, limit),
            hits,
        ),
        call_ensures(MemoryStore::recent, (&store, since_ms, &layers), late),
        call_ensures(MemoryStore::corrections, (&store, limit), told),
        call_ensures(
            MemoryStore::query,
            (&store, MemoryQuery::Search { query, layers, limit }),
            a,
        ),
        call_ensures(MemoryStore::query, (&store, MemoryQuery::Recent { since_ms, layers }), b),
        call_ensures(MemoryStore::query, (&store, MemoryQuery::Corrections { limit }), c),
        call_ensures(MemoryStore::query, (&store, MemoryQuery::UserProfile), d),
    ensures
        a@ == ResultView::Hits(protocol::hits_view(hits@)),
        b@ == ResultView::Hits(protocol::hits_view(late@)),
        c@ == ResultView::Hits(protocol::hits_view(told@)),
        d@ == ResultView::Profile(store@.profile),
{
}

/// The facts and procedures that are loaded are those that are kept, each as it is; a cleared
/// store keeps none, nor any event.
pub proof fn lemma_loaded_and_cleared(
    store: MemoryStore,
    facts: Vec<SemanticFact>,
    entries: Vec<ProceduralEntry>,
    gone: &mut MemoryStore,
    i: int,
)
    requires
        call_ensures(MemoryStore::load_facts, (&store,), facts),
        call_ensures(MemoryStore::load_procedural, (&store,), entries),
        call_ensures(MemoryStore::clear, (gone,), ()),
    ensures
        facts@.len() == store@.facts.len(),
        0 <= i < facts@.len() ==> facts@[i]@ == store@.facts[i].1,
        entries@.len() == store@.procedural.len(),
        0 <= i < entries@.len() ==> entries@[i]@ == store@.procedural[i].1,
        final(gone)@.facts.len() == 0 && final(gone)@.procedural.len() == 0,
        final(gone)@.days.len() == 0,
{
    let f = Seq::new(facts@.len(), |k: int| facts@[k]@);
    let e = Seq::new(entries@.len(), |k: int| entries@[k]@);
    assert(f.len() == store::values(store@.facts).len());
    assert(e.len() == store::values(store@.procedural).len());
    if 0 <= i < facts@.len() {
        assert(f[i] == store@.facts[i].1);
    }
    if 0 <= i < entries@.len() {
        assert(e[i] == store@.procedural[i].1);
    }
}

} // verus!
