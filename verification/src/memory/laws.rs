//! What holds of the memory store as a whole.

use vstd::prelude::*;
use crate::memory::protocol;
use crate::memory::protocol::EpisodeView;
use crate::memory::protocol::FactView;
use crate::memory::protocol::HitView;
use crate::memory::protocol::MemoryLayer;
use crate::memory::protocol::ProceduralView;
use crate::memory::protocol::Score;
use crate::memory::protocol::SnapshotView;
use crate::memory::store;
use crate::memory::store::DayView;
use crate::memory::store::LineView;
use crate::memory::store::StoreView;
use crate::sort;
use crate::sort::Rank;
use crate::sorted_map;

verus! {

// ---------------------------------------------------------------------------
// Searching
// ---------------------------------------------------------------------------

/// Whether a hit belongs to a search: a term was found, and its layer was asked
/// for.
pub open spec fn sound_hit(hit: HitView, terms: nat, layers: Seq<MemoryLayer>) -> bool {
    &&& protocol::asks_for(layers, hit.layer)
    &&& hit.layer != MemoryLayer::Identity
    &&& hit.score matches Score::Share { matched, terms: of, boosted } && 0 < matched <= terms && of
        == terms
}

/// The rank of a hit of a search.
pub open spec fn rank_of(hit: HitView) -> Rank {
    match hit.score {
        Score::Share { matched, terms, boosted } => Rank {
            first: store::weight(matched as nat, terms as nat, boosted) as u128,
            second: hit.ts_ms,
        },
        _ => Rank { first: 0, second: hit.ts_ms },
    }
}

spec fn good(
    ranked: Seq<(Rank, HitView)>,
    terms: nat,
    layer: MemoryLayer,
) -> bool {
    forall|i: int|
        0 <= i < ranked.len() ==> {
            &&& (#[trigger] ranked[i]).0 == rank_of(ranked[i].1)
            &&& ranked[i].1.layer == layer
            &&& ranked[i].1.score matches Score::Share { matched, terms: of, boosted } && 0
                < matched <= terms && of == terms
        }
}

proof fn lemma_procedural_good(entries: Seq<(Seq<char>, ProceduralView)>, terms: Seq<Seq<char>>)
    requires
        terms.len() <= usize::MAX,
    ensures
        good(store::procedural_hits(entries, terms), terms.len(), MemoryLayer::Procedural),
    decreases entries.len(),
{
    if entries.len() > 0 {
        lemma_procedural_good(entries.drop_last(), terms);
        store::lemma_matched_bound(terms, entries.last().1.content);
    }
}

proof fn lemma_facts_good(entries: Seq<(Seq<char>, FactView)>, terms: Seq<Seq<char>>)
    requires
        terms.len() <= usize::MAX,
    ensures
        good(store::fact_hits(entries, terms), terms.len(), MemoryLayer::Semantic),
    decreases entries.len(),
{
    if entries.len() > 0 {
        lemma_facts_good(entries.drop_last(), terms);
        let f = entries.last().1;
        store::lemma_matched_bound(terms, f.topic + " "@ + f.content);
    }
}

proof fn lemma_episodes_good(events: Seq<EpisodeView>, terms: Seq<Seq<char>>)
    requires
        terms.len() <= usize::MAX,
    ensures
        good(store::episode_hits(events, terms), terms.len(), MemoryLayer::Episodic),
    decreases events.len(),
{
    if events.len() > 0 {
        lemma_episodes_good(events.drop_last(), terms);
        let e = events.last();
        store::lemma_matched_bound(terms, e.kind + " "@ + e.summary + " "@ + e.outcome);
    }
}

/// A search gives at most `limit` hits, each of a layer that was asked for and
/// with at least one term found, the more relevant before the less relevant and
/// of two equally relevant ones the more recent first.
pub proof fn lemma_search(
    s: StoreView,
    query: Seq<char>,
    layers: Seq<MemoryLayer>,
    limit: nat,
)
    requires
        store::terms_of(query).len() <= usize::MAX,
    ensures
        ({
            let hits = store::search_view(s, query, layers, limit);
            &&& hits.len() <= limit
            &&& forall|i: int|
                0 <= i < hits.len() ==> sound_hit(
                    #[trigger] hits[i],
                    store::terms_of(query).len(),
                    layers,
                )
            &&& forall|i: int, j: int|
                0 <= i < j < hits.len() ==> !rank_of(#[trigger] hits[j]).ahead(
                    rank_of(#[trigger] hits[i]),
                )
        }),
{
    let terms = store::terms_of(query);
    if terms.len() > 0 {
        let all = store::all_hits(s, terms, layers);
        let hits = store::search_view(s, query, layers, limit);
        lemma_procedural_good(s.procedural, terms);
        lemma_facts_good(s.facts, terms);
        lemma_episodes_good(store::episodes(s.days), terms);
        let a = store::if_asked(
            layers,
            MemoryLayer::Procedural,
            store::procedural_hits(s.procedural, terms),
        );
        let b = store::if_asked(layers, MemoryLayer::Semantic, store::fact_hits(s.facts, terms));
        let c = store::if_asked(
            layers,
            MemoryLayer::Episodic,
            store::episode_hits(store::episodes(s.days), terms),
        );
        assert forall|i: int| 0 <= i < all.len() implies (#[trigger] all[i]).0 == rank_of(all[i].1)
            && sound_hit(all[i].1, terms.len(), layers) by {
            if i < a.len() {
                assert(all[i] == a[i]);
            } else if i < a.len() + b.len() {
                assert(all[i] == b[i - a.len()]);
            } else {
                assert(all[i] == c[i - a.len() - b.len()]);
            }
        }
        sort::lemma_top(all, limit);
        sort::lemma_in_ranks(all);
        let ranked = sort::in_ranks(all);
        assert forall|k: int| 0 <= k < hits.len() implies sound_hit(
            #[trigger] hits[k],
            terms.len(),
            layers,
        ) && ranked[k].0 == rank_of(hits[k]) by {
            assert(hits[k] == ranked[k].1);
            let i = choose|i: int| 0 <= i < all.len() && all[i] == ranked[k];
            assert(all[i].0 == rank_of(all[i].1));
        }
        assert forall|i: int, j: int| 0 <= i < j < hits.len() implies !rank_of(
            #[trigger] hits[j],
        ).ahead(rank_of(#[trigger] hits[i])) by {
            assert(!ranked[j].0.ahead(ranked[i].0));
        }
    }
}

proof fn lemma_correction_hits(entries: Seq<(Seq<char>, ProceduralView)>)
    ensures
        forall|i: int|
            0 <= i < store::correction_hits(entries).len() ==> ({
                let (rank, hit) = #[trigger] store::correction_hits(entries)[i];
                rank == (Rank { first: 0, second: hit.ts_ms })
            }),
    decreases entries.len(),
{
    if entries.len() > 0 {
        lemma_correction_hits(entries.drop_last());
    }
}

/// At most `limit` corrections are given, the most recent first.
pub proof fn lemma_corrections(s: StoreView, limit: nat)
    ensures
        ({
            let hits = store::corrections_view(s, limit);
            &&& hits.len() <= limit
            &&& forall|i: int, j: int|
                0 <= i < j < hits.len() ==> (#[trigger] hits[i]).ts_ms >= (
                #[trigger] hits[j]).ts_ms
        }),
{
    let all = store::correction_hits(s.procedural);
    let hits = store::corrections_view(s, limit);
    lemma_correction_hits(s.procedural);
    sort::lemma_top(all, limit);
    sort::lemma_in_ranks(all);
    let ranked = sort::in_ranks(all);
    assert forall|k: int| 0 <= k < hits.len() implies ranked[k].0 == (Rank {
        first: 0,
        second: (#[trigger] hits[k]).ts_ms,
    }) by {
        let i = choose|i: int| 0 <= i < all.len() && all[i] == ranked[k];
        assert(all[i].0 == (Rank { first: 0, second: all[i].1.ts_ms }));
    }
    assert forall|i: int, j: int| 0 <= i < j < hits.len() implies (#[trigger] hits[i]).ts_ms >= (
    #[trigger] hits[j]).ts_ms by {
        assert(!ranked[j].0.ahead(ranked[i].0));
    }
}

// ---------------------------------------------------------------------------
// Dropping events
// ---------------------------------------------------------------------------

proof fn lemma_filter_concat(
    a: Seq<EpisodeView>,
    b: Seq<EpisodeView>,
    keep: spec_fn(EpisodeView) -> bool,
)
    ensures
        (a + b).filter(keep) == a.filter(keep) + b.filter(keep),
    decreases b.len(),
{
    reveal(Seq::filter);
    if b.len() == 0 {
        assert(a + b =~= a);
        assert(a.filter(keep) + b.filter(keep) =~= a.filter(keep));
    } else {
        assert((a + b).drop_last() =~= a + b.drop_last());
        lemma_filter_concat(a, b.drop_last(), keep);
        assert((a + b).filter(keep) =~= a.filter(keep) + b.filter(keep));
    }
}

proof fn lemma_kept_events(
    lines: Seq<LineView>,
    drop_it: spec_fn(LineView) -> bool,
    keep: spec_fn(EpisodeView) -> bool,
)
    requires
        forall|l: LineView|
            #![trigger drop_it(l)]
            drop_it(l) <==> (l.event is Some && !keep(l.event->0)),
    ensures
        store::line_events(store::kept_lines(lines, drop_it)) == store::line_events(lines).filter(
            keep,
        ),
    decreases lines.len(),
{
    reveal(Seq::filter);
    if lines.len() > 0 {
        let rest = lines.drop_last();
        let last = lines.last();
        lemma_kept_events(rest, drop_it, keep);
        let kept = store::kept_lines(lines, drop_it);
        assert(drop_it(last) <==> (last.event is Some && !keep(last.event->0)));
        if !drop_it(last) {
            assert(kept.drop_last() =~= store::kept_lines(rest, drop_it));
        }
        if last.event is Some {
            assert(store::line_events(lines).drop_last() =~= store::line_events(rest));
        }
    }
}

/// Expiry keeps exactly the events that are important or recent enough, in their
/// order.
pub proof fn lemma_expire_keeps(days: Seq<DayView>, cutoff: u64)
    ensures
        store::episodes(store::expired_days(days, cutoff)) == store::episodes(days).filter(
            |e: EpisodeView| e.important || e.ts_ms >= cutoff,
        ),
    decreases days.len(),
{
    let keep = |e: EpisodeView| e.important || e.ts_ms >= cutoff;
    if days.len() == 0 {
        reveal(Seq::filter);
        assert(store::episodes(store::expired_days(days, cutoff)) =~= store::episodes(days).filter(
            keep,
        ));
    } else {
        let rest = days.drop_last();
        let last = days.last();
        lemma_expire_keeps(rest, cutoff);
        let drop_it = |l: LineView| store::has_expired(l, cutoff);
        lemma_kept_events(last.lines, drop_it, keep);
        lemma_filter_concat(store::episodes(rest), store::line_events(last.lines), keep);
        let lines = store::kept_lines(last.lines, drop_it);
        let before = store::expired_days(rest, cutoff);
        if lines.len() == 0 {
            assert(store::line_events(lines) =~= Seq::<EpisodeView>::empty());
            assert(store::episodes(before) + Seq::<EpisodeView>::empty() =~= store::episodes(
                before,
            ));
        } else {
            let now = before.push(DayView { name: last.name, lines });
            assert(now.drop_last() =~= before);
        }
    }
}

proof fn lemma_purge_keeps(days: Seq<DayView>, id: Seq<char>)
    ensures
        store::episodes(store::purged_days(days, id)) == store::episodes(days).filter(
            |e: EpisodeView| e.id != id,
        ),
    decreases days.len(),
{
    let keep = |e: EpisodeView| e.id != id;
    if days.len() == 0 {
        reveal(Seq::filter);
        assert(store::episodes(store::purged_days(days, id)) =~= store::episodes(days).filter(
            keep,
        ));
    } else {
        let rest = days.drop_last();
        let last = days.last();
        lemma_purge_keeps(rest, id);
        let drop_it = |l: LineView| store::holds_id(l, id);
        lemma_kept_events(last.lines, drop_it, keep);
        lemma_filter_concat(store::episodes(rest), store::line_events(last.lines), keep);
        let lines = store::kept_lines(last.lines, drop_it);
        let before = store::purged_days(rest, id);
        if lines.len() == 0 && last.lines.len() > 0 {
            assert(store::line_events(lines) =~= Seq::<EpisodeView>::empty());
            assert(store::episodes(before) + Seq::<EpisodeView>::empty() =~= store::episodes(
                before,
            ));
        } else {
            let now = before.push(DayView { name: last.name, lines });
            assert(now.drop_last() =~= before);
        }
    }
}

/// Deleting an id leaves no event, fact or procedural entry of that id, and
/// leaves every other one.
pub proof fn lemma_delete_removes(s: StoreView, id: Seq<char>)
    requires
        sorted_map::ascending(s.facts),
        sorted_map::ascending(s.procedural),
    ensures
        ({
            let t = store::purged(s, id);
            &&& store::episodes(t.days) == store::episodes(s.days).filter(
                |e: EpisodeView| e.id != id,
            )
            &&& sorted_map::as_map(t.facts) == sorted_map::as_map(s.facts).remove(id)
            &&& sorted_map::as_map(t.procedural) == sorted_map::as_map(s.procedural).remove(id)
            &&& t.profile == s.profile
        }),
{
    lemma_purge_keeps(s.days, id);
    sorted_map::lemma_without(s.facts, id);
    sorted_map::lemma_without(s.procedural, id);
}

// ---------------------------------------------------------------------------
// Adding events
// ---------------------------------------------------------------------------

proof fn lemma_line_events_push(lines: Seq<LineView>, line: LineView)
    ensures
        store::line_events(lines.push(line)) == (match line.event {
            Some(e) => store::line_events(lines).push(e),
            None => store::line_events(lines),
        }),
{
    assert(lines.push(line).drop_last() =~= lines);
}

proof fn lemma_episodes_first(days: Seq<DayView>)
    requires
        days.len() > 0,
    ensures
        store::episodes(days) == store::line_events(days[0].lines) + store::episodes(
            days.drop_first(),
        ),
    decreases days.len(),
{
    if days.len() == 1 {
        assert(days.drop_last() =~= Seq::<DayView>::empty());
        assert(days.drop_first() =~= Seq::<DayView>::empty());
        assert(store::episodes(days) =~= store::line_events(days[0].lines) + store::episodes(
            days.drop_first(),
        ));
    } else {
        lemma_episodes_first(days.drop_last());
        assert(days.drop_last().drop_first() =~= days.drop_first().drop_last());
        let x = store::line_events(days[0].lines);
        let y = store::episodes(days.drop_first().drop_last());
        let z = store::line_events(days.last().lines);
        assert((x + y) + z =~= x + (y + z));
    }
}

/// The events after one was added: the same events with the new one put behind
/// those of its file, so no event is lost.
pub proof fn lemma_append_keeps(days: Seq<DayView>, name: Seq<char>, line: LineView) -> (at: nat)
    requires
        line.event is Some,
    ensures
        at <= store::episodes(days).len(),
        store::episodes(store::with_line(days, name, line)) == store::episodes(days).insert(
            at as int,
            line.event->0,
        ),
    decreases days.len(),
{
    let e = line.event->0;
    let old_events = store::episodes(days);
    let now = store::with_line(days, name, line);
    if days.len() == 0 {
        lemma_episodes_first(now);
        lemma_line_events_push(Seq::empty(), line);
        assert(Seq::<LineView>::empty().push(line) =~= seq![line]);
        assert(now.drop_first() =~= Seq::<DayView>::empty());
        assert(store::line_events(Seq::<LineView>::empty()) =~= Seq::<EpisodeView>::empty());
        assert(store::episodes(now) =~= old_events.insert(0, e));
        0
    } else {
        lemma_episodes_first(days);
        lemma_episodes_first(now);
        let head = store::line_events(days[0].lines);
        let tail = store::episodes(days.drop_first());
        if days[0].name == name {
            lemma_line_events_push(days[0].lines, line);
            assert(now.drop_first() =~= days.drop_first());
            assert(store::episodes(now) =~= old_events.insert(head.len() as int, e));
            head.len()
        } else {
            let at = lemma_append_keeps(days.drop_first(), name, line);
            assert(now.drop_first() =~= store::with_line(days.drop_first(), name, line));
            assert(store::episodes(now) =~= old_events.insert(head.len() + at as int, e));
            head.len() + at
        }
    }
}

// ---------------------------------------------------------------------------
// What every operation keeps
// ---------------------------------------------------------------------------

/// Whether each event stands in the file of its day, and each file is listed
/// once.
pub open spec fn tidy_days(days: Seq<DayView>) -> bool {
    &&& forall|i: int, j: int|
        0 <= i < j < days.len() ==> (#[trigger] days[i]).name != (#[trigger] days[j]).name
    &&& forall|i: int, j: int|
        0 <= i < days.len() && 0 <= j < days[i].lines.len() && (
        #[trigger] days[i].lines[j]).event is Some ==> store::day_name(
            days[i].lines[j].event->0.ts_ms,
        ) == days[i].name
}

/// Whether facts stand under their ids.
pub open spec fn tidy_facts(facts: Seq<(Seq<char>, FactView)>) -> bool {
    &&& sorted_map::ascending(facts)
    &&& forall|i: int| 0 <= i < facts.len() ==> (#[trigger] facts[i]).0 == facts[i].1.id
}

/// Whether procedural entries stand under their keys, with a confidence between
/// zero and one.
pub open spec fn tidy_procedural(entries: Seq<(Seq<char>, ProceduralView)>) -> bool {
    &&& sorted_map::ascending(entries)
    &&& forall|i: int|
        0 <= i < entries.len() ==> (#[trigger] entries[i]).0 == entries[i].1.key
            && protocol::clamped(entries[i].1.confidence) == entries[i].1.confidence
}

/// Whether everything stands where it belongs.
pub open spec fn tidy(s: StoreView) -> bool {
    tidy_days(s.days) && tidy_facts(s.facts) && tidy_procedural(s.procedural)
}

proof fn lemma_tidy_with_episode(s: StoreView, event: EpisodeView)
    requires
        tidy(s),
    ensures
        tidy(store::with_episode(s, event)),
{
    let days = s.days;
    let name = store::day_name(event.ts_ms);
    let line = store::event_line(event);
    let at: int = if exists|i: int| 0 <= i < days.len() && (#[trigger] days[i]).name == name {
        choose|i: int| 0 <= i < days.len() && (#[trigger] days[i]).name == name
    } else {
        days.len() as int
    };
    assert forall|k: int| 0 <= k < at implies (#[trigger] days[k]).name != name by {
        if at < days.len() {
            assert(days[k].name != days[at].name);
        }
    }
    store::lemma_with_line_at(days, name, line, at);
    let now = store::with_line(days, name, line);
    assert forall|i: int, j: int| 0 <= i < j < now.len() implies (#[trigger] now[i]).name != (
    #[trigger] now[j]).name by {
        if j < days.len() {
            assert(days[i].name != days[j].name);
        }
    }
    assert forall|i: int, j: int|
        0 <= i < now.len() && 0 <= j < now[i].lines.len() && (
        #[trigger] now[i].lines[j]).event is Some implies store::day_name(
        now[i].lines[j].event->0.ts_ms,
    ) == now[i].name by {
        if i < days.len() && j < days[i].lines.len() {
            assert(now[i].lines[j] == days[i].lines[j]);
        }
    }
}

proof fn lemma_tidy_with_fact(
    s: StoreView,
    id: Seq<char>,
    topic: Seq<char>,
    content: Seq<char>,
    ts_ms: u64,
)
    requires
        tidy(s),
    ensures
        tidy(store::with_fact(s, id, topic, content, ts_ms)),
{
    let fact = FactView { id, topic, content, updated_ms: ts_ms };
    sorted_map::lemma_put(s.facts, id, fact);
    let good = |e: (Seq<char>, FactView)| e.0 == e.1.id;
    assert(good((id, fact)));
    assert forall|i: int| 0 <= i < s.facts.len() implies good(#[trigger] s.facts[i]) by {}
    sorted_map::lemma_put_all(s.facts, id, fact, good);
    let now = sorted_map::put(s.facts, id, fact);
    assert forall|i: int| 0 <= i < now.len() implies (#[trigger] now[i]).0 == now[i].1.id by {
        assert(good(now[i]));
    }
}

proof fn lemma_tidy_with_procedural(
    s: StoreView,
    key: Seq<char>,
    content: Seq<char>,
    confidence: u32,
    correction: bool,
    updated_ms: u64,
)
    requires
        tidy(s),
    ensures
        tidy(store::with_procedural(s, key, content, confidence, correction, updated_ms)),
{
    let entry = ProceduralView {
        key,
        content,
        confidence: protocol::clamped(confidence),
        updated_ms,
        correction,
    };
    protocol::lemma_clamped_once(confidence);
    sorted_map::lemma_put(s.procedural, key, entry);
    let good = |e: (Seq<char>, ProceduralView)|
        e.0 == e.1.key && protocol::clamped(e.1.confidence) == e.1.confidence;
    assert(good((key, entry)));
    assert forall|i: int| 0 <= i < s.procedural.len() implies good(#[trigger] s.procedural[i]) by {}
    sorted_map::lemma_put_all(s.procedural, key, entry, good);
    let now = sorted_map::put(s.procedural, key, entry);
    assert forall|i: int| 0 <= i < now.len() implies (#[trigger] now[i]).0 == now[i].1.key
        && protocol::clamped(now[i].1.confidence) == now[i].1.confidence by {
        assert(good(now[i]));
    }
}

/// The empty store is tidy, and every write keeps a store tidy.
pub proof fn lemma_writes_keep_tidy(s: StoreView, w: protocol::MemoryWrite)
    requires
        tidy(s),
    ensures
        tidy(store::empty_store()),
        tidy(store::written(s, w)),
{
    match w {
        protocol::MemoryWrite::Episode { event } => {
            lemma_tidy_with_episode(s, event@);
        },
        protocol::MemoryWrite::Procedural { key, content, confidence } => {
            lemma_tidy_with_procedural(s, key@, content@, confidence, false, 0);
        },
        protocol::MemoryWrite::UserCorrection { correction, context, ts_ms } => {
            lemma_tidy_with_procedural(
                s,
                "correction:"@ + crate::text::decimal(ts_ms as nat),
                store::correction_text(correction@, context@),
                protocol::ONE_BITS,
                true,
                ts_ms,
            );
        },
        protocol::MemoryWrite::Semantic { id, topic, content, ts_ms } => {
            lemma_tidy_with_fact(s, id@, topic@, content@, ts_ms);
        },
        protocol::MemoryWrite::Profile { profile } => {},
    }
}

proof fn lemma_kept_subset(lines: Seq<LineView>, drop_it: spec_fn(LineView) -> bool)
    ensures
        forall|i: int|
            0 <= i < store::kept_lines(lines, drop_it).len() ==> lines.contains(
                #[trigger] store::kept_lines(lines, drop_it)[i],
            ),
    decreases lines.len(),
{
    if lines.len() > 0 {
        let rest = lines.drop_last();
        lemma_kept_subset(rest, drop_it);
        let kept = store::kept_lines(lines, drop_it);
        assert forall|i: int| 0 <= i < kept.len() implies lines.contains(#[trigger] kept[i]) by {
            let inner = store::kept_lines(rest, drop_it);
            if i < inner.len() {
                assert(kept[i] == inner[i]);
                let k = choose|k: int| 0 <= k < rest.len() && rest[k] == inner[i];
                assert(lines[k] == inner[i]);
            } else {
                assert(lines[lines.len() - 1] == lines.last());
            }
        }
    }
}

/// Whether `now` lists some of the files of `days`, each with some of its lines.
spec fn thinned(days: Seq<DayView>, now: Seq<DayView>) -> bool {
    &&& forall|i: int|
        0 <= i < now.len() ==> exists|k: int|
            0 <= k < days.len() && (#[trigger] days[k]).name == (#[trigger] now[i]).name && forall|
                j: int,
            |
                0 <= j < now[i].lines.len() ==> days[k].lines.contains(#[trigger] now[i].lines[j])
    &&& forall|i: int, j: int|
        0 <= i < j < now.len() ==> (#[trigger] now[i]).name != (#[trigger] now[j]).name
}

proof fn lemma_thinned_push(
    days: Seq<DayView>,
    before: Seq<DayView>,
    lines: Seq<LineView>,
    dropped: bool,
)
    requires
        tidy_days(days),
        days.len() > 0,
        thinned(days.drop_last(), before),
        forall|j: int| 0 <= j < lines.len() ==> days.last().lines.contains(#[trigger] lines[j]),
    ensures
        thinned(
            days,
            if dropped {
                before
            } else {
                before.push(DayView { name: days.last().name, lines })
            },
        ),
{
    let rest = days.drop_last();
    let last = DayView { name: days.last().name, lines };
    let now = if dropped {
        before
    } else {
        before.push(last)
    };
    assert forall|i: int| 0 <= i < now.len() implies exists|k: int|
        0 <= k < days.len() && (#[trigger] days[k]).name == (#[trigger] now[i]).name && forall|
            j: int,
        |
            0 <= j < now[i].lines.len() ==> days[k].lines.contains(#[trigger] now[i].lines[j]) by {
        if i < before.len() {
            assert(now[i] == before[i]);
            let k = choose|k: int|
                0 <= k < rest.len() && (#[trigger] rest[k]).name == before[i].name && forall|
                    j: int,
                |
                    0 <= j < before[i].lines.len() ==> rest[k].lines.contains(
                        #[trigger] before[i].lines[j],
                    );
            assert(days[k] == rest[k]);
        } else {
            assert(days[days.len() - 1] == days.last());
        }
    }
    assert forall|i: int, j: int| 0 <= i < j < now.len() implies (#[trigger] now[i]).name != (
    #[trigger] now[j]).name by {
        if j == before.len() {
            let k = choose|k: int|
                0 <= k < rest.len() && (#[trigger] rest[k]).name == before[i].name && forall|
                    j: int,
                |
                    0 <= j < before[i].lines.len() ==> rest[k].lines.contains(
                        #[trigger] before[i].lines[j],
                    );
            assert(days[k] == rest[k]);
            assert(days[k].name != days[days.len() - 1].name);
        } else {
            assert(before[i].name != before[j].name);
        }
    }
}

proof fn lemma_tidy_prefix(days: Seq<DayView>)
    requires
        tidy_days(days),
        days.len() > 0,
    ensures
        tidy_days(days.drop_last()),
{
    let rest = days.drop_last();
    assert forall|i: int, j: int| 0 <= i < j < rest.len() implies (#[trigger] rest[i]).name != (
    #[trigger] rest[j]).name by {
        assert(days[i].name != days[j].name);
    }
    assert forall|i: int, j: int|
        0 <= i < rest.len() && 0 <= j < rest[i].lines.len() && (
        #[trigger] rest[i].lines[j]).event is Some implies store::day_name(
        rest[i].lines[j].event->0.ts_ms,
    ) == rest[i].name by {
        assert(days[i].lines[j] == rest[i].lines[j]);
    }
}

proof fn lemma_thinned_tidy(days: Seq<DayView>, now: Seq<DayView>)
    requires
        tidy_days(days),
        thinned(days, now),
    ensures
        tidy_days(now),
{
    assert forall|i: int, j: int|
        0 <= i < now.len() && 0 <= j < now[i].lines.len() && (
        #[trigger] now[i].lines[j]).event is Some implies store::day_name(
        now[i].lines[j].event->0.ts_ms,
    ) == now[i].name by {
        let k = choose|k: int|
            0 <= k < days.len() && (#[trigger] days[k]).name == now[i].name && forall|j: int|
                0 <= j < now[i].lines.len() ==> days[k].lines.contains(#[trigger] now[i].lines[j]);
        assert(days[k].lines.contains(now[i].lines[j]));
        let m = choose|m: int| 0 <= m < days[k].lines.len() && days[k].lines[m] == now[i].lines[j];
        assert(days[k].lines[m].event is Some);
    }
}

proof fn lemma_expired_thinned(days: Seq<DayView>, cutoff: u64)
    requires
        tidy_days(days),
    ensures
        thinned(days, store::expired_days(days, cutoff)),
    decreases days.len(),
{
    if days.len() > 0 {
        lemma_tidy_prefix(days);
        lemma_expired_thinned(days.drop_last(), cutoff);
        let drop_it = |l: LineView| store::has_expired(l, cutoff);
        lemma_kept_subset(days.last().lines, drop_it);
        let lines = store::kept_lines(days.last().lines, drop_it);
        lemma_thinned_push(
            days,
            store::expired_days(days.drop_last(), cutoff),
            lines,
            lines.len() == 0,
        );
    }
}

proof fn lemma_purged_thinned(days: Seq<DayView>, id: Seq<char>)
    requires
        tidy_days(days),
    ensures
        thinned(days, store::purged_days(days, id)),
    decreases days.len(),
{
    if days.len() > 0 {
        lemma_tidy_prefix(days);
        lemma_purged_thinned(days.drop_last(), id);
        let drop_it = |l: LineView| store::holds_id(l, id);
        lemma_kept_subset(days.last().lines, drop_it);
        let lines = store::kept_lines(days.last().lines, drop_it);
        lemma_thinned_push(
            days,
            store::purged_days(days.drop_last(), id),
            lines,
            lines.len() == 0 && days.last().lines.len() > 0,
        );
    }
}

/// Expiry and deletion keep a store tidy.
pub proof fn lemma_drops_keep_tidy(s: StoreView, cutoff: u64, id: Seq<char>)
    requires
        tidy(s),
    ensures
        tidy(StoreView { days: store::expired_days(s.days, cutoff), ..s }),
        tidy(store::purged(s, id)),
{
    lemma_expired_thinned(s.days, cutoff);
    lemma_thinned_tidy(s.days, store::expired_days(s.days, cutoff));
    lemma_purged_thinned(s.days, id);
    lemma_thinned_tidy(s.days, store::purged_days(s.days, id));
    sorted_map::lemma_without(s.facts, id);
    sorted_map::lemma_without(s.procedural, id);
    let named = |e: (Seq<char>, FactView)| e.0 == e.1.id;
    assert forall|i: int| 0 <= i < s.facts.len() implies named(#[trigger] s.facts[i]) by {}
    sorted_map::lemma_without_all(s.facts, id, named);
    let facts = sorted_map::without(s.facts, id);
    assert forall|i: int| 0 <= i < facts.len() implies (#[trigger] facts[i]).0 == facts[i].1.id by {
        assert(named(facts[i]));
    }
    let good = |e: (Seq<char>, ProceduralView)|
        e.0 == e.1.key && protocol::clamped(e.1.confidence) == e.1.confidence;
    assert forall|i: int| 0 <= i < s.procedural.len() implies good(#[trigger] s.procedural[i]) by {}
    sorted_map::lemma_without_all(s.procedural, id, good);
    let entries = sorted_map::without(s.procedural, id);
    assert forall|i: int| 0 <= i < entries.len() implies (#[trigger] entries[i]).0
        == entries[i].1.key && protocol::clamped(entries[i].1.confidence)
        == entries[i].1.confidence by {
        assert(good(entries[i]));
    }
}

proof fn lemma_tidy_with_facts(s: StoreView, facts: Seq<FactView>)
    requires
        tidy(s),
    ensures
        tidy(store::with_facts(s, facts)),
    decreases facts.len(),
{
    if facts.len() > 0 {
        lemma_tidy_with_facts(s, facts.drop_last());
        let f = facts.last();
        lemma_tidy_with_fact(
            store::with_facts(s, facts.drop_last()),
            f.id,
            f.topic,
            f.content,
            f.updated_ms,
        );
    }
}

proof fn lemma_tidy_with_procedures(s: StoreView, entries: Seq<ProceduralView>)
    requires
        tidy(s),
    ensures
        tidy(store::with_procedures(s, entries)),
    decreases entries.len(),
{
    if entries.len() > 0 {
        lemma_tidy_with_procedures(s, entries.drop_last());
        let e = entries.last();
        lemma_tidy_with_procedural(
            store::with_procedures(s, entries.drop_last()),
            e.key,
            e.content,
            e.confidence,
            e.correction,
            e.updated_ms,
        );
    }
}

proof fn lemma_tidy_with_new(s: StoreView, known: Seq<EpisodeView>, events: Seq<EpisodeView>)
    requires
        tidy(s),
    ensures
        tidy(store::with_new_episodes(s, known, events)),
    decreases events.len(),
{
    if events.len() > 0 {
        lemma_tidy_with_new(s, known, events.drop_last());
        lemma_tidy_with_episode(
            store::with_new_episodes(s, known, events.drop_last()),
            events.last(),
        );
    }
}

/// Importing keeps a store tidy.
pub proof fn lemma_import_keeps_tidy(s: StoreView, snap: SnapshotView)
    requires
        tidy(s),
    ensures
        tidy(store::imported(s, snap)),
{
    let a = StoreView { profile: snap.profile, ..s };
    lemma_tidy_with_facts(a, snap.facts);
    let b = store::with_facts(a, snap.facts);
    lemma_tidy_with_procedures(b, snap.procedural);
    let c = store::with_procedures(b, snap.procedural);
    lemma_tidy_with_new(c, store::episodes(s.days), snap.episodes);
}

// ---------------------------------------------------------------------------
// Export and import
// ---------------------------------------------------------------------------

proof fn lemma_facts_come_back(s: StoreView, facts: Seq<(Seq<char>, FactView)>)
    requires
        s.facts.len() == 0,
        tidy_facts(facts),
    ensures
        store::with_facts(s, store::values(facts)).facts == facts,
    decreases facts.len(),
{
    let list = store::values(facts);
    if facts.len() == 0 {
        assert(store::with_facts(s, list).facts =~= facts);
    } else {
        let rest = facts.drop_last();
        let last = facts.last();
        assert(last == facts[facts.len() - 1]);
        assert forall|i: int, j: int| 0 <= i < j < rest.len() implies sorted_map::precedes(
            #[trigger] rest[i].0,
            #[trigger] rest[j].0,
        ) by {
            assert(sorted_map::precedes(facts[i].0, facts[j].0));
        }
        assert forall|i: int| 0 <= i < rest.len() implies (#[trigger] rest[i]).0 == rest[i].1.id by {
            assert(facts[i].0 == facts[i].1.id);
        }
        lemma_facts_come_back(s, rest);
        assert(list.drop_last() =~= store::values(rest));
        if rest.len() > 0 {
            assert(rest.last() == facts[facts.len() - 2]);
            assert(sorted_map::precedes(facts[facts.len() - 2].0, facts[facts.len() - 1].0));
        }
        assert(facts =~= rest.push(last));
    }
}

proof fn lemma_procedures_come_back(s: StoreView, entries: Seq<(Seq<char>, ProceduralView)>)
    requires
        s.procedural.len() == 0,
        tidy_procedural(entries),
    ensures
        store::with_procedures(s, store::values(entries)).procedural == entries,
    decreases entries.len(),
{
    let list = store::values(entries);
    if entries.len() == 0 {
        assert(store::with_procedures(s, list).procedural =~= entries);
    } else {
        let rest = entries.drop_last();
        let last = entries.last();
        assert(last == entries[entries.len() - 1]);
        assert forall|i: int, j: int| 0 <= i < j < rest.len() implies sorted_map::precedes(
            #[trigger] rest[i].0,
            #[trigger] rest[j].0,
        ) by {
            assert(sorted_map::precedes(entries[i].0, entries[j].0));
        }
        assert forall|i: int| 0 <= i < rest.len() implies (#[trigger] rest[i]).0 == rest[i].1.key
            && protocol::clamped(rest[i].1.confidence) == rest[i].1.confidence by {
            assert(entries[i].0 == entries[i].1.key);
        }
        lemma_procedures_come_back(s, rest);
        assert(list.drop_last() =~= store::values(rest));
        if rest.len() > 0 {
            assert(rest.last() == entries[entries.len() - 2]);
            assert(sorted_map::precedes(
                entries[entries.len() - 2].0,
                entries[entries.len() - 1].0,
            ));
        }
        assert(entries =~= rest.push(last));
    }
}

/// Whether a file of this name is listed.
spec fn listed(days: Seq<DayView>, name: Seq<char>) -> bool {
    exists|i: int| 0 <= i < days.len() && (#[trigger] days[i]).name == name
}

proof fn lemma_new_concat(
    s: StoreView,
    known: Seq<EpisodeView>,
    a: Seq<EpisodeView>,
    b: Seq<EpisodeView>,
)
    ensures
        store::with_new_episodes(s, known, a + b) == store::with_new_episodes(
            store::with_new_episodes(s, known, a),
            known,
            b,
        ),
    decreases b.len(),
{
    if b.len() == 0 {
        assert(a + b =~= a);
    } else {
        assert((a + b).drop_last() =~= a + b.drop_last());
        lemma_new_concat(s, known, a, b.drop_last());
    }
}

/// Adding the events of one day to files among which that day is not listed yet
/// lists it last, with these events.
proof fn lemma_new_day(s: StoreView, events: Seq<EpisodeView>, name: Seq<char>) -> (lines: Seq<
    LineView,
>)
    requires
        !listed(s.days, name),
        forall|i: int| 0 <= i < events.len() ==> store::day_name((#[trigger] events[i]).ts_ms)
            == name,
    ensures
        store::with_new_episodes(s, Seq::empty(), events) == (StoreView {
            days: if events.len() == 0 {
                s.days
            } else {
                s.days.push(DayView { name, lines })
            },
            ..s
        }),
        store::line_events(lines) == events,
    decreases events.len(),
{
    if events.len() == 0 {
        let lines = Seq::<LineView>::empty();
        assert(store::line_events(lines) =~= events);
        lines
    } else {
        let rest = events.drop_last();
        let last = events.last();
        assert(last == events[events.len() - 1]);
        assert forall|i: int| 0 <= i < rest.len() implies store::day_name(
            (#[trigger] rest[i]).ts_ms,
        ) == name by {
            assert(rest[i] == events[i]);
        }
        let before = lemma_new_day(s, rest, name);
        let t = store::with_new_episodes(s, Seq::empty(), rest);
        let line = store::event_line(last);
        let at = s.days.len() as int;
        assert(!store::has_event(Seq::<EpisodeView>::empty(), last.id));
        assert forall|k: int| 0 <= k < at implies (#[trigger] t.days[k]).name != name by {
            assert(t.days[k] == s.days[k]);
        }
        store::lemma_with_line_at(t.days, name, line, at);
        let lines = if rest.len() == 0 {
            seq![line]
        } else {
            before.push(line)
        };
        if rest.len() == 0 {
            assert(rest =~= Seq::<EpisodeView>::empty());
            assert(seq![line].drop_last() =~= Seq::<LineView>::empty());
            assert(store::line_events(Seq::<LineView>::empty()) =~= Seq::<EpisodeView>::empty());
        } else {
            assert(before.push(line).drop_last() =~= before);
            assert(t.days.update(at, DayView { name, lines }) =~= s.days.push(
                DayView { name, lines },
            ));
        }
        assert(events =~= rest.push(last));
        lines
    }
}

proof fn lemma_line_events_from(lines: Seq<LineView>)
    ensures
        forall|k: int|
            0 <= k < store::line_events(lines).len() ==> exists|j: int|
                0 <= j < lines.len() && (#[trigger] lines[j]).event == Some(
                    #[trigger] store::line_events(lines)[k],
                ),
    decreases lines.len(),
{
    if lines.len() > 0 {
        let rest = lines.drop_last();
        lemma_line_events_from(rest);
        let events = store::line_events(lines);
        let inner = store::line_events(rest);
        assert forall|k: int| 0 <= k < events.len() implies exists|j: int|
            0 <= j < lines.len() && (#[trigger] lines[j]).event == Some(#[trigger] events[k]) by {
            if k < inner.len() {
                assert(events[k] == inner[k]);
                let j = choose|j: int|
                    0 <= j < rest.len() && (#[trigger] rest[j]).event == Some(inner[k]);
                assert(lines[j] == rest[j]);
            } else {
                assert(lines[lines.len() - 1].event == Some(events[k]));
            }
        }
    }
}

proof fn lemma_episodes_come_back(s: StoreView, days: Seq<DayView>)
    requires
        s.days.len() == 0,
        tidy_days(days),
    ensures
        ({
            let now = store::with_new_episodes(s, Seq::empty(), store::episodes(days));
            &&& store::episodes(now.days) == store::episodes(days)
            &&& now == (StoreView { days: now.days, ..s })
            &&& forall|i: int| 0 <= i < now.days.len() ==> listed(days, (#[trigger] now.days[i]).name)
        }),
    decreases days.len(),
{
    if days.len() == 0 {
        assert(s.days =~= days);
    } else {
        let rest = days.drop_last();
        let last = days.last();
        assert(last == days[days.len() - 1]);
        lemma_tidy_prefix(days);
        lemma_episodes_come_back(s, rest);
        let t = store::with_new_episodes(s, Seq::empty(), store::episodes(rest));
        let events = store::line_events(last.lines);
        lemma_new_concat(s, Seq::empty(), store::episodes(rest), events);
        assert(!listed(t.days, last.name)) by {
            if listed(t.days, last.name) {
                let i = choose|i: int|
                    0 <= i < t.days.len() && (#[trigger] t.days[i]).name == last.name;
                assert(listed(rest, t.days[i].name));
                let k = choose|k: int| 0 <= k < rest.len() && (#[trigger] rest[k]).name
                    == t.days[i].name;
                assert(days[k].name != days[days.len() - 1].name);
            }
        }
        lemma_line_events_from(last.lines);
        assert forall|i: int| 0 <= i < events.len() implies store::day_name(
            (#[trigger] events[i]).ts_ms,
        ) == last.name by {
            let j = choose|j: int|
                0 <= j < last.lines.len() && (#[trigger] last.lines[j]).event == Some(events[i]);
            assert(days[days.len() - 1].lines[j].event is Some);
        }
        let lines = lemma_new_day(t, events, last.name);
        let now = store::with_new_episodes(s, Seq::empty(), store::episodes(days));
        if events.len() == 0 {
            assert(store::episodes(rest) + events =~= store::episodes(rest));
        } else {
            assert(now.days.drop_last() =~= t.days);
        }
        assert forall|i: int| 0 <= i < now.days.len() implies listed(
            days,
            (#[trigger] now.days[i]).name,
        ) by {
            if i < t.days.len() {
                assert(now.days[i] == t.days[i]);
                assert(listed(rest, t.days[i].name));
                let k = choose|k: int| 0 <= k < rest.len() && (#[trigger] rest[k]).name
                    == t.days[i].name;
                assert(days[k].name == now.days[i].name);
            } else {
                assert(days[days.len() - 1].name == now.days[i].name);
            }
        }
    }
}

/// A snapshot of a tidy store, imported into an empty store, comes back exactly.
pub proof fn lemma_snapshot_comes_back(a: StoreView)
    requires
        tidy(a),
    ensures
        store::snapshot_view(store::imported(store::empty_store(), store::snapshot_view(a)))
            == store::snapshot_view(a),
{
    let snap = store::snapshot_view(a);
    let empty = store::empty_store();
    let s0 = StoreView { profile: snap.profile, ..empty };
    lemma_facts_come_back(s0, a.facts);
    store::lemma_puts_keep_days(s0, snap.facts, Seq::empty());
    let s1 = store::with_facts(s0, snap.facts);
    lemma_procedures_come_back(s1, a.procedural);
    store::lemma_puts_keep_days(s1, Seq::empty(), snap.procedural);
    let s2 = store::with_procedures(s1, snap.procedural);
    assert(store::episodes(empty.days) =~= Seq::<EpisodeView>::empty());
    lemma_episodes_come_back(s2, a.days);
}

/// The map with facts put in.
spec fn fact_map(facts: Seq<FactView>) -> Map<Seq<char>, FactView>
    decreases facts.len(),
{
    if facts.len() == 0 {
        Map::empty()
    } else {
        fact_map(facts.drop_last()).insert(facts.last().id, facts.last())
    }
}

proof fn lemma_facts_as_union(s: StoreView, facts: Seq<FactView>)
    requires
        sorted_map::ascending(s.facts),
    ensures
        sorted_map::ascending(store::with_facts(s, facts).facts),
        sorted_map::as_map(store::with_facts(s, facts).facts) == sorted_map::as_map(
            s.facts,
        ).union_prefer_right(fact_map(facts)),
    decreases facts.len(),
{
    if facts.len() == 0 {
        assert(sorted_map::as_map(s.facts) =~= sorted_map::as_map(s.facts).union_prefer_right(
            fact_map(facts),
        ));
    } else {
        let f = facts.last();
        lemma_facts_as_union(s, facts.drop_last());
        let before = store::with_facts(s, facts.drop_last()).facts;
        let fact = FactView {
            id: f.id,
            topic: f.topic,
            content: f.content,
            updated_ms: f.updated_ms,
        };
        assert(fact == f);
        sorted_map::lemma_put(before, f.id, f);
        assert(sorted_map::as_map(store::with_facts(s, facts).facts) =~= sorted_map::as_map(
            s.facts,
        ).union_prefer_right(fact_map(facts)));
    }
}

/// An entry with its confidence held between zero and one.
spec fn held(e: ProceduralView) -> ProceduralView {
    ProceduralView { confidence: protocol::clamped(e.confidence), ..e }
}

spec fn procedural_map(entries: Seq<ProceduralView>) -> Map<Seq<char>, ProceduralView>
    decreases entries.len(),
{
    if entries.len() == 0 {
        Map::empty()
    } else {
        procedural_map(entries.drop_last()).insert(entries.last().key, held(entries.last()))
    }
}

proof fn lemma_procedures_as_union(s: StoreView, entries: Seq<ProceduralView>)
    requires
        sorted_map::ascending(s.procedural),
    ensures
        sorted_map::ascending(store::with_procedures(s, entries).procedural),
        sorted_map::as_map(store::with_procedures(s, entries).procedural) == sorted_map::as_map(
            s.procedural,
        ).union_prefer_right(procedural_map(entries)),
    decreases entries.len(),
{
    if entries.len() == 0 {
        assert(sorted_map::as_map(s.procedural) =~= sorted_map::as_map(
            s.procedural,
        ).union_prefer_right(procedural_map(entries)));
    } else {
        let e = entries.last();
        lemma_procedures_as_union(s, entries.drop_last());
        let before = store::with_procedures(s, entries.drop_last()).procedural;
        sorted_map::lemma_put(before, e.key, held(e));
        assert(sorted_map::as_map(store::with_procedures(s, entries).procedural)
            =~= sorted_map::as_map(s.procedural).union_prefer_right(procedural_map(entries)));
    }
}

proof fn lemma_all_known(s: StoreView, known: Seq<EpisodeView>, events: Seq<EpisodeView>)
    requires
        forall|i: int| 0 <= i < events.len() ==> store::has_event(known, (#[trigger] events[i]).id),
    ensures
        store::with_new_episodes(s, known, events) == s,
    decreases events.len(),
{
    if events.len() > 0 {
        let rest = events.drop_last();
        assert(events.last() == events[events.len() - 1]);
        assert forall|i: int| 0 <= i < rest.len() implies store::has_event(
            known,
            (#[trigger] rest[i]).id,
        ) by {
            assert(rest[i] == events[i]);
        }
        lemma_all_known(s, known, rest);
    }
}

proof fn lemma_new_are_there(s: StoreView, known: Seq<EpisodeView>, events: Seq<EpisodeView>)
    requires
        known == store::episodes(s.days),
    ensures
        ({
            let now = store::episodes(store::with_new_episodes(s, known, events).days);
            &&& forall|id: Seq<char>|
                store::has_event(known, id) ==> #[trigger] store::has_event(now, id)
            &&& forall|i: int|
                0 <= i < events.len() ==> store::has_event(now, (#[trigger] events[i]).id)
        }),
    decreases events.len(),
{
    if events.len() > 0 {
        let rest = events.drop_last();
        let last = events.last();
        lemma_new_are_there(s, known, rest);
        let t = store::with_new_episodes(s, known, rest);
        let before = store::episodes(t.days);
        let now = store::episodes(store::with_new_episodes(s, known, events).days);
        if !store::has_event(known, last.id) {
            let at = lemma_append_keeps(
                t.days,
                store::day_name(last.ts_ms),
                store::event_line(last),
            );
            assert(now == before.insert(at as int, last));
            assert(now[at as int].id == last.id);
            assert forall|id: Seq<char>| store::has_event(before, id) implies
                #[trigger] store::has_event(now, id) by {
                let k = choose|k: int| 0 <= k < before.len() && (#[trigger] before[k]).id == id;
                if k < at {
                    assert(now[k].id == id);
                } else {
                    assert(now[k + 1].id == id);
                }
            }
        }
        assert forall|i: int| 0 <= i < events.len() implies store::has_event(
            now,
            (#[trigger] events[i]).id,
        ) by {
            if i < rest.len() {
                assert(rest[i] == events[i]);
                assert(store::has_event(before, rest[i].id));
            } else {
                assert(events[i] == last);
            }
        }
    }
}

proof fn lemma_new_only_days(s: StoreView, known: Seq<EpisodeView>, events: Seq<EpisodeView>)
    ensures
        store::with_new_episodes(s, known, events) == (StoreView {
            days: store::with_new_episodes(s, known, events).days,
            ..s
        }),
    decreases events.len(),
{
    if events.len() > 0 {
        lemma_new_only_days(s, known, events.drop_last());
    }
}

/// Importing the same snapshot a second time changes nothing.
pub proof fn lemma_import_twice(s: StoreView, snap: SnapshotView)
    requires
        sorted_map::ascending(s.facts),
        sorted_map::ascending(s.procedural),
    ensures
        store::imported(store::imported(s, snap), snap) == store::imported(s, snap),
{
    let s0 = StoreView { profile: snap.profile, ..s };
    let s1 = store::with_facts(s0, snap.facts);
    let s2 = store::with_procedures(s1, snap.procedural);
    let known = store::episodes(s.days);
    let once = store::imported(s, snap);
    store::lemma_puts_keep_days(s0, snap.facts, Seq::empty());
    store::lemma_puts_keep_days(s1, Seq::empty(), snap.procedural);
    lemma_facts_as_union(s0, snap.facts);
    lemma_procedures_as_union(s1, snap.procedural);
    lemma_new_only_days(s2, known, snap.episodes);
    lemma_new_are_there(s2, known, snap.episodes);
    let t0 = StoreView { profile: snap.profile, ..once };
    let t1 = store::with_facts(t0, snap.facts);
    let t2 = store::with_procedures(t1, snap.procedural);
    store::lemma_puts_keep_days(t0, snap.facts, Seq::empty());
    store::lemma_puts_keep_days(t1, Seq::empty(), snap.procedural);
    lemma_facts_as_union(t0, snap.facts);
    lemma_procedures_as_union(t1, snap.procedural);
    assert(sorted_map::as_map(t1.facts) =~= sorted_map::as_map(once.facts));
    sorted_map::lemma_same_map(t1.facts, once.facts);
    assert(sorted_map::as_map(t2.procedural) =~= sorted_map::as_map(once.procedural));
    sorted_map::lemma_same_map(t2.procedural, once.procedural);
    assert(t2 == once);
    lemma_all_known(t2, store::episodes(once.days), snap.episodes);
}

} // verus!
