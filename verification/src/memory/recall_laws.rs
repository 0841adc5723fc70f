//! What a reader of memory gets: what was written, all of it that fits the question, and
//! nothing else.

use vstd::prelude::*;
use crate::memory::protocol;
use crate::memory::protocol::EpisodeView;
use crate::memory::protocol::FactView;
use crate::memory::protocol::HitView;
use crate::memory::protocol::MemoryHit;
use crate::memory::protocol::MemoryLayer;
use crate::memory::protocol::ProceduralView;
use crate::memory::protocol::Score;
use crate::memory::store;
use crate::memory::store::MemoryStore;
use crate::memory::store::StoreView;
use crate::sort;
use crate::sort::Rank;
use crate::sorted_map;
use crate::text;

verus! {

// ---------------------------------------------------------------------------
// Picking
// ---------------------------------------------------------------------------

/// What a choice gives for the values, in order.
pub open spec fn picked<E, X>(values: Seq<E>, choice: spec_fn(E) -> Option<X>) -> Seq<X>
    decreases values.len(),
{
    if values.len() == 0 {
        Seq::empty()
    } else {
        match choice(values.last()) {
            Some(x) => picked(values.drop_last(), choice).push(x),
            None => picked(values.drop_last(), choice),
        }
    }
}

/// A choice picks what it gives for some value, for each of them once, and nothing else.
pub proof fn lemma_picked<E, X>(values: Seq<E>, choice: spec_fn(E) -> Option<X>)
    ensures
        forall|i: int|
            0 <= i < values.len() ==> (choice(#[trigger] values[i]) matches Some(x) ==> picked(
                values,
                choice,
            ).contains(x)),
        forall|k: int|
            0 <= k < picked(values, choice).len() ==> exists|i: int|
                0 <= i < values.len() && choice(#[trigger] values[i]) == Some(
                    #[trigger] picked(values, choice)[k],
                ),
        picked(values, choice).len() == values.filter(|e: E| choice(e) is Some).len(),
    decreases values.len(),
{
    reveal(Seq::filter);
    if values.len() > 0 {
        let rest = values.drop_last();
        let all = picked(values, choice);
        lemma_picked(rest, choice);
        let n = values.len() - 1;
        assert forall|i: int| 0 <= i < values.len() implies (choice(#[trigger] values[i]) matches Some(
            x,
        ) ==> all.contains(x)) by {
            if choice(values[i]) is Some {
                let x = choice(values[i])->0;
                if i < n {
                    assert(rest[i] == values[i]);
                    assert(picked(rest, choice).contains(x));
                    let k = picked(rest, choice).index_of(x);
                    assert(all[k] == x);
                } else {
                    assert(all.last() == x);
                }
            }
        }
        assert forall|k: int| 0 <= k < all.len() implies exists|i: int|
            0 <= i < values.len() && choice(#[trigger] values[i]) == Some(#[trigger] all[k]) by {
            if k < picked(rest, choice).len() {
                assert(all[k] == picked(rest, choice)[k]);
                let i = choose|i: int|
                    0 <= i < rest.len() && choice(#[trigger] rest[i]) == Some(
                        picked(rest, choice)[k],
                    );
                assert(values[i] == rest[i]);
            } else {
                assert(choice(values[n]) == Some(all[k]));
            }
        }
    }
}

// ---------------------------------------------------------------------------
// Searching
// ---------------------------------------------------------------------------

/// How many of the terms stand in a text, whatever the case of its letters.
pub open spec fn found_in(terms: Seq<Seq<char>>, subject: Seq<char>) -> nat {
    terms.filter(|t: Seq<char>| text::occurs(text::lowercase(subject), t)).len()
}

/// How a procedural entry is found: by its content.
pub open spec fn entry_found(e: ProceduralView, terms: Seq<Seq<char>>) -> Option<HitView> {
    let n = found_in(terms, e.content);
    if n == 0 {
        None
    } else {
        Some(
            HitView {
                layer: MemoryLayer::Procedural,
                id: e.key,
                score: Score::Share {
                    matched: n as usize,
                    terms: terms.len() as usize,
                    boosted: e.correction,
                },
                content: e.content,
                ts_ms: e.updated_ms,
            },
        )
    }
}

/// How a fact is found: by its topic and its content.
pub open spec fn fact_found(f: FactView, terms: Seq<Seq<char>>) -> Option<HitView> {
    let n = found_in(terms, f.topic + " "@ + f.content);
    if n == 0 {
        None
    } else {
        Some(
            HitView {
                layer: MemoryLayer::Semantic,
                id: f.id,
                score: Score::Share {
                    matched: n as usize,
                    terms: terms.len() as usize,
                    boosted: false,
                },
                content: f.content,
                ts_ms: f.updated_ms,
            },
        )
    }
}

/// How an event is found: by its kind, its summary and its outcome.
pub open spec fn event_found(e: EpisodeView, terms: Seq<Seq<char>>) -> Option<HitView> {
    let n = found_in(terms, e.kind + " "@ + e.summary + " "@ + e.outcome);
    if n == 0 {
        None
    } else {
        Some(
            HitView {
                layer: MemoryLayer::Episodic,
                id: e.id,
                score: Score::Share {
                    matched: n as usize,
                    terms: terms.len() as usize,
                    boosted: false,
                },
                content: e.summary,
                ts_ms: e.ts_ms,
            },
        )
    }
}

/// Whether a list of layers asks for a layer; an empty list asks for all.
pub open spec fn asked(layers: Seq<MemoryLayer>, layer: MemoryLayer) -> bool {
    layers.len() == 0 || layers.contains(layer)
}

/// The relevance of a hit in quarters of a term: the found terms, a quarter of all terms more
/// for a correction, and no more than all terms.
pub open spec fn relevance(hit: HitView) -> int {
    match hit.score {
        Score::Share { matched, terms, boosted } => vstd::math::min(
            4 * matched + if boosted { terms as int } else { 0 },
            4 * terms,
        ),
        _ => 0,
    }
}

/// Whether a hit is worth more than another: it is more relevant, or as relevant and more
/// recent.
pub open spec fn better(a: HitView, b: HitView) -> bool {
    relevance(a) > relevance(b) || (relevance(a) == relevance(b) && a.ts_ms > b.ts_ms)
}

/// Whether a hit is shown, or as many as asked for are shown of which none is worth less.
pub open spec fn shown(hits: Seq<HitView>, hit: HitView, limit: nat) -> bool {
    hits.contains(hit) || (hits.len() == limit && forall|k: int|
        0 <= k < hits.len() ==> !better(hit, #[trigger] hits[k]))
}

proof fn lemma_matched(terms: Seq<Seq<char>>, subject: Seq<char>)
    ensures
        store::matched(terms, subject) == found_in(terms, subject),
        found_in(terms, subject) <= terms.len(),
    decreases terms.len(),
{
    reveal(Seq::filter);
    if terms.len() > 0 {
        lemma_matched(terms.drop_last(), subject);
    }
}

spec fn ranked(hit: HitView) -> (Rank, HitView) {
    (Rank { first: relevance(hit) as u128, second: hit.ts_ms }, hit)
}

spec fn ranked_if(hit: Option<HitView>) -> Option<(Rank, HitView)> {
    match hit {
        Some(h) => Some(ranked(h)),
        None => None,
    }
}

proof fn lemma_procedural_picked(
    entries: Seq<(Seq<char>, ProceduralView)>,
    terms: Seq<Seq<char>>,
)
    requires
        terms.len() <= usize::MAX,
    ensures
        store::procedural_hits(entries, terms) == picked(
            entries,
            |e: (Seq<char>, ProceduralView)| ranked_if(entry_found(e.1, terms)),
        ),
    decreases entries.len(),
{
    if entries.len() > 0 {
        lemma_procedural_picked(entries.drop_last(), terms);
        lemma_matched(terms, entries.last().1.content);
    }
}

proof fn lemma_facts_picked(entries: Seq<(Seq<char>, FactView)>, terms: Seq<Seq<char>>)
    requires
        terms.len() <= usize::MAX,
    ensures
        store::fact_hits(entries, terms) == picked(
            entries,
            |e: (Seq<char>, FactView)| ranked_if(fact_found(e.1, terms)),
        ),
    decreases entries.len(),
{
    if entries.len() > 0 {
        lemma_facts_picked(entries.drop_last(), terms);
        let f = entries.last().1;
        lemma_matched(terms, f.topic + " "@ + f.content);
    }
}

proof fn lemma_events_picked(events: Seq<EpisodeView>, terms: Seq<Seq<char>>)
    requires
        terms.len() <= usize::MAX,
    ensures
        store::episode_hits(events, terms) == picked(
            events,
            |e: EpisodeView| ranked_if(event_found(e, terms)),
        ),
    decreases events.len(),
{
    if events.len() > 0 {
        lemma_events_picked(events.drop_last(), terms);
        let e = events.last();
        lemma_matched(terms, e.kind + " "@ + e.summary + " "@ + e.outcome);
    }
}

proof fn lemma_shown(all: Seq<(Rank, HitView)>, limit: nat)
    requires
        forall|i: int| 0 <= i < all.len() ==> (#[trigger] all[i]) == ranked(all[i].1),
        forall|i: int|
            0 <= i < all.len() ==> 0 <= relevance((#[trigger] all[i]).1) <= 0x4_0000_0000_0000_0000,
    ensures
        ({
            let hits = sort::top(all, limit);
            &&& hits.len() == (if all.len() <= limit { all.len() } else { limit })
            &&& forall|i: int| 0 <= i < all.len() ==> shown(hits, (#[trigger] all[i]).1, limit)
            &&& forall|k: int|
                0 <= k < hits.len() ==> exists|i: int|
                    0 <= i < all.len() && (#[trigger] all[i]).1 == #[trigger] hits[k]
            &&& forall|i: int, j: int|
                0 <= i < j < hits.len() ==> !better(#[trigger] hits[j], #[trigger] hits[i])
        }),
{
    let hits = sort::top(all, limit);
    let sorted = sort::in_ranks(all);
    sort::lemma_top(all, limit);
    sort::lemma_in_ranks(all);
    let places = sort::lemma_places(all);
    assert forall|i: int| 0 <= i < all.len() implies shown(hits, (#[trigger] all[i]).1, limit) by {
        assert(places.contains(i));
        let j = places.index_of(i);
        if j < hits.len() {
            assert(hits[j] == sorted[j].1);
            assert(hits.contains(all[i].1));
        } else {
            assert forall|k: int| 0 <= k < hits.len() implies !better(
                all[i].1,
                #[trigger] hits[k],
            ) by {
                assert(sort::leads(all, places[k], places[j]));
                assert(hits[k] == sorted[k].1);
                assert(sorted[k] == all[places[k]]);
                assert(all[places[k]] == ranked(all[places[k]].1));
                assert(all[i] == ranked(all[i].1));
            }
        }
    }
    assert forall|k: int| 0 <= k < hits.len() implies exists|i: int|
        0 <= i < all.len() && (#[trigger] all[i]).1 == #[trigger] hits[k] by {
        assert(hits[k] == sorted[k].1);
        assert(all[places[k]].1 == hits[k]);
    }
    assert forall|i: int, j: int| 0 <= i < j < hits.len() implies !better(
        #[trigger] hits[j],
        #[trigger] hits[i],
    ) by {
        assert(hits[i] == sorted[i].1 && hits[j] == sorted[j].1);
        assert(sort::leads(all, places[i], places[j]));
        assert(all[places[i]] == ranked(all[places[i]].1));
        assert(all[places[j]] == ranked(all[places[j]].1));
    }
}

proof fn lemma_relevance_bound(hit: HitView)
    ensures
        0 <= relevance(hit) <= 0x4_0000_0000_0000_0000,
{
}

proof fn lemma_all_shown(s: StoreView, terms: Seq<Seq<char>>, layers: Seq<MemoryLayer>, limit: nat)
    requires
        0 < terms.len() <= usize::MAX,
    ensures
        ({
            let all = store::all_hits(s, terms, layers);
            let hits = sort::top(all, limit);
            &&& forall|i: int| 0 <= i < all.len() ==> shown(hits, (#[trigger] all[i]).1, limit)
            &&& forall|k: int|
                0 <= k < hits.len() ==> exists|i: int|
                    0 <= i < all.len() && (#[trigger] all[i]).1 == #[trigger] hits[k]
            &&& forall|i: int, j: int|
                0 <= i < j < hits.len() ==> !better(#[trigger] hits[j], #[trigger] hits[i])
        }),
{
    let events = store::episodes(s.days);
    let all = store::all_hits(s, terms, layers);
    let fp = |e: (Seq<char>, ProceduralView)| ranked_if(entry_found(e.1, terms));
    let ff = |e: (Seq<char>, FactView)| ranked_if(fact_found(e.1, terms));
    let fe = |e: EpisodeView| ranked_if(event_found(e, terms));
    lemma_procedural_picked(s.procedural, terms);
    lemma_facts_picked(s.facts, terms);
    lemma_events_picked(events, terms);
    lemma_picked(s.procedural, fp);
    lemma_picked(s.facts, ff);
    lemma_picked(events, fe);
    let a = store::if_asked(
        layers,
        MemoryLayer::Procedural,
        store::procedural_hits(s.procedural, terms),
    );
    let b = store::if_asked(layers, MemoryLayer::Semantic, store::fact_hits(s.facts, terms));
    let c = store::if_asked(layers, MemoryLayer::Episodic, store::episode_hits(events, terms));
    assert forall|i: int| 0 <= i < all.len() implies (#[trigger] all[i]) == ranked(all[i].1) && 0
        <= relevance(all[i].1) <= 0x4_0000_0000_0000_0000 by {
        lemma_relevance_bound(all[i].1);
        if i < a.len() {
            assert(all[i] == a[i]);
        } else if i < a.len() + b.len() {
            assert(all[i] == b[i - a.len()]);
        } else {
            assert(all[i] == c[i - a.len() - b.len()]);
        }
    }
    lemma_shown(all, limit);
}

proof fn lemma_hits_of_all(
    a: Seq<(Rank, HitView)>,
    b: Seq<(Rank, HitView)>,
    c: Seq<(Rank, HitView)>,
    hits: Seq<HitView>,
    limit: nat,
)
    requires
        forall|i: int|
            0 <= i < (a + b + c).len() ==> shown(hits, (#[trigger] (a + b + c)[i]).1, limit),
    ensures
        forall|x: (Rank, HitView)| #[trigger] a.contains(x) ==> shown(hits, x.1, limit),
        forall|x: (Rank, HitView)| #[trigger] b.contains(x) ==> shown(hits, x.1, limit),
        forall|x: (Rank, HitView)| #[trigger] c.contains(x) ==> shown(hits, x.1, limit),
{
    let all = a + b + c;
    assert forall|x: (Rank, HitView)| #[trigger] a.contains(x) implies shown(hits, x.1, limit) by {
        let k = a.index_of(x);
        assert(all[k] == x);
    }
    assert forall|x: (Rank, HitView)| #[trigger] b.contains(x) implies shown(hits, x.1, limit) by {
        let k = b.index_of(x);
        assert(all[a.len() + k] == x);
    }
    assert forall|x: (Rank, HitView)| #[trigger] c.contains(x) implies shown(hits, x.1, limit) by {
        let k = c.index_of(x);
        assert(all[a.len() + b.len() + k] == x);
    }
}

proof fn lemma_no_terms(subject: Seq<char>)
    ensures
        found_in(Seq::empty(), subject) == 0,
{
    lemma_matched(Seq::empty(), subject);
}

/// A search finds every entry of the layers asked for that holds a term of the query in its
/// text, in lower case on both sides: a procedural entry by its content, a fact by its topic
/// and content, an event by its kind, summary and outcome. Each is shown with its own id,
/// content and time and with how many terms were found, unless as many as asked for are
/// shown of which none is worth less.
pub proof fn lemma_search_is_complete(
    s: StoreView,
    query: Seq<char>,
    layers: Seq<MemoryLayer>,
    limit: nat,
)
    requires
        text::words(text::lowercase(query)).len() <= usize::MAX,
    ensures
        ({
            let terms = text::words(text::lowercase(query));
            let events = store::episodes(s.days);
            let hits = store::search_view(s, query, layers, limit);
            &&& asked(layers, MemoryLayer::Procedural) ==> forall|i: int|
                0 <= i < s.procedural.len() ==> (entry_found(
                    (#[trigger] s.procedural[i]).1,
                    terms,
                ) matches Some(hit) ==> shown(hits, hit, limit))
            &&& asked(layers, MemoryLayer::Semantic) ==> forall|i: int|
                0 <= i < s.facts.len() ==> (fact_found(
                    (#[trigger] s.facts[i]).1,
                    terms,
                ) matches Some(hit) ==> shown(hits, hit, limit))
            &&& asked(layers, MemoryLayer::Episodic) ==> forall|i: int|
                0 <= i < events.len() ==> (event_found(
                    #[trigger] events[i],
                    terms,
                ) matches Some(hit) ==> shown(hits, hit, limit))
        }),
{
    let terms = text::words(text::lowercase(query));
    let events = store::episodes(s.days);
    let hits = store::search_view(s, query, layers, limit);
    if terms.len() == 0 {
        assert(terms =~= Seq::<Seq<char>>::empty());
        assert forall|subject: Seq<char>| #[trigger] found_in(terms, subject) == 0 by {
            lemma_no_terms(subject);
        }
    } else {
        lemma_all_shown(s, terms, layers, limit);
        let fp = |e: (Seq<char>, ProceduralView)| ranked_if(entry_found(e.1, terms));
        let ff = |e: (Seq<char>, FactView)| ranked_if(fact_found(e.1, terms));
        let fe = |e: EpisodeView| ranked_if(event_found(e, terms));
        let a = store::if_asked(
            layers,
            MemoryLayer::Procedural,
            store::procedural_hits(s.procedural, terms),
        );
        let b = store::if_asked(layers, MemoryLayer::Semantic, store::fact_hits(s.facts, terms));
        let c = store::if_asked(
            layers,
            MemoryLayer::Episodic,
            store::episode_hits(events, terms),
        );
        lemma_hits_of_all(a, b, c, hits, limit);
        lemma_procedural_picked(s.procedural, terms);
        lemma_picked(s.procedural, fp);
        assert forall|i: int|
            0 <= i < s.procedural.len() && asked(layers, MemoryLayer::Procedural) implies (
        entry_found((#[trigger] s.procedural[i]).1, terms) matches Some(hit) ==> shown(
            hits,
            hit,
            limit,
        )) by {
            if entry_found(s.procedural[i].1, terms) is Some {
                assert(a.contains(fp(s.procedural[i])->0));
            }
        }
        lemma_facts_picked(s.facts, terms);
        lemma_picked(s.facts, ff);
        assert forall|i: int|
            0 <= i < s.facts.len() && asked(layers, MemoryLayer::Semantic) implies (fact_found(
            (#[trigger] s.facts[i]).1,
            terms,
        ) matches Some(hit) ==> shown(hits, hit, limit)) by {
            if fact_found(s.facts[i].1, terms) is Some {
                assert(b.contains(ff(s.facts[i])->0));
            }
        }
        lemma_events_picked(events, terms);
        lemma_picked(events, fe);
        assert forall|i: int|
            0 <= i < events.len() && asked(layers, MemoryLayer::Episodic) implies (event_found(
            #[trigger] events[i],
            terms,
        ) matches Some(hit) ==> shown(hits, hit, limit)) by {
            if event_found(events[i], terms) is Some {
                assert(c.contains(fe(events[i])->0));
            }
        }
    }
}

/// A search shows nothing but entries of the layers asked for that hold a term of the query.
/// The more relevant come first, and of two equally relevant ones the more recent.
pub proof fn lemma_search_is_sound(
    s: StoreView,
    query: Seq<char>,
    layers: Seq<MemoryLayer>,
    limit: nat,
)
    requires
        text::words(text::lowercase(query)).len() <= usize::MAX,
    ensures
        ({
            let terms = text::words(text::lowercase(query));
            let events = store::episodes(s.days);
            let hits = store::search_view(s, query, layers, limit);
            &&& hits.len() <= limit
            &&& forall|k: int|
                0 <= k < hits.len() ==> {
                    ||| asked(layers, MemoryLayer::Procedural) && exists|i: int|
                        0 <= i < s.procedural.len() && entry_found(
                            (#[trigger] s.procedural[i]).1,
                            terms,
                        ) == Some(#[trigger] hits[k])
                    ||| asked(layers, MemoryLayer::Semantic) && exists|i: int|
                        0 <= i < s.facts.len() && fact_found((#[trigger] s.facts[i]).1, terms)
                            == Some(hits[k])
                    ||| asked(layers, MemoryLayer::Episodic) && exists|i: int|
                        0 <= i < events.len() && event_found(#[trigger] events[i], terms) == Some(
                            hits[k],
                        )
                }
            &&& forall|i: int, j: int|
                0 <= i < j < hits.len() ==> !better(#[trigger] hits[j], #[trigger] hits[i])
        }),
{
    let terms = text::words(text::lowercase(query));
    let events = store::episodes(s.days);
    let hits = store::search_view(s, query, layers, limit);
    if terms.len() > 0 {
        lemma_all_shown(s, terms, layers, limit);
        let all = store::all_hits(s, terms, layers);
        sort::lemma_top(all, limit);
        let fp = |e: (Seq<char>, ProceduralView)| ranked_if(entry_found(e.1, terms));
        let ff = |e: (Seq<char>, FactView)| ranked_if(fact_found(e.1, terms));
        let fe = |e: EpisodeView| ranked_if(event_found(e, terms));
        let a = store::if_asked(
            layers,
            MemoryLayer::Procedural,
            store::procedural_hits(s.procedural, terms),
        );
        let b = store::if_asked(layers, MemoryLayer::Semantic, store::fact_hits(s.facts, terms));
        let c = store::if_asked(
            layers,
            MemoryLayer::Episodic,
            store::episode_hits(events, terms),
        );
        lemma_procedural_picked(s.procedural, terms);
        lemma_facts_picked(s.facts, terms);
        lemma_events_picked(events, terms);
        lemma_picked(s.procedural, fp);
        lemma_picked(s.facts, ff);
        lemma_picked(events, fe);
        assert forall|k: int| 0 <= k < hits.len() implies {
            ||| asked(layers, MemoryLayer::Procedural) && exists|i: int|
                0 <= i < s.procedural.len() && entry_found((#[trigger] s.procedural[i]).1, terms)
                    == Some(#[trigger] hits[k])
            ||| asked(layers, MemoryLayer::Semantic) && exists|i: int|
                0 <= i < s.facts.len() && fact_found((#[trigger] s.facts[i]).1, terms) == Some(
                    hits[k],
                )
            ||| asked(layers, MemoryLayer::Episodic) && exists|i: int|
                0 <= i < events.len() && event_found(#[trigger] events[i], terms) == Some(hits[k])
        } by {
            let i = choose|i: int|
                0 <= i < all.len() && (#[trigger] all[i]).1 == hits[k];
            if i < a.len() {
                assert(all[i] == a[i]);
                let p = choose|p: int|
                    0 <= p < s.procedural.len() && fp(#[trigger] s.procedural[p]) == Some(a[i]);
                assert(entry_found(s.procedural[p].1, terms) == Some(hits[k]));
            } else if i < a.len() + b.len() {
                let m = i - a.len();
                assert(all[i] == b[m]);
                let p = choose|p: int|
                    0 <= p < s.facts.len() && ff(#[trigger] s.facts[p]) == Some(b[m]);
                assert(fact_found(s.facts[p].1, terms) == Some(hits[k]));
            } else {
                let m = i - a.len() - b.len();
                assert(all[i] == c[m]);
                let p = choose|p: int|
                    0 <= p < events.len() && fe(#[trigger] events[p]) == Some(c[m]);
                assert(event_found(events[p], terms) == Some(hits[k]));
            }
        }
    }
}

/// How many terms of a query a fact holds: each term that stands in the topic or in the
/// content counts, where lower case does not mix the two. So a search whose limit leaves
/// nothing out shows the fact.
pub proof fn lemma_fact_is_found_by_its_content(
    s: StoreView,
    query: Seq<char>,
    layers: Seq<MemoryLayer>,
    limit: nat,
    i: int,
    term: int,
)
    requires
        text::words(text::lowercase(query)).len() <= usize::MAX,
        asked(layers, MemoryLayer::Semantic),
        0 <= i < s.facts.len(),
        0 <= term < text::words(text::lowercase(query)).len(),
        limit >= s.procedural.len() + s.facts.len() + store::episodes(s.days).len(),
        ({
            let f = s.facts[i].1;
            let t = text::words(text::lowercase(query))[term];
            &&& text::lowercase(f.topic + " "@ + f.content) == text::lowercase(f.topic) + " "@
                + text::lowercase(f.content)
            &&& text::occurs(text::lowercase(f.topic), t) || text::occurs(
                text::lowercase(f.content),
                t,
            )
        }),
    ensures
        ({
            let hits = store::search_view(s, query, layers, limit);
            exists|k: int|
                {
                    &&& 0 <= k < hits.len()
                    &&& (#[trigger] hits[k]).layer == MemoryLayer::Semantic
                    &&& hits[k].id == s.facts[i].1.id
                    &&& hits[k].content == s.facts[i].1.content
                    &&& hits[k].score matches Score::Share { matched, .. } && 0 < matched
                }
        }),
{
    let terms = text::words(text::lowercase(query));
    let f = s.facts[i].1;
    let t = terms[term];
    let subject = f.topic + " "@ + f.content;
    let lower = text::lowercase(subject);
    let head = text::lowercase(f.topic) + " "@;
    let hits = store::search_view(s, query, layers, limit);
    if text::occurs(text::lowercase(f.topic), t) {
        let p = choose|p: int| text::occurs_at(text::lowercase(f.topic), t, p);
        assert(lower.subrange(p, p + t.len()) =~= text::lowercase(f.topic).subrange(
            p,
            p + t.len(),
        ));
        assert(text::occurs_at(lower, t, p));
    } else {
        let p = choose|p: int| text::occurs_at(text::lowercase(f.content), t, p);
        let q = head.len() + p;
        assert(lower.subrange(q, q + t.len()) =~= text::lowercase(f.content).subrange(
            p,
            p + t.len(),
        ));
        assert(text::occurs_at(lower, t, q));
    }
    let there = |t: Seq<char>| text::occurs(lower, t);
    broadcast use vstd::seq_lib::group_filter_ensures;
    assert(there(terms[term]));
    assert(terms.filter(there).contains(t));
    lemma_matched(terms, subject);
    assert(found_in(terms, subject) > 0);
    lemma_search_is_complete(s, query, layers, limit);
    let hit = fact_found(f, terms)->0;
    assert(shown(hits, hit, limit));
    if !hits.contains(hit) {
        lemma_all_shown(s, terms, layers, limit);
        let events = store::episodes(s.days);
        let fp = |e: (Seq<char>, ProceduralView)| ranked_if(entry_found(e.1, terms));
        let ff = |e: (Seq<char>, FactView)| ranked_if(fact_found(e.1, terms));
        let fe = |e: EpisodeView| ranked_if(event_found(e, terms));
        lemma_procedural_picked(s.procedural, terms);
        lemma_facts_picked(s.facts, terms);
        lemma_events_picked(events, terms);
        lemma_few(s.procedural, fp);
        lemma_few(s.facts, ff);
        lemma_few(events, fe);
        lemma_picked(s.facts, ff);
        let all = store::all_hits(s, terms, layers);
        sort::lemma_top(all, limit);
        let b = store::fact_hits(s.facts, terms);
        let a = store::if_asked(
            layers,
            MemoryLayer::Procedural,
            store::procedural_hits(s.procedural, terms),
        );
        assert(b.contains(ff(s.facts[i])->0));
        let k = b.index_of(ff(s.facts[i])->0);
        assert(all[a.len() + k] == b[k]);
        let places = sort::lemma_places(all);
        assert(places.contains(a.len() + k));
        let j = places.index_of(a.len() + k);
        assert(hits[j] == hit);
    }
    let k = hits.index_of(hit);
    assert(hits[k] == hit);
}

proof fn lemma_few<E, X>(values: Seq<E>, choice: spec_fn(E) -> Option<X>)
    ensures
        picked(values, choice).len() <= values.len(),
    decreases values.len(),
{
    if values.len() > 0 {
        lemma_few(values.drop_last(), choice);
    }
}

/// What was learned is found: a fact that was put is among what a search gives for a word of
/// its topic or its content, with its id and its content, where the limit leaves nothing out.
pub proof fn lemma_what_was_learned_is_found(
    store: &mut MemoryStore,
    id: &str,
    topic: &str,
    content: &str,
    ts_ms: u64,
    query: &str,
    layers: Vec<MemoryLayer>,
    limit: usize,
    hits: Vec<MemoryHit>,
    term: int,
)
    requires
        sorted_map::ascending(store@.facts),
        call_ensures(MemoryStore::put_fact, (store, id, topic, content, ts_ms), ()),
        call_ensures(MemoryStore::search, (final(store), query, &layers, limit), hits),
        layers@.len() == 0,
        text::words(text::lowercase(query@)).len() <= usize::MAX,
        0 <= term < text::words(text::lowercase(query@)).len(),
        limit >= final(store)@.procedural.len() + final(store)@.facts.len() + store::episodes(
            final(store)@.days,
        ).len(),
        text::lowercase(topic@ + " "@ + content@) == text::lowercase(topic@) + " "@
            + text::lowercase(content@),
        text::occurs(text::lowercase(topic@), text::words(text::lowercase(query@))[term])
            || text::occurs(text::lowercase(content@), text::words(text::lowercase(query@))[term]),
    ensures
        exists|k: int|
            {
                &&& 0 <= k < hits@.len()
                &&& (#[trigger] hits@[k]).layer == MemoryLayer::Semantic
                &&& hits@[k].id@ == id@
                &&& hits@[k].content@ == content@
            },
{
    let fact = FactView { id: id@, topic: topic@, content: content@, updated_ms: ts_ms };
    let after = final(store)@;
    sorted_map::lemma_put(old(store)@.facts, id@, fact);
    sorted_map::lemma_as_map(after.facts);
    assert(sorted_map::as_map(after.facts).dom().contains(id@));
    assert(sorted_map::has_key(after.facts, id@));
    let i = choose|i: int| 0 <= i < after.facts.len() && (#[trigger] after.facts[i]).0 == id@;
    assert(after.facts[i].1 == fact);
    lemma_fact_is_found_by_its_content(after, query@, layers@, limit as nat, i, term);
    let seen = store::search_view(after, query@, layers@, limit as nat);
    let k = choose|k: int|
        {
            &&& 0 <= k < seen.len()
            &&& (#[trigger] seen[k]).layer == MemoryLayer::Semantic
            &&& seen[k].id == after.facts[i].1.id
            &&& seen[k].content == after.facts[i].1.content
            &&& seen[k].score matches Score::Share { matched, .. } && 0 < matched
        };
    assert(protocol::hits_view(hits@)[k] == hits@[k]@);
}

} // verus!
