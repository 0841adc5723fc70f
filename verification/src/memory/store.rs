//! The four layers and what is done with them.
//!
//! The episodic layer is a list of day files with one event per line, the
//! semantic and procedural layers are maps, and the identity layer is one
//! profile. A line that holds no event is kept as it stands.

use vstd::prelude::*;
use crate::memory::protocol;
use crate::memory::protocol::EpisodeEvent;
use crate::memory::protocol::EpisodeView;
use crate::memory::protocol::FactView;
use crate::memory::protocol::HitView;
use crate::memory::protocol::MemoryHit;
use crate::memory::protocol::MemoryLayer;
use crate::memory::protocol::MemoryQuery;
use crate::memory::protocol::MemoryResult;
use crate::memory::protocol::MemorySnapshot;
use crate::memory::protocol::MemoryWrite;
use crate::memory::protocol::ProceduralEntry;
use crate::memory::protocol::ProceduralView;
use crate::memory::protocol::ProfileView;
use crate::memory::protocol::ResultView;
use crate::memory::protocol::Score;
use crate::memory::protocol::SemanticFact;
use crate::memory::protocol::SnapshotView;
use crate::memory::protocol::UserProfile;
use crate::memory::protocol::DAY_MS;
use crate::memory::protocol::ONE_BITS;
use crate::sort;
use crate::sort::Rank;
use crate::sorted_map;
use crate::sorted_map::SortedMap;
use crate::text;

verus! {

// ---------------------------------------------------------------------------
// What a store is
// ---------------------------------------------------------------------------

/// A line of a day file and the event that it holds, if it holds one.
pub struct EpisodeLine {
    pub text: String,
    pub event: Option<EpisodeEvent>,
}

/// What a line is.
#[verifier::ext_equal]
pub struct LineView {
    pub text: Seq<char>,
    pub event: Option<EpisodeView>,
}

impl View for EpisodeLine {
    type V = LineView;

    open spec fn view(&self) -> LineView {
        LineView {
            text: self.text@,
            event: match self.event {
                Some(e) => Some(e@),
                None => None,
            },
        }
    }
}

/// A day file.
pub struct DayFile {
    pub name: String,
    pub lines: Vec<EpisodeLine>,
}

/// What a day file is.
#[verifier::ext_equal]
pub struct DayView {
    pub name: Seq<char>,
    pub lines: Seq<LineView>,
}

/// What a list of lines holds.
pub open spec fn lines_view(lines: Seq<EpisodeLine>) -> Seq<LineView> {
    Seq::new(lines.len(), |i: int| lines[i]@)
}

impl View for DayFile {
    type V = DayView;

    open spec fn view(&self) -> DayView {
        DayView { name: self.name@, lines: lines_view(self.lines@) }
    }
}

/// What a list of day files holds.
pub open spec fn days_view(days: Seq<DayFile>) -> Seq<DayView> {
    Seq::new(days.len(), |i: int| days[i]@)
}

/// The four layers.
pub struct MemoryStore {
    /// In the order in which the files are listed.
    pub days: Vec<DayFile>,
    pub facts: SortedMap<SemanticFact>,
    pub procedural: SortedMap<ProceduralEntry>,
    pub profile: UserProfile,
}

/// What a store is.
#[verifier::ext_equal]
pub struct StoreView {
    pub days: Seq<DayView>,
    pub facts: Seq<(Seq<char>, FactView)>,
    pub procedural: Seq<(Seq<char>, ProceduralView)>,
    pub profile: ProfileView,
}

impl View for MemoryStore {
    type V = StoreView;

    open spec fn view(&self) -> StoreView {
        StoreView {
            days: days_view(self.days@),
            facts: sorted_map::deep(self.facts@),
            procedural: sorted_map::deep(self.procedural@),
            profile: self.profile@,
        }
    }
}

/// The store that holds nothing.
pub open spec fn empty_store() -> StoreView {
    StoreView {
        days: Seq::empty(),
        facts: Seq::empty(),
        procedural: Seq::empty(),
        profile: protocol::blank_profile(),
    }
}

// ---------------------------------------------------------------------------
// Reading the episodic layer
// ---------------------------------------------------------------------------

/// The events on the lines.
pub open spec fn line_events(lines: Seq<LineView>) -> Seq<EpisodeView>
    decreases lines.len(),
{
    if lines.len() == 0 {
        Seq::empty()
    } else {
        match lines.last().event {
            Some(e) => line_events(lines.drop_last()).push(e),
            None => line_events(lines.drop_last()),
        }
    }
}

/// All events, file by file.
pub open spec fn episodes(days: Seq<DayView>) -> Seq<EpisodeView>
    decreases days.len(),
{
    if days.len() == 0 {
        Seq::empty()
    } else {
        episodes(days.drop_last()) + line_events(days.last().lines)
    }
}

/// The lines of a file that hold more than white space.
pub open spec fn nonblank(lines: Seq<Seq<char>>) -> Seq<Seq<char>>
    decreases lines.len(),
{
    if lines.len() == 0 {
        Seq::empty()
    } else if text::trimmed(lines.last()).len() == 0 {
        nonblank(lines.drop_last())
    } else {
        nonblank(lines.drop_last()).push(lines.last())
    }
}

/// The lines of a file's content that hold more than white space.
pub fn nonblank_lines(content: &str) -> (result: Vec<String>)
    ensures
        text::views(result@) == nonblank(text::lines(content@)),
{
    let lines = text::split_lines(content);
    let ghost all = text::views(lines@);
    let mut result: Vec<String> = Vec::new();
    let mut i: usize = 0;
    assert(all.take(0) =~= Seq::<Seq<char>>::empty());
    assert(text::views(result@) =~= nonblank(all.take(0)));
    while i < lines.len()
        invariant
            i <= lines.len(),
            all == text::views(lines@),
            text::views(result@) == nonblank(all.take(i as int)),
        decreases lines.len() - i,
    {
        assert(all.take(i + 1).drop_last() =~= all.take(i as int));
        let core = text::trim(lines[i].as_str());
        if !core.as_str().is_empty() {
            let line = lines[i].clone();
            proof {
                text::lemma_views_push(result@, line);
            }
            result.push(line);
        }
        i += 1;
    }
    assert(all.take(i as int) =~= all);
    result
}

// ---------------------------------------------------------------------------
// Writing
// ---------------------------------------------------------------------------

/// The name of the file of a day.
pub open spec fn day_name(ts_ms: u64) -> Seq<char> {
    "day-"@ + text::decimal((ts_ms / DAY_MS) as nat) + ".jsonl"@
}

/// The name of the file of a day.
pub fn day_file_name(ts_ms: u64) -> (name: String)
    ensures
        name@ == day_name(ts_ms),
{
    let mut name = "day-".to_string();
    name.append(text::decimal_text(protocol::day_index(ts_ms)).as_str());
    name.append(".jsonl");
    name
}

/// The line of an event.
pub open spec fn event_line(event: EpisodeView) -> LineView {
    LineView { text: protocol::event_line(event), event: Some(event) }
}

/// The files with one more line in the file of this name; a file that is not
/// there yet is listed last.
pub open spec fn with_line(days: Seq<DayView>, name: Seq<char>, line: LineView) -> Seq<DayView>
    decreases days.len(),
{
    if days.len() == 0 {
        seq![DayView { name, lines: seq![line] }]
    } else if days[0].name == name {
        seq![DayView { name, lines: days[0].lines.push(line) }] + days.drop_first()
    } else {
        seq![days[0]] + with_line(days.drop_first(), name, line)
    }
}

/// The store with one more event.
pub open spec fn with_episode(s: StoreView, event: EpisodeView) -> StoreView {
    StoreView { days: with_line(s.days, day_name(event.ts_ms), event_line(event)), ..s }
}

/// The store with an entry in the procedural layer.
pub open spec fn with_procedural(
    s: StoreView,
    key: Seq<char>,
    content: Seq<char>,
    confidence: u32,
    correction: bool,
    updated_ms: u64,
) -> StoreView {
    let entry = ProceduralView {
        key,
        content,
        confidence: protocol::clamped(confidence),
        updated_ms,
        correction,
    };
    StoreView { procedural: sorted_map::put(s.procedural, key, entry), ..s }
}

/// The store with a fact.
pub open spec fn with_fact(
    s: StoreView,
    id: Seq<char>,
    topic: Seq<char>,
    content: Seq<char>,
    ts_ms: u64,
) -> StoreView {
    let fact = FactView { id, topic, content, updated_ms: ts_ms };
    StoreView { facts: sorted_map::put(s.facts, id, fact), ..s }
}

/// The text of a correction.
pub open spec fn correction_text(correction: Seq<char>, context: Seq<char>) -> Seq<char> {
    if context.len() == 0 {
        correction
    } else {
        correction + "\n(context: "@ + context + ")"@
    }
}

/// The store after a write.
pub open spec fn written(s: StoreView, w: MemoryWrite) -> StoreView {
    match w {
        MemoryWrite::Episode { event } => with_episode(s, event@),
        MemoryWrite::Procedural { key, content, confidence } => with_procedural(
            s,
            key@,
            content@,
            confidence,
            false,
            0,
        ),
        MemoryWrite::UserCorrection { correction, context, ts_ms } => with_procedural(
            s,
            "correction:"@ + text::decimal(ts_ms as nat),
            correction_text(correction@, context@),
            ONE_BITS,
            true,
            ts_ms,
        ),
        MemoryWrite::Semantic { id, topic, content, ts_ms } => with_fact(
            s,
            id@,
            topic@,
            content@,
            ts_ms,
        ),
        MemoryWrite::Profile { profile } => StoreView { profile: profile@, ..s },
    }
}

/// Adding a line touches the first file of the name, or lists a new file last.
pub proof fn lemma_with_line_at(days: Seq<DayView>, name: Seq<char>, line: LineView, at: int)
    requires
        0 <= at <= days.len(),
        forall|k: int| 0 <= k < at ==> (#[trigger] days[k]).name != name,
        at < days.len() ==> days[at].name == name,
    ensures
        with_line(days, name, line) == (if at < days.len() {
            days.update(at, DayView { name, lines: days[at].lines.push(line) })
        } else {
            days.push(DayView { name, lines: seq![line] })
        }),
    decreases days.len(),
{
    let result = if at < days.len() {
        days.update(at, DayView { name, lines: days[at].lines.push(line) })
    } else {
        days.push(DayView { name, lines: seq![line] })
    };
    if at > 0 {
        let rest = days.drop_first();
        assert(days[0].name != name);
        assert forall|k: int| 0 <= k < at - 1 implies (#[trigger] rest[k]).name != name by {
            assert(days[k + 1].name != name);
        }
        lemma_with_line_at(rest, name, line, at - 1);
    }
    assert(with_line(days, name, line) =~= result);
}

impl MemoryStore {
    /// The store with these layers.
    pub fn open(
        days: Vec<DayFile>,
        facts: SortedMap<SemanticFact>,
        procedural: SortedMap<ProceduralEntry>,
        profile: UserProfile,
    ) -> (store: Self)
        ensures
            store@ == (StoreView {
                days: days_view(days@),
                facts: sorted_map::deep(facts@),
                procedural: sorted_map::deep(procedural@),
                profile: profile@,
            }),
    {
        MemoryStore { days, facts, procedural, profile }
    }

    /// The store that holds nothing.
    pub fn empty() -> (store: Self)
        ensures
            store@ == empty_store(),
    {
        let store = MemoryStore {
            days: Vec::new(),
            facts: SortedMap::new(),
            procedural: SortedMap::new(),
            profile: UserProfile::default(),
        };
        assert(store@ =~= empty_store());
        store
    }

    /// Applies a write.
    pub fn write(&mut self, w: MemoryWrite) -> (result: MemoryResult)
        ensures
            final(self)@ == written(old(self)@, w),
            result@ == ResultView::Done,
    {
        match w {
            MemoryWrite::Episode { event } => {
                self.append_episode(&event);
            },
            MemoryWrite::Procedural { key, content, confidence } => {
                self.put_procedural(key.as_str(), content.as_str(), confidence, false, 0);
            },
            MemoryWrite::UserCorrection { correction, context, ts_ms } => {
                let mut key = "correction:".to_string();
                key.append(text::decimal_text(ts_ms).as_str());
                let mut content = correction;
                if !context.as_str().is_empty() {
                    content.append("\n(context: ");
                    content.append(context.as_str());
                    content.append(")");
                }
                self.put_procedural(key.as_str(), content.as_str(), ONE_BITS, true, ts_ms);
            },
            MemoryWrite::Semantic { id, topic, content, ts_ms } => {
                self.put_fact(id.as_str(), topic.as_str(), content.as_str(), ts_ms);
            },
            MemoryWrite::Profile { profile } => {
                self.put_profile(&profile);
            },
        }
        MemoryResult::Done
    }

    /// Adds an event to the file of its day.
    pub fn append_episode(&mut self, event: &EpisodeEvent)
        ensures
            final(self)@ == with_episode(old(self)@, event@),
    {
        let name = day_file_name(event.ts_ms);
        let line = EpisodeLine { text: event.line(), event: Some(event.copy()) };
        let ghost before = self@.days;
        let mut at: usize = 0;
        while at < self.days.len() && !text::same_text(self.days[at].name.as_str(), name.as_str())
            invariant
                at <= self.days.len(),
                self@ == old(self)@,
                before == self@.days,
                forall|k: int| 0 <= k < at ==> (#[trigger] before[k]).name != name@,
            decreases self.days.len() - at,
        {
            assert(before[at as int].name == self.days@[at as int].name@);
            at += 1;
        }
        proof {
            lemma_with_line_at(before, name@, line@, at as int);
        }
        if at < self.days.len() {
            let ghost old_lines = self.days@[at as int].lines@;
            let ghost old_days = self.days@;
            self.days[at].lines.push(line);
            assert(lines_view(old_lines.push(line)) =~= lines_view(old_lines).push(line@));
            assert(days_view(self.days@) =~= before.update(
                at as int,
                DayView { name: name@, lines: before[at as int].lines.push(line@) },
            ));
        } else {
            let mut lines: Vec<EpisodeLine> = Vec::new();
            lines.push(line);
            assert(lines_view(lines@) =~= seq![line@]);
            self.days.push(DayFile { name, lines });
            assert(days_view(self.days@) =~= before.push(
                DayView { name: name@, lines: seq![line@] },
            ));
        }
    }

    /// Sets an entry of the procedural layer.
    pub fn put_procedural(
        &mut self,
        key: &str,
        content: &str,
        confidence: u32,
        correction: bool,
        updated_ms: u64,
    )
        ensures
            final(self)@ == with_procedural(
                old(self)@,
                key@,
                content@,
                confidence,
                correction,
                updated_ms,
            ),
    {
        let entry = ProceduralEntry {
            key: key.to_string(),
            content: content.to_string(),
            confidence: protocol::clamp_unit(confidence),
            updated_ms,
            correction,
        };
        proof {
            sorted_map::lemma_deep_put(self.procedural@, key@, entry);
        }
        self.procedural.insert(key, entry);
    }

    /// Sets a fact.
    pub fn put_fact(&mut self, id: &str, topic: &str, content: &str, ts_ms: u64)
        ensures
            final(self)@ == with_fact(old(self)@, id@, topic@, content@, ts_ms),
    {
        let fact = SemanticFact {
            id: id.to_string(),
            topic: topic.to_string(),
            content: content.to_string(),
            updated_ms: ts_ms,
        };
        proof {
            sorted_map::lemma_deep_put(self.facts@, id@, fact);
        }
        self.facts.insert(id, fact);
    }

    /// Replaces the profile.
    pub fn put_profile(&mut self, profile: &UserProfile)
        ensures
            final(self)@ == (StoreView { profile: profile@, ..old(self)@ }),
    {
        self.profile = profile.copy();
    }

    /// The profile.
    pub fn load_profile(&self) -> (profile: UserProfile)
        ensures
            profile@ == self@.profile,
    {
        self.profile.copy()
    }
}

// ---------------------------------------------------------------------------
// Searching
// ---------------------------------------------------------------------------

/// The terms of a query.
pub open spec fn terms_of(query: Seq<char>) -> Seq<Seq<char>> {
    text::words(text::lowercase(query))
}

/// How many of the terms stand in a text, whatever the case of its letters.
pub open spec fn matched(terms: Seq<Seq<char>>, subject: Seq<char>) -> nat
    decreases terms.len(),
{
    if terms.len() == 0 {
        0
    } else {
        matched(terms.drop_last(), subject) + if text::occurs(
            text::lowercase(subject),
            terms.last(),
        ) {
            1nat
        } else {
            0nat
        }
    }
}

/// No more terms are found than there are.
pub proof fn lemma_matched_bound(terms: Seq<Seq<char>>, subject: Seq<char>)
    ensures
        matched(terms, subject) <= terms.len(),
    decreases terms.len(),
{
    if terms.len() > 0 {
        lemma_matched_bound(terms.drop_last(), subject);
    }
}

/// The relevance of an entry in quarters of a term: the found terms, a quarter
/// of all terms more where boosted, and all terms at most.
pub open spec fn weight(found: nat, terms: nat, boosted: bool) -> nat {
    let w = 4 * found + if boosted {
        terms
    } else {
        0
    };
    if w > 4 * terms {
        4 * terms
    } else {
        w
    }
}

/// A hit of a search with its rank: more relevant first, then more recent.
pub open spec fn search_hit(
    layer: MemoryLayer,
    id: Seq<char>,
    content: Seq<char>,
    ts_ms: u64,
    found: nat,
    terms: nat,
    boosted: bool,
) -> (Rank, HitView) {
    (
        Rank { first: weight(found, terms, boosted) as u128, second: ts_ms },
        HitView {
            layer,
            id,
            score: Score::Share { matched: found as usize, terms: terms as usize, boosted },
            content,
            ts_ms,
        },
    )
}

/// The procedural entries in which a term is found. Corrections are boosted.
pub open spec fn procedural_hits(
    entries: Seq<(Seq<char>, ProceduralView)>,
    terms: Seq<Seq<char>>,
) -> Seq<(Rank, HitView)>
    decreases entries.len(),
{
    if entries.len() == 0 {
        Seq::empty()
    } else {
        let before = procedural_hits(entries.drop_last(), terms);
        let e = entries.last().1;
        let found = matched(terms, e.content);
        if found == 0 {
            before
        } else {
            before.push(
                search_hit(
                    MemoryLayer::Procedural,
                    e.key,
                    e.content,
                    e.updated_ms,
                    found,
                    terms.len(),
                    e.correction,
                ),
            )
        }
    }
}

/// The facts in whose topic and content a term is found.
pub open spec fn fact_hits(
    entries: Seq<(Seq<char>, FactView)>,
    terms: Seq<Seq<char>>,
) -> Seq<(Rank, HitView)>
    decreases entries.len(),
{
    if entries.len() == 0 {
        Seq::empty()
    } else {
        let before = fact_hits(entries.drop_last(), terms);
        let f = entries.last().1;
        let found = matched(terms, f.topic + " "@ + f.content);
        if found == 0 {
            before
        } else {
            before.push(
                search_hit(
                    MemoryLayer::Semantic,
                    f.id,
                    f.content,
                    f.updated_ms,
                    found,
                    terms.len(),
                    false,
                ),
            )
        }
    }
}

/// The events in whose kind, summary and outcome a term is found.
pub open spec fn episode_hits(events: Seq<EpisodeView>, terms: Seq<Seq<char>>) -> Seq<
    (Rank, HitView),
>
    decreases events.len(),
{
    if events.len() == 0 {
        Seq::empty()
    } else {
        let before = episode_hits(events.drop_last(), terms);
        let e = events.last();
        let found = matched(terms, e.kind + " "@ + e.summary + " "@ + e.outcome);
        if found == 0 {
            before
        } else {
            before.push(
                search_hit(
                    MemoryLayer::Episodic,
                    e.id,
                    e.summary,
                    e.ts_ms,
                    found,
                    terms.len(),
                    false,
                ),
            )
        }
    }
}

/// The list where the layers ask for it, else nothing.
pub open spec fn if_asked(
    layers: Seq<MemoryLayer>,
    layer: MemoryLayer,
    hits: Seq<(Rank, HitView)>,
) -> Seq<(Rank, HitView)> {
    if protocol::asks_for(layers, layer) {
        hits
    } else {
        Seq::empty()
    }
}

/// All hits of a search, layer by layer.
pub open spec fn all_hits(s: StoreView, terms: Seq<Seq<char>>, layers: Seq<MemoryLayer>) -> Seq<
    (Rank, HitView),
> {
    if_asked(layers, MemoryLayer::Procedural, procedural_hits(s.procedural, terms)) + if_asked(
        layers,
        MemoryLayer::Semantic,
        fact_hits(s.facts, terms),
    ) + if_asked(layers, MemoryLayer::Episodic, episode_hits(episodes(s.days), terms))
}

/// The result of a search.
pub open spec fn search_view(
    s: StoreView,
    query: Seq<char>,
    layers: Seq<MemoryLayer>,
    limit: nat,
) -> Seq<HitView> {
    let terms = terms_of(query);
    if terms.len() == 0 {
        Seq::empty()
    } else {
        sort::top(all_hits(s, terms, layers), limit)
    }
}

/// A hit of full score with its rank: more recent first.
pub open spec fn recent_hit(
    layer: MemoryLayer,
    id: Seq<char>,
    content: Seq<char>,
    ts_ms: u64,
) -> (Rank, HitView) {
    (
        Rank { first: 0, second: ts_ms },
        HitView { layer, id, score: Score::Full, content, ts_ms },
    )
}

/// The events at `since_ms` or later.
pub open spec fn recent_episodes(events: Seq<EpisodeView>, since_ms: u64) -> Seq<(Rank, HitView)>
    decreases events.len(),
{
    if events.len() == 0 {
        Seq::empty()
    } else {
        let before = recent_episodes(events.drop_last(), since_ms);
        let e = events.last();
        if e.ts_ms >= since_ms {
            before.push(recent_hit(MemoryLayer::Episodic, e.id, e.summary, e.ts_ms))
        } else {
            before
        }
    }
}

/// The procedural entries updated at `since_ms` or later.
pub open spec fn recent_procedural(
    entries: Seq<(Seq<char>, ProceduralView)>,
    since_ms: u64,
) -> Seq<(Rank, HitView)>
    decreases entries.len(),
{
    if entries.len() == 0 {
        Seq::empty()
    } else {
        let before = recent_procedural(entries.drop_last(), since_ms);
        let e = entries.last().1;
        if e.updated_ms >= since_ms {
            before.push(recent_hit(MemoryLayer::Procedural, e.key, e.content, e.updated_ms))
        } else {
            before
        }
    }
}

/// The facts updated at `since_ms` or later.
pub open spec fn recent_facts(entries: Seq<(Seq<char>, FactView)>, since_ms: u64) -> Seq<
    (Rank, HitView),
>
    decreases entries.len(),
{
    if entries.len() == 0 {
        Seq::empty()
    } else {
        let before = recent_facts(entries.drop_last(), since_ms);
        let f = entries.last().1;
        if f.updated_ms >= since_ms {
            before.push(recent_hit(MemoryLayer::Semantic, f.id, f.content, f.updated_ms))
        } else {
            before
        }
    }
}

/// What is recent, layer by layer.
pub open spec fn all_recent(s: StoreView, since_ms: u64, layers: Seq<MemoryLayer>) -> Seq<
    (Rank, HitView),
> {
    if_asked(layers, MemoryLayer::Episodic, recent_episodes(episodes(s.days), since_ms)) + if_asked(
        layers,
        MemoryLayer::Procedural,
        recent_procedural(s.procedural, since_ms),
    ) + if_asked(layers, MemoryLayer::Semantic, recent_facts(s.facts, since_ms))
}

/// What is recent, the most recent first.
pub open spec fn recent_view(s: StoreView, since_ms: u64, layers: Seq<MemoryLayer>) -> Seq<
    HitView,
> {
    sort::bare(sort::in_ranks(all_recent(s, since_ms, layers)))
}

/// The corrections among the procedural entries.
pub open spec fn correction_hits(entries: Seq<(Seq<char>, ProceduralView)>) -> Seq<(Rank, HitView)>
    decreases entries.len(),
{
    if entries.len() == 0 {
        Seq::empty()
    } else {
        let before = correction_hits(entries.drop_last());
        let e = entries.last().1;
        if e.correction {
            before.push(
                (
                    Rank { first: 0, second: e.updated_ms },
                    HitView {
                        layer: MemoryLayer::Procedural,
                        id: e.key,
                        score: Score::Confidence(e.confidence),
                        content: e.content,
                        ts_ms: e.updated_ms,
                    },
                ),
            )
        } else {
            before
        }
    }
}

/// The corrections, the most recent first.
pub open spec fn corrections_view(s: StoreView, limit: nat) -> Seq<HitView> {
    sort::top(correction_hits(s.procedural), limit)
}

/// The answer to a query.
pub open spec fn answer(s: StoreView, q: MemoryQuery) -> ResultView {
    match q {
        MemoryQuery::UserProfile => ResultView::Profile(s.profile),
        MemoryQuery::Search { query, layers, limit } => ResultView::Hits(
            search_view(s, query@, layers@, limit as nat),
        ),
        MemoryQuery::Recent { since_ms, layers } => ResultView::Hits(
            recent_view(s, since_ms, layers@),
        ),
        MemoryQuery::Corrections { limit } => ResultView::Hits(corrections_view(s, limit as nat)),
    }
}

fn count_matched(terms: &Vec<String>, subject: &str) -> (n: usize)
    ensures
        n == matched(text::views(terms@), subject@),
        n <= terms.len(),
{
    let lower = text::to_lower(subject);
    let ghost all = text::views(terms@);
    let mut n: usize = 0;
    let mut i: usize = 0;
    assert(all.take(0) =~= Seq::<Seq<char>>::empty());
    while i < terms.len()
        invariant
            i <= terms.len(),
            n <= i,
            all == text::views(terms@),
            lower@ == text::lowercase(subject@),
            n == matched(all.take(i as int), subject@),
        decreases terms.len() - i,
    {
        assert(all.take(i + 1).drop_last() =~= all.take(i as int));
        if text::contains(lower.as_str(), terms[i].as_str()) {
            n += 1;
        }
        i += 1;
    }
    assert(all.take(i as int) =~= all);
    n
}

fn push_search_hit(
    hits: &mut Vec<(Rank, MemoryHit)>,
    layer: MemoryLayer,
    id: &String,
    content: &String,
    ts_ms: u64,
    found: usize,
    terms: usize,
    boosted: bool,
)
    requires
        found <= terms,
    ensures
        sort::seen(final(hits)@) == sort::seen(old(hits)@).push(
            search_hit(layer, id@, content@, ts_ms, found as nat, terms as nat, boosted),
        ),
{
    let mut w: u128 = 4 * (found as u128);
    if boosted {
        w += terms as u128;
    }
    if w > 4 * (terms as u128) {
        w = 4 * (terms as u128);
    }
    let rank = Rank { first: w, second: ts_ms };
    let hit = MemoryHit {
        layer,
        id: id.clone(),
        score: Score::Share { matched: found, terms, boosted },
        content: content.clone(),
        ts_ms,
    };
    hits.push((rank, hit));
    assert(sort::seen(hits@) =~= sort::seen(old(hits)@).push(
        search_hit(layer, id@, content@, ts_ms, found as nat, terms as nat, boosted),
    ));
}

fn push_recent_hit(
    hits: &mut Vec<(Rank, MemoryHit)>,
    layer: MemoryLayer,
    id: &String,
    content: &String,
    ts_ms: u64,
)
    ensures
        sort::seen(final(hits)@) == sort::seen(old(hits)@).push(
            recent_hit(layer, id@, content@, ts_ms),
        ),
{
    let hit = MemoryHit {
        layer,
        id: id.clone(),
        score: Score::Full,
        content: content.clone(),
        ts_ms,
    };
    hits.push((Rank { first: 0, second: ts_ms }, hit));
    assert(sort::seen(hits@) =~= sort::seen(old(hits)@).push(
        recent_hit(layer, id@, content@, ts_ms),
    ));
}

/// The two texts with a blank between them.
fn spaced(a: &str, b: &str) -> (result: String)
    ensures
        result@ == a@ + " "@ + b@,
{
    let mut result = a.to_string();
    result.append(" ");
    result.append(b);
    result
}

/// What a list of events holds.
pub open spec fn events_view(events: Seq<EpisodeEvent>) -> Seq<EpisodeView> {
    Seq::new(events.len(), |i: int| events[i]@)
}

impl MemoryStore {
    /// Answers a query.
    pub fn query(&self, q: MemoryQuery) -> (result: MemoryResult)
        ensures
            result@ == answer(self@, q),
    {
        match q {
            MemoryQuery::UserProfile => MemoryResult::Profile { profile: self.load_profile() },
            MemoryQuery::Search { query, layers, limit } => MemoryResult::Hits {
                hits: self.search(query.as_str(), &layers, limit),
            },
            MemoryQuery::Recent { since_ms, layers } => MemoryResult::Hits {
                hits: self.recent(since_ms, &layers),
            },
            MemoryQuery::Corrections { limit } => MemoryResult::Hits {
                hits: self.corrections(limit),
            },
        }
    }

    /// All events, file by file.
    pub fn load_episodes(&self) -> (events: Vec<EpisodeEvent>)
        ensures
            events_view(events@) == episodes(self@.days),
    {
        let ghost days = self@.days;
        let mut events: Vec<EpisodeEvent> = Vec::new();
        let mut i: usize = 0;
        assert(days.take(0) =~= Seq::<DayView>::empty());
        assert(events_view(events@) =~= episodes(days.take(0)));
        while i < self.days.len()
            invariant
                i <= self.days.len(),
                days == self@.days,
                events_view(events@) == episodes(days.take(i as int)),
            decreases self.days.len() - i,
        {
            let ghost before = events_view(events@);
            let ghost lines = days[i as int].lines;
            assert(days.take(i + 1).drop_last() =~= days.take(i as int));
            let mut j: usize = 0;
            assert(lines.take(0) =~= Seq::<LineView>::empty());
            assert(before =~= before + line_events(lines.take(0)));
            while j < self.days[i as usize].lines.len()
                invariant
                    i < self.days.len(),
                    days == self@.days,
                    lines == days[i as int].lines,
                    j <= self.days@[i as int].lines.len(),
                    events_view(events@) == before + line_events(lines.take(j as int)),
                decreases self.days@[i as int].lines.len() - j,
            {
                assert(lines.take(j + 1).drop_last() =~= lines.take(j as int));
                assert(lines[j as int] == self.days@[i as int].lines@[j as int]@);
                match &self.days[i].lines[j].event {
                    Some(e) => {
                        let ghost so_far = events@;
                        let copy = e.copy();
                        events.push(copy);
                        assert(events_view(events@) =~= events_view(so_far).push(copy@));
                        assert(events_view(events@) =~= before + line_events(lines.take(j + 1)));
                    },
                    None => {},
                }
                j += 1;
            }
            assert(lines.take(j as int) =~= lines);
            i += 1;
        }
        assert(days.take(i as int) =~= days);
        events
    }

    /// Searches for entries that hold terms of the query.
    pub fn search(&self, query: &str, layers: &Vec<MemoryLayer>, limit: usize) -> (hits: Vec<
        MemoryHit,
    >)
        ensures
            protocol::hits_view(hits@) == search_view(self@, query@, layers@, limit as nat),
    {
        let lower = text::to_lower(query);
        let terms = text::split_words(lower.as_str());
        let ghost words = text::views(terms@);
        if terms.len() == 0 {
            let none: Vec<MemoryHit> = Vec::new();
            assert(protocol::hits_view(none@) =~= Seq::<HitView>::empty());
            return none;
        }
        let mut hits: Vec<(Rank, MemoryHit)> = Vec::new();
        assert(sort::seen(hits@) =~= Seq::<(Rank, HitView)>::empty());
        if protocol::wants(layers, MemoryLayer::Procedural) {
            self.search_procedural(&terms, &mut hits);
        }
        let ghost first = sort::seen(hits@);
        assert(first =~= if_asked(
            layers@,
            MemoryLayer::Procedural,
            procedural_hits(self@.procedural, words),
        ));
        if protocol::wants(layers, MemoryLayer::Semantic) {
            self.search_facts(&terms, &mut hits);
        }
        let ghost second = if_asked(layers@, MemoryLayer::Semantic, fact_hits(self@.facts, words));
        assert(sort::seen(hits@) =~= first + second);
        if protocol::wants(layers, MemoryLayer::Episodic) {
            self.search_episodes(&terms, &mut hits);
        }
        let ghost third = if_asked(
            layers@,
            MemoryLayer::Episodic,
            episode_hits(episodes(self@.days), words),
        );
        assert(sort::seen(hits@) =~= first + second + third);
        sort::take_top(hits, limit)
    }

    fn search_procedural(&self, terms: &Vec<String>, hits: &mut Vec<(Rank, MemoryHit)>)
        ensures
            sort::seen(final(hits)@) == sort::seen(old(hits)@) + procedural_hits(
                self@.procedural,
                text::views(terms@),
            ),
    {
        let ghost entries = self@.procedural;
        let ghost words = text::views(terms@);
        let ghost before = sort::seen(hits@);
        let n: usize = self.procedural.len();
        let mut i: usize = 0;
        assert(entries.take(0) =~= Seq::<(Seq<char>, ProceduralView)>::empty());
        assert(before =~= before + procedural_hits(entries.take(0), words));
        while i < n
            invariant
                i <= n == self.procedural@.len(),
                entries == self@.procedural,
                words == text::views(terms@),
                sort::seen(hits@) == before + procedural_hits(entries.take(i as int), words),
            decreases n - i,
        {
            assert(entries.take(i + 1).drop_last() =~= entries.take(i as int));
            let e = self.procedural.value_at(i);
            assert(entries[i as int].1 == e@);
            let found: usize = count_matched(terms, e.content.as_str());
            if found > 0 {
                push_search_hit(
                    hits,
                    MemoryLayer::Procedural,
                    &e.key,
                    &e.content,
                    e.updated_ms,
                    found,
                    terms.len(),
                    e.correction,
                );
            }
            i += 1;
            assert(sort::seen(hits@) =~= before + procedural_hits(entries.take(i as int), words));
        }
        assert(entries.take(i as int) =~= entries);
    }

    fn search_facts(&self, terms: &Vec<String>, hits: &mut Vec<(Rank, MemoryHit)>)
        ensures
            sort::seen(final(hits)@) == sort::seen(old(hits)@) + fact_hits(
                self@.facts,
                text::views(terms@),
            ),
    {
        let ghost entries = self@.facts;
        let ghost words = text::views(terms@);
        let ghost before = sort::seen(hits@);
        let n: usize = self.facts.len();
        let mut i: usize = 0;
        assert(entries.take(0) =~= Seq::<(Seq<char>, FactView)>::empty());
        assert(before =~= before + fact_hits(entries.take(0), words));
        while i < n
            invariant
                i <= n == self.facts@.len(),
                entries == self@.facts,
                words == text::views(terms@),
                sort::seen(hits@) == before + fact_hits(entries.take(i as int), words),
            decreases n - i,
        {
            assert(entries.take(i + 1).drop_last() =~= entries.take(i as int));
            let f = self.facts.value_at(i);
            assert(entries[i as int].1 == f@);
            let subject = spaced(f.topic.as_str(), f.content.as_str());
            let found: usize = count_matched(terms, subject.as_str());
            if found > 0 {
                push_search_hit(
                    hits,
                    MemoryLayer::Semantic,
                    &f.id,
                    &f.content,
                    f.updated_ms,
                    found,
                    terms.len(),
                    false,
                );
            }
            i += 1;
            assert(sort::seen(hits@) =~= before + fact_hits(entries.take(i as int), words));
        }
        assert(entries.take(i as int) =~= entries);
    }

    fn search_episodes(&self, terms: &Vec<String>, hits: &mut Vec<(Rank, MemoryHit)>)
        ensures
            sort::seen(final(hits)@) == sort::seen(old(hits)@) + episode_hits(
                episodes(self@.days),
                text::views(terms@),
            ),
    {
        let events = self.load_episodes();
        let ghost all = events_view(events@);
        let ghost words = text::views(terms@);
        let ghost before = sort::seen(hits@);
        let mut i: usize = 0;
        assert(all.take(0) =~= Seq::<EpisodeView>::empty());
        assert(before =~= before + episode_hits(all.take(0), words));
        while i < events.len()
            invariant
                i <= events.len(),
                all == events_view(events@),
                words == text::views(terms@),
                sort::seen(hits@) == before + episode_hits(all.take(i as int), words),
            decreases events.len() - i,
        {
            assert(all.take(i + 1).drop_last() =~= all.take(i as int));
            let e = &events[i];
            assert(all[i as int] == e@);
            let half = spaced(e.kind.as_str(), e.summary.as_str());
            let subject = spaced(half.as_str(), e.outcome.as_str());
            let found: usize = count_matched(terms, subject.as_str());
            if found > 0 {
                push_search_hit(
                    hits,
                    MemoryLayer::Episodic,
                    &e.id,
                    &e.summary,
                    e.ts_ms,
                    found,
                    terms.len(),
                    false,
                );
            }
            i += 1;
            assert(sort::seen(hits@) =~= before + episode_hits(all.take(i as int), words));
        }
        assert(all.take(i as int) =~= all);
    }

    /// What was updated at `since_ms` or later, the most recent first.
    pub fn recent(&self, since_ms: u64, layers: &Vec<MemoryLayer>) -> (hits: Vec<MemoryHit>)
        ensures
            protocol::hits_view(hits@) == recent_view(self@, since_ms, layers@),
    {
        let mut hits: Vec<(Rank, MemoryHit)> = Vec::new();
        assert(sort::seen(hits@) =~= Seq::<(Rank, HitView)>::empty());
        if protocol::wants(layers, MemoryLayer::Episodic) {
            self.push_recent_episodes(since_ms, &mut hits);
        }
        let ghost first = if_asked(
            layers@,
            MemoryLayer::Episodic,
            recent_episodes(episodes(self@.days), since_ms),
        );
        assert(sort::seen(hits@) =~= first);
        if protocol::wants(layers, MemoryLayer::Procedural) {
            self.push_recent_procedural(since_ms, &mut hits);
        }
        let ghost second = if_asked(
            layers@,
            MemoryLayer::Procedural,
            recent_procedural(self@.procedural, since_ms),
        );
        assert(sort::seen(hits@) =~= first + second);
        if protocol::wants(layers, MemoryLayer::Semantic) {
            self.push_recent_facts(since_ms, &mut hits);
        }
        let ghost third = if_asked(
            layers@,
            MemoryLayer::Semantic,
            recent_facts(self@.facts, since_ms),
        );
        assert(sort::seen(hits@) =~= first + second + third);
        let n: usize = hits.len();
        proof {
            sort::lemma_in_ranks(sort::seen(hits@));
        }
        sort::take_top(hits, n)
    }

    fn push_recent_episodes(&self, since_ms: u64, hits: &mut Vec<(Rank, MemoryHit)>)
        ensures
            sort::seen(final(hits)@) == sort::seen(old(hits)@) + recent_episodes(
                episodes(self@.days),
                since_ms,
            ),
    {
        let events = self.load_episodes();
        let ghost all = events_view(events@);
        let ghost before = sort::seen(hits@);
        let mut i: usize = 0;
        assert(all.take(0) =~= Seq::<EpisodeView>::empty());
        assert(before =~= before + recent_episodes(all.take(0), since_ms));
        while i < events.len()
            invariant
                i <= events.len(),
                all == events_view(events@),
                sort::seen(hits@) == before + recent_episodes(all.take(i as int), since_ms),
            decreases events.len() - i,
        {
            assert(all.take(i + 1).drop_last() =~= all.take(i as int));
            let e = &events[i];
            assert(all[i as int] == e@);
            if e.ts_ms >= since_ms {
                push_recent_hit(hits, MemoryLayer::Episodic, &e.id, &e.summary, e.ts_ms);
            }
            i += 1;
            assert(sort::seen(hits@) =~= before + recent_episodes(all.take(i as int), since_ms));
        }
        assert(all.take(i as int) =~= all);
    }

    fn push_recent_procedural(&self, since_ms: u64, hits: &mut Vec<(Rank, MemoryHit)>)
        ensures
            sort::seen(final(hits)@) == sort::seen(old(hits)@) + recent_procedural(
                self@.procedural,
                since_ms,
            ),
    {
        let ghost entries = self@.procedural;
        let ghost before = sort::seen(hits@);
        let n: usize = self.procedural.len();
        let mut i: usize = 0;
        assert(entries.take(0) =~= Seq::<(Seq<char>, ProceduralView)>::empty());
        assert(before =~= before + recent_procedural(entries.take(0), since_ms));
        while i < n
            invariant
                i <= n == self.procedural@.len(),
                entries == self@.procedural,
                sort::seen(hits@) == before + recent_procedural(entries.take(i as int), since_ms),
            decreases n - i,
        {
            assert(entries.take(i + 1).drop_last() =~= entries.take(i as int));
            let e = self.procedural.value_at(i);
            assert(entries[i as int].1 == e@);
            if e.updated_ms >= since_ms {
                push_recent_hit(hits, MemoryLayer::Procedural, &e.key, &e.content, e.updated_ms);
            }
            i += 1;
            assert(sort::seen(hits@) =~= before + recent_procedural(
                entries.take(i as int),
                since_ms,
            ));
        }
        assert(entries.take(i as int) =~= entries);
    }

    fn push_recent_facts(&self, since_ms: u64, hits: &mut Vec<(Rank, MemoryHit)>)
        ensures
            sort::seen(final(hits)@) == sort::seen(old(hits)@) + recent_facts(
                self@.facts,
                since_ms,
            ),
    {
        let ghost entries = self@.facts;
        let ghost before = sort::seen(hits@);
        let n: usize = self.facts.len();
        let mut i: usize = 0;
        assert(entries.take(0) =~= Seq::<(Seq<char>, FactView)>::empty());
        assert(before =~= before + recent_facts(entries.take(0), since_ms));
        while i < n
            invariant
                i <= n == self.facts@.len(),
                entries == self@.facts,
                sort::seen(hits@) == before + recent_facts(entries.take(i as int), since_ms),
            decreases n - i,
        {
            assert(entries.take(i + 1).drop_last() =~= entries.take(i as int));
            let f = self.facts.value_at(i);
            assert(entries[i as int].1 == f@);
            if f.updated_ms >= since_ms {
                push_recent_hit(hits, MemoryLayer::Semantic, &f.id, &f.content, f.updated_ms);
            }
            i += 1;
            assert(sort::seen(hits@) =~= before + recent_facts(entries.take(i as int), since_ms));
        }
        assert(entries.take(i as int) =~= entries);
    }

    /// The corrections, the most recent first, `limit` of them at most.
    pub fn corrections(&self, limit: usize) -> (hits: Vec<MemoryHit>)
        ensures
            protocol::hits_view(hits@) == corrections_view(self@, limit as nat),
    {
        let ghost entries = self@.procedural;
        let mut hits: Vec<(Rank, MemoryHit)> = Vec::new();
        let n: usize = self.procedural.len();
        let mut i: usize = 0;
        assert(entries.take(0) =~= Seq::<(Seq<char>, ProceduralView)>::empty());
        assert(sort::seen(hits@) =~= correction_hits(entries.take(0)));
        while i < n
            invariant
                i <= n == self.procedural@.len(),
                entries == self@.procedural,
                sort::seen(hits@) == correction_hits(entries.take(i as int)),
            decreases n - i,
        {
            assert(entries.take(i + 1).drop_last() =~= entries.take(i as int));
            let e = self.procedural.value_at(i);
            assert(entries[i as int].1 == e@);
            if e.correction {
                let ghost so_far = sort::seen(hits@);
                let hit = MemoryHit {
                    layer: MemoryLayer::Procedural,
                    id: e.key.clone(),
                    score: Score::Confidence(e.confidence),
                    content: e.content.clone(),
                    ts_ms: e.updated_ms,
                };
                hits.push((Rank { first: 0, second: e.updated_ms }, hit));
                assert(sort::seen(hits@) =~= so_far.push(
                    (Rank { first: 0, second: e.updated_ms }, hit@),
                ));
            }
            i += 1;
        }
        assert(entries.take(i as int) =~= entries);
        sort::take_top(hits, limit)
    }
}

// ---------------------------------------------------------------------------
// Retention and control by the user
// ---------------------------------------------------------------------------

/// The earliest time that is kept.
pub open spec fn cutoff(retention_days: u32, now_ms: u64) -> u64 {
    if now_ms >= retention_days * DAY_MS {
        (now_ms - retention_days * DAY_MS) as u64
    } else {
        0
    }
}

/// Whether a line holds an event that has expired: one before the cutoff that
/// is not important.
pub open spec fn has_expired(line: LineView, cutoff: u64) -> bool {
    match line.event {
        Some(e) => e.ts_ms < cutoff && !e.important,
        None => false,
    }
}

/// Whether a line holds the event with this id.
pub open spec fn holds_id(line: LineView, id: Seq<char>) -> bool {
    match line.event {
        Some(e) => e.id == id,
        None => false,
    }
}

/// The lines that a condition does not drop.
pub open spec fn kept_lines(lines: Seq<LineView>, drop_it: spec_fn(LineView) -> bool) -> Seq<
    LineView,
>
    decreases lines.len(),
{
    if lines.len() == 0 {
        Seq::empty()
    } else if drop_it(lines.last()) {
        kept_lines(lines.drop_last(), drop_it)
    } else {
        kept_lines(lines.drop_last(), drop_it).push(lines.last())
    }
}

/// The files after the expired events are dropped; files left empty go.
pub open spec fn expired_days(days: Seq<DayView>, cutoff: u64) -> Seq<DayView>
    decreases days.len(),
{
    if days.len() == 0 {
        Seq::empty()
    } else {
        let before = expired_days(days.drop_last(), cutoff);
        let lines = kept_lines(days.last().lines, |l: LineView| has_expired(l, cutoff));
        if lines.len() == 0 {
            before
        } else {
            before.push(DayView { name: days.last().name, lines })
        }
    }
}

/// How many lines are dropped.
pub open spec fn expired_count(days: Seq<DayView>, cutoff: u64) -> nat
    decreases days.len(),
{
    if days.len() == 0 {
        0
    } else {
        expired_count(days.drop_last(), cutoff) + (days.last().lines.len() - kept_lines(
            days.last().lines,
            |l: LineView| has_expired(l, cutoff),
        ).len()) as nat
    }
}

/// The files after the events with this id are dropped; of the files that lost
/// an event those left empty go.
pub open spec fn purged_days(days: Seq<DayView>, id: Seq<char>) -> Seq<DayView>
    decreases days.len(),
{
    if days.len() == 0 {
        Seq::empty()
    } else {
        let before = purged_days(days.drop_last(), id);
        let lines = kept_lines(days.last().lines, |l: LineView| holds_id(l, id));
        if lines.len() == 0 && days.last().lines.len() > 0 {
            before
        } else {
            before.push(DayView { name: days.last().name, lines })
        }
    }
}

/// Whether a file holds an event with this id.
pub open spec fn some_line_holds(days: Seq<DayView>, id: Seq<char>) -> bool {
    exists|i: int, j: int|
        0 <= i < days.len() && 0 <= j < days[i].lines.len() && holds_id(
            #[trigger] days[i].lines[j],
            id,
        )
}

/// The store without the entries of this id or key.
pub open spec fn purged(s: StoreView, id: Seq<char>) -> StoreView {
    StoreView {
        days: purged_days(s.days, id),
        facts: sorted_map::without(s.facts, id),
        procedural: sorted_map::without(s.procedural, id),
        profile: s.profile,
    }
}

/// Whether some entry has this id or key.
pub open spec fn holds_entry(s: StoreView, id: Seq<char>) -> bool {
    ||| sorted_map::as_map(s.procedural).dom().contains(id)
    ||| sorted_map::as_map(s.facts).dom().contains(id)
    ||| some_line_holds(s.days, id)
}

proof fn lemma_kept_len(lines: Seq<LineView>, drop_it: spec_fn(LineView) -> bool)
    ensures
        kept_lines(lines, drop_it).len() <= lines.len(),
        (forall|i: int| 0 <= i < lines.len() ==> !drop_it(#[trigger] lines[i])) ==> kept_lines(
            lines,
            drop_it,
        ) == lines,
        kept_lines(lines, drop_it).len() == lines.len() ==> (forall|i: int|
            0 <= i < lines.len() ==> !drop_it(#[trigger] lines[i])),
        forall|i: int|
            0 <= i < kept_lines(lines, drop_it).len() ==> !drop_it(
                #[trigger] kept_lines(lines, drop_it)[i],
            ),
    decreases lines.len(),
{
    if lines.len() > 0 {
        lemma_kept_len(lines.drop_last(), drop_it);
        assert(lines.last() == lines[lines.len() - 1]);
        assert(forall|i: int|
            0 <= i < lines.len() - 1 ==> (#[trigger] lines.drop_last()[i]) == lines[i]);
        if forall|i: int| 0 <= i < lines.len() ==> !drop_it(#[trigger] lines[i]) {
            assert forall|i: int| 0 <= i < lines.drop_last().len() implies !drop_it(
                #[trigger] lines.drop_last()[i],
            ) by {
                assert(!drop_it(lines[i]));
            }
            assert(lines =~= lines.drop_last().push(lines.last()));
        }
        if kept_lines(lines, drop_it).len() == lines.len() {
            assert forall|i: int| 0 <= i < lines.len() implies !drop_it(#[trigger] lines[i]) by {
                if i < lines.len() - 1 {
                    assert(!drop_it(lines.drop_last()[i]));
                }
            }
        }
    }
}

/// Splits the lines of a file into those that a cutoff keeps.
fn keep_fresh(lines: Vec<EpisodeLine>, cutoff: u64) -> (kept: Vec<EpisodeLine>)
    ensures
        lines_view(kept@) == kept_lines(
            lines_view(lines@),
            |l: LineView| has_expired(l, cutoff),
        ),
{
    let ghost all = lines_view(lines@);
    let ghost drop_it = |l: LineView| has_expired(l, cutoff);
    let mut left = turn_round(lines);
    let mut kept: Vec<EpisodeLine> = Vec::new();
    assert(all.take(0) =~= Seq::<LineView>::empty());
    assert(lines_view(kept@) =~= kept_lines(all.take(0), drop_it));
    while left.len() > 0
        invariant
            left.len() <= all.len(),
            drop_it == (|l: LineView| has_expired(l, cutoff)),
            forall|k: int|
                0 <= k < left.len() ==> (#[trigger] left@[k])@ == all[all.len() - 1 - k],
            lines_view(kept@) == kept_lines(all.take(all.len() - left@.len()), drop_it),
        decreases left.len(),
    {
        let ghost done = all.len() - left@.len();
        assert(left@.last()@ == all[done]);
        assert(all.take(done + 1).drop_last() =~= all.take(done));
        if let Some(line) = left.pop() {
            assert(line@ == all[done]);
            let expired = match &line.event {
                Some(e) => e.ts_ms < cutoff && !e.important,
                None => false,
            };
            if !expired {
                let ghost so_far = kept@;
                kept.push(line);
                assert(lines_view(kept@) =~= lines_view(so_far).push(line@));
            }
        }
    }
    assert(all.take(all.len() as int) =~= all);
    kept
}

/// Splits the lines of a file into those without an id.
fn keep_others(lines: Vec<EpisodeLine>, id: &str) -> (kept: Vec<EpisodeLine>)
    ensures
        lines_view(kept@) == kept_lines(lines_view(lines@), |l: LineView| holds_id(l, id@)),
{
    let ghost all = lines_view(lines@);
    let ghost drop_it = |l: LineView| holds_id(l, id@);
    let mut left = turn_round(lines);
    let mut kept: Vec<EpisodeLine> = Vec::new();
    assert(all.take(0) =~= Seq::<LineView>::empty());
    assert(lines_view(kept@) =~= kept_lines(all.take(0), drop_it));
    while left.len() > 0
        invariant
            left.len() <= all.len(),
            drop_it == (|l: LineView| holds_id(l, id@)),
            forall|k: int|
                0 <= k < left.len() ==> (#[trigger] left@[k])@ == all[all.len() - 1 - k],
            lines_view(kept@) == kept_lines(all.take(all.len() - left@.len()), drop_it),
        decreases left.len(),
    {
        let ghost done = all.len() - left@.len();
        assert(left@.last()@ == all[done]);
        assert(all.take(done + 1).drop_last() =~= all.take(done));
        if let Some(line) = left.pop() {
            assert(line@ == all[done]);
            let found = match &line.event {
                Some(e) => text::same_text(e.id.as_str(), id),
                None => false,
            };
            if !found {
                let ghost so_far = kept@;
                kept.push(line);
                assert(lines_view(kept@) =~= lines_view(so_far).push(line@));
            }
        }
    }
    assert(all.take(all.len() as int) =~= all);
    kept
}

/// The values in the opposite order.
fn turn_round<T: View>(values: Vec<T>) -> (turned: Vec<T>)
    ensures
        turned.len() == values.len(),
        forall|k: int|
            0 <= k < turned.len() ==> (#[trigger] turned@[k])@ == values@[values@.len() - 1 - k]@,
{
    let mut left = values;
    let ghost all = left@;
    let mut turned: Vec<T> = Vec::new();
    while left.len() > 0
        invariant
            left@ == all.take(left@.len() as int),
            left@.len() + turned@.len() == all.len(),
            forall|k: int|
                0 <= k < turned.len() ==> (#[trigger] turned@[k])@ == all[all.len() - 1 - k]@,
        decreases left.len(),
    {
        let ghost before = left@;
        if let Some(x) = left.pop() {
            turned.push(x);
            assert(before.drop_last() =~= all.take(before.len() - 1));
        }
    }
    turned
}

impl MemoryStore {
    /// Drops the events older than `retention_days`, but for the important ones,
    /// and says how many were dropped.
    pub fn expire(&mut self, retention_days: u32, now_ms: u64) -> (expired: usize)
        ensures
            final(self)@ == (StoreView {
                days: expired_days(old(self)@.days, cutoff(retention_days, now_ms)),
                ..old(self)@
            }),
            expired == (if expired_count(old(self)@.days, cutoff(retention_days, now_ms))
                <= usize::MAX {
                expired_count(old(self)@.days, cutoff(retention_days, now_ms))
            } else {
                usize::MAX as nat
            }),
    {
        assert(retention_days * DAY_MS <= u64::MAX) by (nonlinear_arith)
            requires
                retention_days <= 0xffff_ffff,
                DAY_MS == 86_400_000,
        ;
        let limit: u64 = now_ms.saturating_sub(retention_days as u64 * DAY_MS);
        let ghost all = self@.days;
        let mut days: Vec<DayFile> = Vec::new();
        std::mem::swap(&mut days, &mut self.days);
        let ghost files = days@;
        let mut left = turn_round(days);
        let mut kept: Vec<DayFile> = Vec::new();
        let mut expired: usize = 0;
        assert(all.take(0) =~= Seq::<DayView>::empty());
        assert(days_view(kept@) =~= expired_days(all.take(0), limit));
        while left.len() > 0
            invariant
                left.len() <= all.len(),
                forall|k: int|
                    0 <= k < left.len() ==> (#[trigger] left@[k])@ == all[all.len() - 1 - k],
                days_view(kept@) == expired_days(all.take(all.len() - left@.len()), limit),
                expired == (if expired_count(all.take(all.len() - left@.len()), limit)
                    <= usize::MAX {
                    expired_count(all.take(all.len() - left@.len()), limit)
                } else {
                    usize::MAX as nat
                }),
            decreases left.len(),
        {
            let ghost done = all.len() - left@.len();
            assert(left@.last()@ == all[done]);
            assert(all.take(done + 1).drop_last() =~= all.take(done));
            if let Some(file) = left.pop() {
                assert(file@ == all[done]);
                let before: usize = file.lines.len();
                proof {
                    lemma_kept_len(all[done].lines, |l: LineView| has_expired(l, limit));
                }
                let lines = keep_fresh(file.lines, limit);
                assert(lines@.len() == lines_view(lines@).len());
                expired = expired.saturating_add(before - lines.len());
                if lines.len() > 0 {
                    let ghost so_far = kept@;
                    let now = DayFile { name: file.name, lines };
                    kept.push(now);
                    assert(days_view(kept@) =~= days_view(so_far).push(now@));
                }
            }
        }
        assert(all.take(all.len() as int) =~= all);
        self.days = kept;
        expired
    }

    /// Deletes the entries of this id or key in all layers, and says whether
    /// there was one.
    pub fn delete(&mut self, id: &str) -> (removed: bool)
        ensures
            final(self)@ == purged(old(self)@, id@),
            removed == holds_entry(old(self)@, id@),
    {
        proof {
            sorted_map::lemma_deep_without(self.procedural@, id@);
            sorted_map::lemma_deep_map(self.procedural@);
            sorted_map::lemma_deep_without(self.facts@, id@);
            sorted_map::lemma_deep_map(self.facts@);
        }
        let mut removed = self.procedural.remove(id).is_some();
        let fact_removed = self.facts.remove(id).is_some();
        removed = removed || fact_removed;
        let event_removed = self.purge_days(id);
        removed || event_removed
    }

    fn purge_days(&mut self, id: &str) -> (changed: bool)
        ensures
            final(self)@ == (StoreView { days: purged_days(old(self)@.days, id@), ..old(self)@ }),
            changed == some_line_holds(old(self)@.days, id@),
    {
        let ghost all = self@.days;
        let ghost drop_it = |l: LineView| holds_id(l, id@);
        let mut days: Vec<DayFile> = Vec::new();
        std::mem::swap(&mut days, &mut self.days);
        let mut left = turn_round(days);
        let mut kept: Vec<DayFile> = Vec::new();
        let mut changed = false;
        assert(all.take(0) =~= Seq::<DayView>::empty());
        assert(days_view(kept@) =~= purged_days(all.take(0), id@));
        while left.len() > 0
            invariant
                left.len() <= all.len(),
                drop_it == (|l: LineView| holds_id(l, id@)),
                forall|k: int|
                    0 <= k < left.len() ==> (#[trigger] left@[k])@ == all[all.len() - 1 - k],
                days_view(kept@) == purged_days(all.take(all.len() - left@.len()), id@),
                changed ==> some_line_holds(all, id@),
                !changed ==> forall|i: int, j: int|
                    0 <= i < all.len() - left@.len() && 0 <= j < all[i].lines.len() ==> !holds_id(
                        #[trigger] all[i].lines[j],
                        id@,
                    ),
            decreases left.len(),
        {
            let ghost done = all.len() - left@.len();
            assert(left@.last()@ == all[done]);
            assert(all.take(done + 1).drop_last() =~= all.take(done));
            if let Some(file) = left.pop() {
                assert(file@ == all[done]);
                let before: usize = file.lines.len();
                proof {
                    lemma_kept_len(all[done].lines, drop_it);
                }
                let lines = keep_others(file.lines, id);
                assert(lines@.len() == lines_view(lines@).len());
                let shorter = lines.len() < before;
                proof {
                    if shorter && forall|j: int|
                        0 <= j < all[done].lines.len() ==> !holds_id(
                            #[trigger] all[done].lines[j],
                            id@,
                        ) {
                        assert forall|j: int| 0 <= j < all[done].lines.len() implies !drop_it(
                            #[trigger] all[done].lines[j],
                        ) by {
                            assert(!holds_id(all[done].lines[j], id@));
                        }
                        assert(false);
                    }
                    if !shorter {
                        assert forall|j: int| 0 <= j < all[done].lines.len() implies !holds_id(
                            #[trigger] all[done].lines[j],
                            id@,
                        ) by {
                            assert(!drop_it(all[done].lines[j]));
                        }
                    }
                }
                changed = changed || shorter;
                if lines.len() > 0 || before == 0 {
                    let ghost so_far = kept@;
                    let now = DayFile { name: file.name, lines };
                    kept.push(now);
                    assert(days_view(kept@) =~= days_view(so_far).push(now@));
                }
            }
        }
        assert(all.take(all.len() as int) =~= all);
        self.days = kept;
        changed
    }

    /// Empties every layer.
    pub fn clear(&mut self)
        ensures
            final(self)@ == empty_store(),
    {
        *self = MemoryStore::empty();
    }
}

// ---------------------------------------------------------------------------
// Export and import
// ---------------------------------------------------------------------------

/// The values of the entries in the order of their keys.
pub open spec fn values<V>(entries: Seq<(Seq<char>, V)>) -> Seq<V> {
    Seq::new(entries.len(), |i: int| entries[i].1)
}

/// The snapshot of a store.
pub open spec fn snapshot_view(s: StoreView) -> SnapshotView {
    SnapshotView {
        profile: s.profile,
        facts: values(s.facts),
        procedural: values(s.procedural),
        episodes: episodes(s.days),
    }
}

/// The store with facts put in one after the other.
pub open spec fn with_facts(s: StoreView, facts: Seq<FactView>) -> StoreView
    decreases facts.len(),
{
    if facts.len() == 0 {
        s
    } else {
        let f = facts.last();
        with_fact(with_facts(s, facts.drop_last()), f.id, f.topic, f.content, f.updated_ms)
    }
}

/// The store with procedural entries put in one after the other.
pub open spec fn with_procedures(s: StoreView, entries: Seq<ProceduralView>) -> StoreView
    decreases entries.len(),
{
    if entries.len() == 0 {
        s
    } else {
        let e = entries.last();
        with_procedural(
            with_procedures(s, entries.drop_last()),
            e.key,
            e.content,
            e.confidence,
            e.correction,
            e.updated_ms,
        )
    }
}

/// Whether an event with this id is among the events.
pub open spec fn has_event(events: Seq<EpisodeView>, id: Seq<char>) -> bool {
    exists|i: int| 0 <= i < events.len() && (#[trigger] events[i]).id == id
}

/// The store with the events whose ids are not in `known`.
pub open spec fn with_new_episodes(
    s: StoreView,
    known: Seq<EpisodeView>,
    events: Seq<EpisodeView>,
) -> StoreView
    decreases events.len(),
{
    if events.len() == 0 {
        s
    } else {
        let before = with_new_episodes(s, known, events.drop_last());
        if has_event(known, events.last().id) {
            before
        } else {
            with_episode(before, events.last())
        }
    }
}

/// The store after an import: the profile replaced, facts and procedural entries
/// put in, and the events added whose ids the store did not have.
pub open spec fn imported(s: StoreView, snap: SnapshotView) -> StoreView {
    with_new_episodes(
        with_procedures(
            with_facts(StoreView { profile: snap.profile, ..s }, snap.facts),
            snap.procedural,
        ),
        episodes(s.days),
        snap.episodes,
    )
}

/// Facts and procedural entries leave the other layers alone.
pub proof fn lemma_puts_keep_days(s: StoreView, facts: Seq<FactView>, entries: Seq<ProceduralView>)
    ensures
        with_facts(s, facts).days == s.days,
        with_facts(s, facts).profile == s.profile,
        with_facts(s, facts).procedural == s.procedural,
        with_procedures(s, entries).days == s.days,
        with_procedures(s, entries).profile == s.profile,
        with_procedures(s, entries).facts == s.facts,
    decreases facts.len() + entries.len(),
{
    if facts.len() > 0 {
        lemma_puts_keep_days(s, facts.drop_last(), Seq::empty());
    }
    if entries.len() > 0 {
        lemma_puts_keep_days(s, Seq::empty(), entries.drop_last());
    }
}

fn event_known(events: &Vec<EpisodeEvent>, id: &str) -> (r: bool)
    ensures
        r == has_event(events_view(events@), id@),
{
    let ghost all = events_view(events@);
    let mut i: usize = 0;
    while i < events.len()
        invariant
            i <= events.len(),
            all == events_view(events@),
            forall|k: int| 0 <= k < i ==> (#[trigger] all[k]).id != id@,
        decreases events.len() - i,
    {
        if text::same_text(events[i].id.as_str(), id) {
            assert(all[i as int].id == id@);
            return true;
        }
        i += 1;
    }
    false
}

impl MemoryStore {
    /// The facts in the order of their ids.
    pub fn load_facts(&self) -> (facts: Vec<SemanticFact>)
        ensures
            Seq::new(facts@.len(), |i: int| facts@[i]@) == values(self@.facts),
    {
        let n: usize = self.facts.len();
        let mut facts: Vec<SemanticFact> = Vec::new();
        let mut i: usize = 0;
        while i < n
            invariant
                i <= n == self.facts@.len(),
                facts.len() == i,
                forall|k: int| 0 <= k < i ==> (#[trigger] facts@[k])@ == self@.facts[k].1,
            decreases n - i,
        {
            facts.push(self.facts.value_at(i).copy());
            i += 1;
        }
        assert(Seq::new(facts@.len(), |i: int| facts@[i]@) =~= values(self@.facts));
        facts
    }

    /// The procedural entries in the order of their keys.
    pub fn load_procedural(&self) -> (entries: Vec<ProceduralEntry>)
        ensures
            Seq::new(entries@.len(), |i: int| entries@[i]@) == values(self@.procedural),
    {
        let n: usize = self.procedural.len();
        let mut entries: Vec<ProceduralEntry> = Vec::new();
        let mut i: usize = 0;
        while i < n
            invariant
                i <= n == self.procedural@.len(),
                entries.len() == i,
                forall|k: int| 0 <= k < i ==> (#[trigger] entries@[k])@ == self@.procedural[k].1,
            decreases n - i,
        {
            entries.push(self.procedural.value_at(i).copy());
            i += 1;
        }
        assert(Seq::new(entries@.len(), |i: int| entries@[i]@) =~= values(self@.procedural));
        entries
    }

    /// Every layer as a snapshot.
    pub fn export_snapshot(&self) -> (snap: MemorySnapshot)
        ensures
            snap@ == snapshot_view(self@),
    {
        let snap = MemorySnapshot {
            profile: self.load_profile(),
            facts: self.load_facts(),
            procedural: self.load_procedural(),
            episodes: self.load_episodes(),
        };
        assert(snap@.episodes =~= episodes(self@.days));
        snap
    }

    /// Takes a snapshot in: the profile is replaced, facts and procedural entries
    /// are put in, and events are added whose ids are not there yet.
    pub fn import_snapshot(&mut self, snap: &MemorySnapshot)
        ensures
            final(self)@ == imported(old(self)@, snap@),
    {
        self.put_profile(&snap.profile);
        let ghost base = self@;
        let mut i: usize = 0;
        assert(snap@.facts.take(0) =~= Seq::<FactView>::empty());
        while i < snap.facts.len()
            invariant
                i <= snap.facts.len(),
                self@ == with_facts(base, snap@.facts.take(i as int)),
            decreases snap.facts.len() - i,
        {
            assert(snap@.facts.take(i + 1).drop_last() =~= snap@.facts.take(i as int));
            let f = &snap.facts[i];
            assert(snap@.facts[i as int] == f@);
            self.put_fact(f.id.as_str(), f.topic.as_str(), f.content.as_str(), f.updated_ms);
            i += 1;
        }
        assert(snap@.facts.take(i as int) =~= snap@.facts);
        let ghost with_all_facts = self@;
        let mut i: usize = 0;
        assert(snap@.procedural.take(0) =~= Seq::<ProceduralView>::empty());
        while i < snap.procedural.len()
            invariant
                i <= snap.procedural.len(),
                self@ == with_procedures(with_all_facts, snap@.procedural.take(i as int)),
            decreases snap.procedural.len() - i,
        {
            assert(snap@.procedural.take(i + 1).drop_last() =~= snap@.procedural.take(i as int));
            let p = &snap.procedural[i];
            assert(snap@.procedural[i as int] == p@);
            self.put_procedural(
                p.key.as_str(),
                p.content.as_str(),
                p.confidence,
                p.correction,
                p.updated_ms,
            );
            i += 1;
        }
        assert(snap@.procedural.take(i as int) =~= snap@.procedural);
        let ghost with_all = self@;
        proof {
            lemma_puts_keep_days(base, snap@.facts, Seq::empty());
            lemma_puts_keep_days(with_all_facts, Seq::empty(), snap@.procedural);
        }
        let known = self.load_episodes();
        let ghost known_view = events_view(known@);
        let mut i: usize = 0;
        assert(snap@.episodes.take(0) =~= Seq::<EpisodeView>::empty());
        while i < snap.episodes.len()
            invariant
                i <= snap.episodes.len(),
                known_view == events_view(known@),
                self@ == with_new_episodes(with_all, known_view, snap@.episodes.take(i as int)),
            decreases snap.episodes.len() - i,
        {
            assert(snap@.episodes.take(i + 1).drop_last() =~= snap@.episodes.take(i as int));
            let e = &snap.episodes[i];
            assert(snap@.episodes[i as int] == e@);
            if !event_known(&known, e.id.as_str()) {
                self.append_episode(e);
            }
            i += 1;
        }
        assert(snap@.episodes.take(i as int) =~= snap@.episodes);
    }
}

} // verus!
