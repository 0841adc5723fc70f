//! What memory holds, and what is asked of it.

use vstd::prelude::*;
use crate::json;
use crate::json::Json;
use crate::json::JsonView;
use crate::sorted_map;
use crate::sorted_map::SortedMap;
use crate::text;

verus! {

/// The milliseconds of one day.
pub const DAY_MS: u64 = 86_400_000;

/// The number one as the bits of an IEEE single.
pub const ONE_BITS: u32 = 0x3f80_0000;

/// The four layers.
#[derive(Debug, Clone, Copy, PartialEq, Eq, Structural)]
pub enum MemoryLayer {
    Episodic,
    Semantic,
    Procedural,
    Identity,
}

impl MemoryLayer {
    /// All layers, which is what an empty list of layers asks for.
    pub fn all() -> (layers: Vec<MemoryLayer>)
        ensures
            layers@ == seq![
                MemoryLayer::Episodic,
                MemoryLayer::Semantic,
                MemoryLayer::Procedural,
                MemoryLayer::Identity,
            ],
    {
        let mut layers: Vec<MemoryLayer> = Vec::new();
        layers.push(MemoryLayer::Episodic);
        layers.push(MemoryLayer::Semantic);
        layers.push(MemoryLayer::Procedural);
        layers.push(MemoryLayer::Identity);
        assert(layers@ =~= seq![
            MemoryLayer::Episodic,
            MemoryLayer::Semantic,
            MemoryLayer::Procedural,
            MemoryLayer::Identity,
        ]);
        layers
    }

    /// The layer's name on the wire.
    pub open spec fn wire(self) -> Seq<char> {
        match self {
            MemoryLayer::Episodic => "episodic"@,
            MemoryLayer::Semantic => "semantic"@,
            MemoryLayer::Procedural => "procedural"@,
            MemoryLayer::Identity => "identity"@,
        }
    }

    /// The layer's name on the wire.
    pub fn wire_name(self) -> (name: String)
        ensures
            name@ == self.wire(),
    {
        match self {
            MemoryLayer::Episodic => "episodic".to_string(),
            MemoryLayer::Semantic => "semantic".to_string(),
            MemoryLayer::Procedural => "procedural".to_string(),
            MemoryLayer::Identity => "identity".to_string(),
        }
    }
}

impl MemoryLayer {
    /// The layer's name for people.
    pub open spec fn title(self) -> Seq<char> {
        match self {
            MemoryLayer::Episodic => "Episodic"@,
            MemoryLayer::Semantic => "Semantic"@,
            MemoryLayer::Procedural => "Procedural"@,
            MemoryLayer::Identity => "Identity"@,
        }
    }

    /// The layer's name for people.
    pub fn title_text(self) -> (name: &'static str)
        ensures
            name@ == self.title(),
    {
        match self {
            MemoryLayer::Episodic => "Episodic",
            MemoryLayer::Semantic => "Semantic",
            MemoryLayer::Procedural => "Procedural",
            MemoryLayer::Identity => "Identity",
        }
    }

    /// The layer of a name on the wire.
    pub fn from_wire(name: &str) -> (layer: Option<MemoryLayer>)
        ensures
            layer == layer_of(name@),
    {
        if text::same_text(name, "episodic") {
            Some(MemoryLayer::Episodic)
        } else if text::same_text(name, "semantic") {
            Some(MemoryLayer::Semantic)
        } else if text::same_text(name, "procedural") {
            Some(MemoryLayer::Procedural)
        } else if text::same_text(name, "identity") {
            Some(MemoryLayer::Identity)
        } else {
            None
        }
    }
}

/// The layer of a name on the wire.
pub open spec fn layer_of(name: Seq<char>) -> Option<MemoryLayer> {
    if name == "episodic"@ {
        Some(MemoryLayer::Episodic)
    } else if name == "semantic"@ {
        Some(MemoryLayer::Semantic)
    } else if name == "procedural"@ {
        Some(MemoryLayer::Procedural)
    } else if name == "identity"@ {
        Some(MemoryLayer::Identity)
    } else {
        None
    }
}

/// A layer is found by its name on the wire.
pub proof fn lemma_layer_of(layer: MemoryLayer)
    ensures
        layer_of(layer.wire()) == Some(layer),
{
    reveal_strlit("episodic");
    reveal_strlit("semantic");
    reveal_strlit("procedural");
    reveal_strlit("identity");
    assert("episodic"@[0] == 'e' && "semantic"@[0] == 's' && "identity"@[0] == 'i');
    assert("procedural"@.len() == 10);
}

/// Whether a list of layers asks for a layer; an empty list asks for all.
pub open spec fn asks_for(layers: Seq<MemoryLayer>, layer: MemoryLayer) -> bool {
    layers.len() == 0 || layers.contains(layer)
}

/// Whether a list of layers asks for a layer.
pub fn wants(layers: &Vec<MemoryLayer>, layer: MemoryLayer) -> (r: bool)
    ensures
        r == asks_for(layers@, layer),
{
    if layers.len() == 0 {
        return true;
    }
    let mut i: usize = 0;
    while i < layers.len()
        invariant
            i <= layers.len(),
            forall|k: int| 0 <= k < i ==> layers@[k] != layer,
        decreases layers.len() - i,
    {
        if layers[i] == layer {
            return true;
        }
        i += 1;
    }
    false
}

// ---------------------------------------------------------------------------
// Episodes
// ---------------------------------------------------------------------------

/// Something that happened.
pub struct EpisodeEvent {
    pub id: String,
    pub kind: String,
    pub session_id: String,
    pub summary: String,
    pub outcome: String,
    pub ts_ms: u64,
    /// Important events do not expire.
    pub important: bool,
}

/// What an event is.
#[verifier::ext_equal]
pub struct EpisodeView {
    pub id: Seq<char>,
    pub kind: Seq<char>,
    pub session_id: Seq<char>,
    pub summary: Seq<char>,
    pub outcome: Seq<char>,
    pub ts_ms: u64,
    pub important: bool,
}

impl View for EpisodeEvent {
    type V = EpisodeView;

    open spec fn view(&self) -> EpisodeView {
        EpisodeView {
            id: self.id@,
            kind: self.kind@,
            session_id: self.session_id@,
            summary: self.summary@,
            outcome: self.outcome@,
            ts_ms: self.ts_ms,
            important: self.important,
        }
    }
}

/// A text as it is written in JSON.
pub open spec fn quoted(value: Seq<char>) -> Seq<char> {
    json::written(JsonView::Text(value))
}

/// A truth value as it is written in JSON.
pub open spec fn truth(value: bool) -> Seq<char> {
    if value {
        "true"@
    } else {
        "false"@
    }
}

/// The line of an event: its JSON text with the fields in order.
pub open spec fn event_line(event: EpisodeView) -> Seq<char> {
    "{\"id\":"@ + quoted(event.id) + ",\"kind\":"@ + quoted(event.kind) + ",\"session_id\":"@
        + quoted(event.session_id) + ",\"summary\":"@ + quoted(event.summary) + ",\"outcome\":"@
        + quoted(event.outcome) + ",\"ts_ms\":"@ + text::decimal(event.ts_ms as nat)
        + ",\"important\":"@ + truth(event.important) + "}"@
}

fn append_quoted(line: &mut String, value: &String)
    ensures
        final(line)@ == old(line)@ + quoted(value@),
{
    line.append(json::write(&Json::Text(value.clone())).as_str());
}

impl EpisodeEvent {
    /// The line of the event.
    pub fn line(&self) -> (line: String)
        ensures
            line@ == event_line(self@),
    {
        let mut line = "{\"id\":".to_string();
        append_quoted(&mut line, &self.id);
        line.append(",\"kind\":");
        append_quoted(&mut line, &self.kind);
        line.append(",\"session_id\":");
        append_quoted(&mut line, &self.session_id);
        line.append(",\"summary\":");
        append_quoted(&mut line, &self.summary);
        line.append(",\"outcome\":");
        append_quoted(&mut line, &self.outcome);
        line.append(",\"ts_ms\":");
        line.append(text::decimal_text(self.ts_ms).as_str());
        line.append(",\"important\":");
        line.append(if self.important { "true" } else { "false" });
        line.append("}");
        line
    }

    /// A copy of the event.
    pub fn copy(&self) -> (event: Self)
        ensures
            event@ == self@,
    {
        EpisodeEvent {
            id: self.id.clone(),
            kind: self.kind.clone(),
            session_id: self.session_id.clone(),
            summary: self.summary.clone(),
            outcome: self.outcome.clone(),
            ts_ms: self.ts_ms,
            important: self.important,
        }
    }
}

// ---------------------------------------------------------------------------
// Procedures and facts
// ---------------------------------------------------------------------------

/// How to do something here, or a correction by the user.
pub struct ProceduralEntry {
    pub key: String,
    pub content: String,
    /// From zero to one, as the bits of an IEEE single.
    pub confidence: u32,
    pub updated_ms: u64,
    pub correction: bool,
}

/// What a procedural entry is.
#[verifier::ext_equal]
pub struct ProceduralView {
    pub key: Seq<char>,
    pub content: Seq<char>,
    pub confidence: u32,
    pub updated_ms: u64,
    pub correction: bool,
}

impl View for ProceduralEntry {
    type V = ProceduralView;

    open spec fn view(&self) -> ProceduralView {
        ProceduralView {
            key: self.key@,
            content: self.content@,
            confidence: self.confidence,
            updated_ms: self.updated_ms,
            correction: self.correction,
        }
    }
}

impl ProceduralEntry {
    /// A copy of the entry.
    pub fn copy(&self) -> (entry: Self)
        ensures
            entry@ == self@,
    {
        ProceduralEntry {
            key: self.key.clone(),
            content: self.content.clone(),
            confidence: self.confidence,
            updated_ms: self.updated_ms,
            correction: self.correction,
        }
    }
}

/// The bits of an IEEE single, held between zero and one. A number below zero
/// becomes zero and one above one becomes one; what is not a number stays.
pub open spec fn clamped(bits: u32) -> u32 {
    if 0x8000_0000 < bits <= 0xff80_0000 {
        0
    } else if ONE_BITS < bits <= 0x7f80_0000 {
        ONE_BITS
    } else {
        bits
    }
}

/// The bits of an IEEE single, held between zero and one.
pub fn clamp_unit(bits: u32) -> (r: u32)
    ensures
        r == clamped(bits),
{
    if 0x8000_0000 < bits && bits <= 0xff80_0000 {
        0
    } else if ONE_BITS < bits && bits <= 0x7f80_0000 {
        ONE_BITS
    } else {
        bits
    }
}

/// Clamping once is clamping for good.
pub proof fn lemma_clamped_once(bits: u32)
    ensures
        clamped(clamped(bits)) == clamped(bits),
{
}

/// Something that is known.
pub struct SemanticFact {
    pub id: String,
    pub topic: String,
    pub content: String,
    pub updated_ms: u64,
}

/// What a fact is.
#[verifier::ext_equal]
pub struct FactView {
    pub id: Seq<char>,
    pub topic: Seq<char>,
    pub content: Seq<char>,
    pub updated_ms: u64,
}

impl View for SemanticFact {
    type V = FactView;

    open spec fn view(&self) -> FactView {
        FactView {
            id: self.id@,
            topic: self.topic@,
            content: self.content@,
            updated_ms: self.updated_ms,
        }
    }
}

impl SemanticFact {
    /// A copy of the fact.
    pub fn copy(&self) -> (fact: Self)
        ensures
            fact@ == self@,
    {
        SemanticFact {
            id: self.id.clone(),
            topic: self.topic.clone(),
            content: self.content.clone(),
            updated_ms: self.updated_ms,
        }
    }
}

// ---------------------------------------------------------------------------
// The user
// ---------------------------------------------------------------------------

/// What may leave the device or be kept.
#[derive(Debug, Clone, Copy, PartialEq, Eq, Structural)]
pub struct Privacy {
    pub sync_to_cloud: bool,
    pub store_voice_transcripts: bool,
    pub log_screen_content: bool,
    pub memory_retention_days: u32,
}

/// The safe settings: nothing leaves the device, no transcripts, ninety days.
pub open spec fn safe_privacy() -> Privacy {
    Privacy {
        sync_to_cloud: false,
        store_voice_transcripts: false,
        log_screen_content: false,
        memory_retention_days: 90,
    }
}

impl Default for Privacy {
    fn default() -> (privacy: Self)
        ensures
            privacy == safe_privacy(),
    {
        Privacy {
            sync_to_cloud: false,
            store_voice_transcripts: false,
            log_screen_content: false,
            memory_retention_days: 90,
        }
    }
}

/// The user model.
pub struct UserProfile {
    pub display_name: String,
    pub language: String,
    pub timezone: String,
    pub expertise: Vec<String>,
    pub preferences: SortedMap<String>,
    pub privacy: Privacy,
    pub updated_ms: u64,
}

/// What a profile is.
#[verifier::ext_equal]
pub struct ProfileView {
    pub display_name: Seq<char>,
    pub language: Seq<char>,
    pub timezone: Seq<char>,
    pub expertise: Seq<Seq<char>>,
    pub preferences: Seq<(Seq<char>, Seq<char>)>,
    pub privacy: Privacy,
    pub updated_ms: u64,
}

impl View for UserProfile {
    type V = ProfileView;

    open spec fn view(&self) -> ProfileView {
        ProfileView {
            display_name: self.display_name@,
            language: self.language@,
            timezone: self.timezone@,
            expertise: text::views(self.expertise@),
            preferences: sorted_map::deep(self.preferences@),
            privacy: self.privacy,
            updated_ms: self.updated_ms,
        }
    }
}

/// The profile of a user of whom nothing is known.
pub open spec fn blank_profile() -> ProfileView {
    ProfileView {
        display_name: Seq::empty(),
        language: "en"@,
        timezone: Seq::empty(),
        expertise: Seq::empty(),
        preferences: Seq::empty(),
        privacy: safe_privacy(),
        updated_ms: 0,
    }
}

impl Default for UserProfile {
    fn default() -> (profile: Self)
        ensures
            profile@ == blank_profile(),
    {
        let profile = UserProfile {
            display_name: String::new(),
            language: "en".to_string(),
            timezone: String::new(),
            expertise: Vec::new(),
            preferences: SortedMap::new(),
            privacy: Privacy::default(),
            updated_ms: 0,
        };
        assert(profile@ =~~= blank_profile());
        profile
    }
}

impl UserProfile {
    /// A copy of the profile.
    pub fn copy(&self) -> (profile: Self)
        ensures
            profile@ == self@,
    {
        UserProfile {
            display_name: self.display_name.clone(),
            language: self.language.clone(),
            timezone: self.timezone.clone(),
            expertise: text::copy_texts(&self.expertise),
            preferences: sorted_map::copy_texts_map(&self.preferences),
            privacy: self.privacy,
            updated_ms: self.updated_ms,
        }
    }
}

// ---------------------------------------------------------------------------
// Requests and replies
// ---------------------------------------------------------------------------

/// A question to memory.
pub enum MemoryQuery {
    /// Entries whose text holds terms of the query.
    Search { query: String, layers: Vec<MemoryLayer>, limit: usize },
    /// Entries updated at `since_ms` or later.
    Recent { since_ms: u64, layers: Vec<MemoryLayer> },
    /// The profile.
    UserProfile,
    /// The latest corrections.
    Corrections { limit: usize },
}

/// A change of memory.
pub enum MemoryWrite {
    Episode { event: EpisodeEvent },
    Procedural { key: String, content: String, confidence: u32 },
    UserCorrection { correction: String, context: String, ts_ms: u64 },
    Semantic { id: String, topic: String, content: String, ts_ms: u64 },
    Profile { profile: UserProfile },
}

/// How relevant a hit is.
#[derive(Debug, Clone, Copy, PartialEq, Eq, Structural)]
pub enum Score {
    /// All of it.
    Full,
    /// The share of the terms that were found, a quarter more where boosted,
    /// and one at most.
    Share { matched: usize, terms: usize, boosted: bool },
    /// The confidence of the entry, as the bits of an IEEE single.
    Confidence(u32),
}

/// One hit.
pub struct MemoryHit {
    pub layer: MemoryLayer,
    pub id: String,
    pub score: Score,
    pub content: String,
    pub ts_ms: u64,
}

/// What a hit is.
#[verifier::ext_equal]
pub struct HitView {
    pub layer: MemoryLayer,
    pub id: Seq<char>,
    pub score: Score,
    pub content: Seq<char>,
    pub ts_ms: u64,
}

impl View for MemoryHit {
    type V = HitView;

    open spec fn view(&self) -> HitView {
        HitView {
            layer: self.layer,
            id: self.id@,
            score: self.score,
            content: self.content@,
            ts_ms: self.ts_ms,
        }
    }
}

/// What a list of hits holds.
pub open spec fn hits_view(hits: Seq<MemoryHit>) -> Seq<HitView> {
    Seq::new(hits.len(), |i: int| hits[i]@)
}

/// A request frame.
pub enum MemoryRequest {
    Query(MemoryQuery),
    Write(MemoryWrite),
}

/// A reply frame.
pub enum MemoryResult {
    Hits { hits: Vec<MemoryHit> },
    Profile { profile: UserProfile },
    Done,
    Error { message: String },
}

/// What a reply is.
#[verifier::ext_equal]
pub enum ResultView {
    Hits(Seq<HitView>),
    Profile(ProfileView),
    Done,
    Error(Seq<char>),
}

impl View for MemoryResult {
    type V = ResultView;

    open spec fn view(&self) -> ResultView {
        match self {
            MemoryResult::Hits { hits } => ResultView::Hits(hits_view(hits@)),
            MemoryResult::Profile { profile } => ResultView::Profile(profile@),
            MemoryResult::Done => ResultView::Done,
            MemoryResult::Error { message } => ResultView::Error(message@),
        }
    }
}

/// Every layer, for export and import.
pub struct MemorySnapshot {
    pub profile: UserProfile,
    pub facts: Vec<SemanticFact>,
    pub procedural: Vec<ProceduralEntry>,
    pub episodes: Vec<EpisodeEvent>,
}

/// What a snapshot is.
#[verifier::ext_equal]
pub struct SnapshotView {
    pub profile: ProfileView,
    pub facts: Seq<FactView>,
    pub procedural: Seq<ProceduralView>,
    pub episodes: Seq<EpisodeView>,
}

impl View for MemorySnapshot {
    type V = SnapshotView;

    open spec fn view(&self) -> SnapshotView {
        SnapshotView {
            profile: self.profile@,
            facts: Seq::new(self.facts@.len(), |i: int| self.facts@[i]@),
            procedural: Seq::new(self.procedural@.len(), |i: int| self.procedural@[i]@),
            episodes: Seq::new(self.episodes@.len(), |i: int| self.episodes@[i]@),
        }
    }
}

/// The day bucket of a time.
pub fn day_index(ts_ms: u64) -> (day: u64)
    ensures
        day == ts_ms / DAY_MS,
{
    ts_ms / DAY_MS
}

// ---------------------------------------------------------------------------
// What is fixed
// ---------------------------------------------------------------------------

/// Each layer goes by its own word on the wire and is known by it, and no other word names a
/// layer.
pub proof fn lemma_layer_words(layer: MemoryLayer, word: Seq<char>)
    ensures
        layer_of(word) == Some(layer) <==> word == (match layer {
            MemoryLayer::Episodic => "episodic"@,
            MemoryLayer::Semantic => "semantic"@,
            MemoryLayer::Procedural => "procedural"@,
            MemoryLayer::Identity => "identity"@,
        }),
        layer_of(word) == Some(layer) <==> word == layer.wire(),
{
    reveal_strlit("episodic");
    reveal_strlit("semantic");
    reveal_strlit("procedural");
    reveal_strlit("identity");
    assert("episodic"@[0] == 'e' && "semantic"@[0] == 's' && "procedural"@[0] == 'p'
        && "identity"@[0] == 'i');
}

/// A layer is wanted where it is listed, and every layer is where none is listed.
pub proof fn lemma_wanted(layers: Vec<MemoryLayer>, layer: MemoryLayer, r: bool)
    requires
        call_ensures(wants, (&layers, layer), r),
    ensures
        layers@.len() == 0 ==> r,
        layers@.len() > 0 ==> r == exists|i: int|
            0 <= i < layers@.len() && #[trigger] layers@[i] == layer,
{
}

/// Nothing leaves the device by default: nothing is synchronised, no transcripts and no screens
/// are kept, and memory lasts ninety days. Of a new user nothing is known but a language.
pub proof fn lemma_nothing_leaves(privacy: Privacy, profile: UserProfile)
    requires
        call_ensures(<Privacy as Default>::default, (), privacy),
        call_ensures(<UserProfile as Default>::default, (), profile),
    ensures
        !privacy.sync_to_cloud,
        !privacy.store_voice_transcripts,
        !privacy.log_screen_content,
        privacy.memory_retention_days == 90,
        profile@.privacy == privacy,
        profile@.language == "en"@,
        profile@.display_name.len() == 0 && profile@.timezone.len() == 0,
        profile@.expertise.len() == 0 && profile@.preferences.len() == 0,
        profile@.updated_ms == 0,
{
}

/// A confidence is held between zero and one: what is below becomes zero, what is above becomes
/// one, and what lies between stays.
pub proof fn lemma_held_between(bits: u32, r: u32)
    requires
        call_ensures(clamp_unit, (bits,), r),
    ensures
        bits <= 0x3f80_0000 ==> r == bits,
        0x3f80_0000 < bits <= 0x7f80_0000 ==> r == 0x3f80_0000,
        0x8000_0000 < bits <= 0xff80_0000 ==> r == 0,
        bits == 0x8000_0000 ==> r == bits,
{
}

/// A day has twenty-four hours, and a time lies in the day that holds it.
pub proof fn lemma_day(ts_ms: u64, day: u64)
    requires
        call_ensures(day_index, (ts_ms,), day),
    ensures
        day * 86400000 <= ts_ms < (day + 1) * 86400000,
{
}

} // verus!
