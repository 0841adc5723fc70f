//! The rights that a node has granted.
//!
//! Rights are recorded under the artifact that they were granted to, so that
//! removing an artifact revokes exactly what it was granted.

use vstd::prelude::*;
use crate::agent::capability;
use crate::agent::capability::Capability;
use crate::agent::capability::CapabilitySet;
use crate::agent::capability::CapabilityView;
use crate::agent::capability::Payload;
use crate::json;
use crate::json::Json;
use crate::json::JsonNumber;
use crate::json::JsonNumberView;
use crate::json::JsonView;
use crate::sorted_map;
use crate::sorted_map::SortedMap;
use crate::text;

verus! {

/// The rights of one artifact.
pub struct Grants {
    pub caps: Vec<Capability>,
}

impl View for Grants {
    type V = Seq<CapabilityView>;

    open spec fn view(&self) -> Seq<CapabilityView> {
        capability::caps_view(self.caps@)
    }
}

/// The ledger of granted rights.
pub struct NodePolicy {
    /// Rights that belong to no artifact.
    pub granted: Vec<Capability>,
    /// The rights of each artifact.
    pub grants: SortedMap<Grants>,
}

/// What a ledger is.
#[verifier::ext_equal]
pub struct PolicyView {
    pub granted: Seq<CapabilityView>,
    pub grants: Seq<(Seq<char>, Seq<CapabilityView>)>,
}

impl View for NodePolicy {
    type V = PolicyView;

    open spec fn view(&self) -> PolicyView {
        PolicyView {
            granted: capability::caps_view(self.granted@),
            grants: sorted_map::deep(self.grants@),
        }
    }
}

impl PolicyView {
    /// Whether a right is granted, to an artifact or without one.
    pub open spec fn grants_right(self, cap: CapabilityView) -> bool {
        ||| self.granted.contains(cap)
        ||| exists|i: int| 0 <= i < self.grants.len() && (#[trigger] self.grants[i]).1.contains(cap)
    }

    /// The set of granted rights.
    pub open spec fn rights(self) -> Set<CapabilityView> {
        Set::new(|cap: CapabilityView| self.grants_right(cap))
    }
}

impl Default for NodePolicy {
    fn default() -> (policy: Self)
        ensures
            policy@ == (PolicyView { granted: Seq::empty(), grants: Seq::empty() }),
    {
        let policy = NodePolicy { granted: Vec::new(), grants: SortedMap::new() };
        assert(policy@.granted =~= Seq::<CapabilityView>::empty());
        assert(policy@.grants =~= Seq::<(Seq<char>, Seq<CapabilityView>)>::empty());
        policy
    }
}

fn insert_all(set: &mut CapabilitySet, caps: &Vec<Capability>)
    ensures
        forall|c: CapabilityView| #[trigger]
            final(set)@.contains(c) <==> old(set)@.contains(c) || capability::caps_view(
                caps@,
            ).contains(c),
{
    let ghost all = capability::caps_view(caps@);
    let mut i: usize = 0;
    while i < caps.len()
        invariant
            i <= caps.len(),
            all == capability::caps_view(caps@),
            forall|c: CapabilityView| #[trigger]
                set@.contains(c) <==> old(set)@.contains(c) || exists|k: int|
                    0 <= k < i && #[trigger] all[k] == c,
        decreases caps.len() - i,
    {
        let ghost before = set@;
        let cap = caps[i].copy();
        assert(cap@ == all[i as int]);
        set.insert(cap);
        assert forall|c: CapabilityView| #[trigger]
            set@.contains(c) <==> old(set)@.contains(c) || exists|k: int|
                0 <= k < i + 1 && #[trigger] all[k] == c by {
            if c == all[i as int] {
                assert(set@.contains(c));
            }
            assert(before.contains(c) <==> old(set)@.contains(c) || exists|k: int|
                0 <= k < i && #[trigger] all[k] == c);
        }
        i += 1;
    }
}

impl NodePolicy {
    /// All granted rights.
    pub fn to_capability_set(&self) -> (set: CapabilitySet)
        ensures
            set@ == self@.rights(),
    {
        let mut set = CapabilitySet::new();
        insert_all(&mut set, &self.granted);
        let n: usize = self.grants.len();
        let ghost grants = self@.grants;
        let mut i: usize = 0;
        while i < n
            invariant
                i <= n == self.grants@.len(),
                grants == self@.grants,
                forall|c: CapabilityView| #[trigger]
                    set@.contains(c) <==> self@.granted.contains(c) || exists|k: int|
                        0 <= k < i && (#[trigger] grants[k]).1.contains(c),
            decreases n - i,
        {
            let ghost before = set@;
            let g = self.grants.value_at(i);
            assert(grants[i as int].1 == g@);
            insert_all(&mut set, &g.caps);
            assert forall|c: CapabilityView| #[trigger]
                set@.contains(c) <==> self@.granted.contains(c) || exists|k: int|
                    0 <= k < i + 1 && (#[trigger] grants[k]).1.contains(c) by {
                if grants[i as int].1.contains(c) {
                    assert(set@.contains(c));
                }
                assert(before.contains(c) <==> self@.granted.contains(c) || exists|k: int|
                    0 <= k < i && (#[trigger] grants[k]).1.contains(c));
            }
            i += 1;
        }
        assert(set@ =~= self@.rights());
        set
    }

    /// How many different rights are granted.
    pub fn grant_count(&self) -> (n: usize)
        ensures
            self@.rights().finite(),
            n == self@.rights().len(),
    {
        self.to_capability_set().len()
    }

    /// Records the rights of an artifact in place of those it had.
    pub fn set_artifact(&mut self, artifact_id: &str, caps: Vec<Capability>)
        ensures
            final(self)@ == (PolicyView {
                grants: sorted_map::put(
                    old(self)@.grants,
                    artifact_id@,
                    capability::caps_view(caps@),
                ),
                ..old(self)@
            }),
            sorted_map::ascending(final(self)@.grants),
    {
        let value = Grants { caps };
        proof {
            sorted_map::lemma_deep_put(self.grants@, artifact_id@, value);
        }
        self.grants.insert(artifact_id, value);
        proof {
            sorted_map::lemma_deep_map(self.grants@);
        }
    }

    /// Revokes the rights of an artifact, and says whether it had an entry.
    pub fn remove_artifact(&mut self, artifact_id: &str) -> (removed: bool)
        ensures
            final(self)@ == (PolicyView {
                grants: sorted_map::without(old(self)@.grants, artifact_id@),
                ..old(self)@
            }),
            sorted_map::ascending(final(self)@.grants),
            removed == sorted_map::as_map(old(self)@.grants).dom().contains(artifact_id@),
    {
        proof {
            sorted_map::lemma_deep_without(self.grants@, artifact_id@);
            sorted_map::lemma_deep_map(self.grants@);
        }
        let removed = self.grants.remove(artifact_id).is_some();
        proof {
            sorted_map::lemma_deep_map(self.grants@);
        }
        removed
    }
}

/// Removing an artifact revokes its rights and no other artifact's: the entry of
/// the artifact goes, every other entry and the rights without an artifact stay.
pub proof fn lemma_remove_revokes_only_its_grants(p: PolicyView, id: Seq<char>)
    requires
        sorted_map::ascending(p.grants),
    ensures
        ({
            let q = PolicyView { grants: sorted_map::without(p.grants, id), ..p };
            &&& q.granted == p.granted
            &&& sorted_map::as_map(q.grants) == sorted_map::as_map(p.grants).remove(id)
            &&& forall|c: CapabilityView| #[trigger]
                q.grants_right(c) <==> p.granted.contains(c) || exists|i: int|
                    0 <= i < p.grants.len() && (#[trigger] p.grants[i]).0 != id
                        && p.grants[i].1.contains(c)
        }),
{
    sorted_map::lemma_without(p.grants, id);
    let q = PolicyView { grants: sorted_map::without(p.grants, id), ..p };
    sorted_map::lemma_as_map(p.grants);
    sorted_map::lemma_as_map(q.grants);
    assert forall|c: CapabilityView| #[trigger]
        q.grants_right(c) <==> p.granted.contains(c) || exists|i: int|
            0 <= i < p.grants.len() && (#[trigger] p.grants[i]).0 != id && p.grants[i].1.contains(
                c,
            ) by {
        if exists|i: int| 0 <= i < q.grants.len() && (#[trigger] q.grants[i]).1.contains(c) {
            let i = choose|i: int|
                0 <= i < q.grants.len() && (#[trigger] q.grants[i]).1.contains(c);
            let key = q.grants[i].0;
            assert(sorted_map::has_key(q.grants, key));
            assert(sorted_map::as_map(q.grants).dom().contains(key));
            assert(sorted_map::as_map(q.grants)[key] == q.grants[i].1);
            assert(sorted_map::as_map(p.grants).dom().contains(key) && key != id);
            assert(sorted_map::has_key(p.grants, key));
            let k = choose|k: int| 0 <= k < p.grants.len() && (#[trigger] p.grants[k]).0 == key;
            assert(p.grants[k].1 == q.grants[i].1);
        }
        if exists|i: int|
            0 <= i < p.grants.len() && (#[trigger] p.grants[i]).0 != id && p.grants[i].1.contains(
                c,
            ) {
            let i = choose|i: int|
                0 <= i < p.grants.len() && (#[trigger] p.grants[i]).0 != id
                    && p.grants[i].1.contains(c);
            let key = p.grants[i].0;
            assert(sorted_map::has_key(p.grants, key));
            assert(sorted_map::as_map(p.grants).dom().contains(key));
            assert(sorted_map::as_map(p.grants)[key] == p.grants[i].1);
            assert(sorted_map::as_map(q.grants).dom().contains(key));
            assert(sorted_map::has_key(q.grants, key));
            let k = choose|k: int| 0 <= k < q.grants.len() && (#[trigger] q.grants[k]).0 == key;
            assert(q.grants[k].1 == p.grants[i].1);
        }
    }
}

// ---------------------------------------------------------------------------
// The ledger as JSON
// ---------------------------------------------------------------------------

/// A right as JSON: its kind, or an object that maps its kind to what it
/// carries.
pub open spec fn right_json(cap: CapabilityView) -> JsonView {
    match cap.payload() {
        Payload::Nothing => JsonView::Text(cap.kind()),
        Payload::Text(t) => JsonView::Object(Map::empty().insert(cap.kind(), JsonView::Text(t))),
        Payload::Number(n) => JsonView::Object(
            Map::empty().insert(
                cap.kind(),
                JsonView::Number(JsonNumberView::Natural(n as u64)),
            ),
        ),
    }
}

/// The right of a kind that carries nothing.
pub open spec fn unit_right(name: Seq<char>) -> Option<CapabilityView> {
    if name == "NetworkOutbound"@ {
        Some(CapabilityView::NetworkOutbound)
    } else if name == "NetworkStream"@ {
        Some(CapabilityView::NetworkStream)
    } else if name == "AudioOutput"@ {
        Some(CapabilityView::AudioOutput)
    } else if name == "AudioInput"@ {
        Some(CapabilityView::AudioInput)
    } else if name == "GpuCompute"@ {
        Some(CapabilityView::GpuCompute)
    } else if name == "GpuDisplay"@ {
        Some(CapabilityView::GpuDisplay)
    } else if name == "ProcessSpawn"@ {
        Some(CapabilityView::ProcessSpawn)
    } else if name == "ProcessKill"@ {
        Some(CapabilityView::ProcessKill)
    } else if name == "WaylandSurface"@ {
        Some(CapabilityView::WaylandSurface)
    } else if name == "WaylandInput"@ {
        Some(CapabilityView::WaylandInput)
    } else if name == "AccessibilityTree"@ {
        Some(CapabilityView::AccessibilityTree)
    } else if name == "AgentSpawn"@ {
        Some(CapabilityView::AgentSpawn)
    } else if name == "AgentKill"@ {
        Some(CapabilityView::AgentKill)
    } else if name == "FleetControl"@ {
        Some(CapabilityView::FleetControl)
    } else {
        None
    }
}

/// The right of a kind with what it carries.
pub open spec fn tagged_right(kind: Seq<char>, value: JsonView) -> Option<CapabilityView> {
    if kind == "FsRead"@ {
        match value.text() {
            Some(t) => Some(CapabilityView::FsRead(t)),
            None => None,
        }
    } else if kind == "FsWrite"@ {
        match value.text() {
            Some(t) => Some(CapabilityView::FsWrite(t)),
            None => None,
        }
    } else if kind == "UsbDevice"@ {
        match value.text() {
            Some(t) => Some(CapabilityView::UsbDevice(t)),
            None => None,
        }
    } else if kind == "SystemdUnit"@ {
        match value.text() {
            Some(t) => Some(CapabilityView::SystemdUnit(t)),
            None => None,
        }
    } else if kind == "KernelModule"@ {
        match value.text() {
            Some(t) => Some(CapabilityView::KernelModule(t)),
            None => None,
        }
    } else if kind == "SecretsRead"@ {
        match value.text() {
            Some(t) => Some(CapabilityView::SecretsRead(t)),
            None => None,
        }
    } else if kind == "NetworkInbound"@ {
        match value {
            JsonView::Number(JsonNumberView::Natural(n)) => if n <= 0xffff {
                Some(CapabilityView::NetworkInbound(n as u16))
            } else {
                None
            },
            _ => None,
        }
    } else if value == JsonView::Null {
        unit_right(kind)
    } else {
        None
    }
}

/// The right that a document stands for.
pub open spec fn right_of_json(v: JsonView) -> Option<CapabilityView> {
    match v {
        JsonView::Text(name) => unit_right(name),
        _ => match json::only_field(v) {
            Some((kind, value)) => tagged_right(kind, value),
            None => None,
        },
    }
}

/// Several rights as JSON.
pub open spec fn rights_json(caps: Seq<CapabilityView>) -> JsonView {
    JsonView::Array(Seq::new(caps.len(), |i: int| right_json(caps[i])))
}

/// The rights that several documents stand for, if each stands for one.
pub open spec fn rights_of_list(items: Seq<JsonView>) -> Option<Seq<CapabilityView>>
    decreases items.len(),
{
    if items.len() == 0 {
        Some(Seq::empty())
    } else {
        match (rights_of_list(items.drop_last()), right_of_json(items.last())) {
            (Some(before), Some(cap)) => Some(before.push(cap)),
            _ => None,
        }
    }
}

/// The rights that a document stands for, if it is a list of rights.
pub open spec fn rights_of_json(v: JsonView) -> Option<Seq<CapabilityView>> {
    match v {
        JsonView::Array(items) => rights_of_list(items),
        _ => None,
    }
}

/// The object with the rights of each artifact.
pub open spec fn grants_map(grants: Seq<(Seq<char>, Seq<CapabilityView>)>) -> Map<
    Seq<char>,
    JsonView,
>
    decreases grants.len(),
{
    if grants.len() == 0 {
        Map::empty()
    } else {
        grants_map(grants.drop_last()).insert(grants.last().0, rights_json(grants.last().1))
    }
}

/// The object with one more field, unless there is nothing to say.
pub open spec fn with_if(
    fields: Map<Seq<char>, JsonView>,
    name: Seq<char>,
    value: JsonView,
    present: bool,
) -> Map<Seq<char>, JsonView> {
    if present {
        fields.insert(name, value)
    } else {
        fields
    }
}

/// The ledger as JSON; empty parts are left out.
pub open spec fn policy_json(p: PolicyView) -> JsonView {
    JsonView::Object(
        with_if(
            with_if(Map::empty(), "granted"@, rights_json(p.granted), p.granted.len() > 0),
            "grants"@,
            JsonView::Object(grants_map(p.grants)),
            p.grants.len() > 0,
        ),
    )
}

/// The rights without an artifact in a ledger; none where the field is missing.
pub open spec fn granted_of(v: JsonView) -> Option<Seq<CapabilityView>> {
    match v.field("granted"@) {
        Some(list) => rights_of_json(list),
        None => Some(Seq::empty()),
    }
}

/// The rights per artifact in a ledger; none where the field is missing.
pub open spec fn grants_of(v: JsonView) -> Option<Map<Seq<char>, JsonView>> {
    match v.field("grants"@) {
        Some(JsonView::Object(m)) => Some(m),
        Some(_) => None,
        None => Some(Map::empty()),
    }
}

/// The members of a ledger.
pub open spec fn policy_fields() -> Seq<&'static str> {
    seq!["granted", "grants"]
}

/// Whether a document is a ledger.
pub open spec fn is_policy(v: JsonView) -> bool {
    &&& v is Object
    &&& granted_of(v) is Some
    &&& grants_of(v) matches Some(m) && forall|id: Seq<char>| #[trigger]
        m.dom().contains(id) ==> rights_of_json(m[id]) is Some
}

/// Whether the document is the ledger `p`.
pub open spec fn reads_as(v: JsonView, p: PolicyView) -> bool {
    &&& granted_of(v) == Some(p.granted)
    &&& sorted_map::ascending(p.grants)
    &&& sorted_map::as_map(p.grants).dom() == (grants_of(v)->0).dom()
    &&& forall|id: Seq<char>| #[trigger]
        sorted_map::as_map(p.grants).dom().contains(id) ==> rights_of_json((grants_of(v)->0)[id])
            == Some(sorted_map::as_map(p.grants)[id])
}

fn read_unit_right(name: &str) -> (cap: Option<Capability>)
    ensures
        opt_right(cap) == unit_right(name@),
{
    if text::same_text(name, "NetworkOutbound") {
        Some(Capability::NetworkOutbound)
    } else if text::same_text(name, "NetworkStream") {
        Some(Capability::NetworkStream)
    } else if text::same_text(name, "AudioOutput") {
        Some(Capability::AudioOutput)
    } else if text::same_text(name, "AudioInput") {
        Some(Capability::AudioInput)
    } else if text::same_text(name, "GpuCompute") {
        Some(Capability::GpuCompute)
    } else if text::same_text(name, "GpuDisplay") {
        Some(Capability::GpuDisplay)
    } else if text::same_text(name, "ProcessSpawn") {
        Some(Capability::ProcessSpawn)
    } else if text::same_text(name, "ProcessKill") {
        Some(Capability::ProcessKill)
    } else if text::same_text(name, "WaylandSurface") {
        Some(Capability::WaylandSurface)
    } else if text::same_text(name, "WaylandInput") {
        Some(Capability::WaylandInput)
    } else if text::same_text(name, "AccessibilityTree") {
        Some(Capability::AccessibilityTree)
    } else if text::same_text(name, "AgentSpawn") {
        Some(Capability::AgentSpawn)
    } else if text::same_text(name, "AgentKill") {
        Some(Capability::AgentKill)
    } else if text::same_text(name, "FleetControl") {
        Some(Capability::FleetControl)
    } else {
        None
    }
}

fn read_tagged_right(kind: &str, value: &Json) -> (cap: Option<Capability>)
    ensures
        opt_right(cap) == tagged_right(kind@, value@),
{
    if text::same_text(kind, "FsRead") {
        match value {
            Json::Text(t) => Some(Capability::FsRead(t.clone())),
            _ => None,
        }
    } else if text::same_text(kind, "FsWrite") {
        match value {
            Json::Text(t) => Some(Capability::FsWrite(t.clone())),
            _ => None,
        }
    } else if text::same_text(kind, "UsbDevice") {
        match value {
            Json::Text(t) => Some(Capability::UsbDevice(t.clone())),
            _ => None,
        }
    } else if text::same_text(kind, "SystemdUnit") {
        match value {
            Json::Text(t) => Some(Capability::SystemdUnit(t.clone())),
            _ => None,
        }
    } else if text::same_text(kind, "KernelModule") {
        match value {
            Json::Text(t) => Some(Capability::KernelModule(t.clone())),
            _ => None,
        }
    } else if text::same_text(kind, "SecretsRead") {
        match value {
            Json::Text(t) => Some(Capability::SecretsRead(t.clone())),
            _ => None,
        }
    } else if text::same_text(kind, "NetworkInbound") {
        match value {
            Json::Number(JsonNumber::Natural(n)) => if *n <= 0xffff {
                Some(Capability::NetworkInbound(*n as u16))
            } else {
                None
            },
            _ => None,
        }
    } else if matches!(value, Json::Null) {
        read_unit_right(kind)
    } else {
        None
    }
}

/// The right in an optional right.
pub open spec fn opt_right(cap: Option<Capability>) -> Option<CapabilityView> {
    match cap {
        Some(c) => Some(c@),
        None => None,
    }
}

fn read_right(v: &Json) -> (cap: Option<Capability>)
    ensures
        opt_right(cap) == right_of_json(v@),
{
    match v {
        Json::Text(name) => read_unit_right(name.as_str()),
        _ => match v.single_field() {
            Some((kind, value)) => read_tagged_right(kind.as_str(), value),
            None => None,
        },
    }
}

fn read_rights(v: &Json) -> (caps: Option<Vec<Capability>>)
    ensures
        (match caps {
            Some(list) => Some(capability::caps_view(list@)),
            None => None,
        }) == rights_of_json(v@),
{
    match v {
        Json::Array(items) => {
            let ghost all = json::items_view(items@);
            proof {
                json::lemma_items_view(items@);
            }
            let mut caps: Vec<Capability> = Vec::new();
            let mut i: usize = 0;
            assert(all.take(0) =~= Seq::<JsonView>::empty());
            assert(capability::caps_view(caps@) =~= Seq::<CapabilityView>::empty());
            while i < items.len()
                invariant
                    i <= items.len(),
                    all == json::items_view(items@),
                    all.len() == items.len(),
                    v@ == JsonView::Array(all),
                    forall|k: int| 0 <= k < items.len() ==> all[k] == (#[trigger] items@[k])@,
                    rights_of_list(all.take(i as int)) == Some(capability::caps_view(caps@)),
                decreases items.len() - i,
            {
                assert(all.take(i + 1).drop_last() =~= all.take(i as int));
                match read_right(&items[i]) {
                    Some(cap) => {
                        let ghost before = caps@;
                        caps.push(cap);
                        assert(capability::caps_view(caps@) =~= capability::caps_view(before).push(
                            cap@,
                        ));
                    },
                    None => {
                        proof {
                            lemma_list_fails(all, i as int);
                        }
                        return None;
                    },
                }
                i += 1;
            }
            assert(all.take(i as int) =~= all);
            Some(caps)
        },
        _ => None,
    }
}

proof fn lemma_list_fails(items: Seq<JsonView>, at: int)
    requires
        0 <= at < items.len(),
        right_of_json(items[at]) is None,
    ensures
        rights_of_list(items) is None,
    decreases items.len(),
{
    if at < items.len() - 1 {
        assert(items.drop_last()[at] == items[at]);
        lemma_list_fails(items.drop_last(), at);
    }
}

fn write_right(cap: &Capability) -> (v: Json)
    ensures
        v@ == right_json(cap@),
{
    let kind = cap.kind_name();
    match cap {
        Capability::FsRead(p) | Capability::FsWrite(p) | Capability::UsbDevice(p)
        | Capability::SystemdUnit(p) | Capability::KernelModule(p)
        | Capability::SecretsRead(p) => Json::object().with(
            kind.as_str(),
            Json::Text(p.clone()),
        ),
        Capability::NetworkInbound(n) => Json::object().with(
            kind.as_str(),
            Json::of_natural(*n as u64),
        ),
        _ => Json::Text(kind),
    }
}

fn write_rights(caps: &Vec<Capability>) -> (v: Json)
    ensures
        v@ == rights_json(capability::caps_view(caps@)),
{
    let mut items: Vec<Json> = Vec::new();
    let mut i: usize = 0;
    while i < caps.len()
        invariant
            i <= caps.len(),
            items.len() == i,
            forall|k: int| 0 <= k < i ==> (#[trigger] items@[k])@ == right_json(caps@[k]@),
        decreases caps.len() - i,
    {
        items.push(write_right(&caps[i]));
        i += 1;
    }
    proof {
        json::lemma_items_view(items@);
    }
    let ghost wanted = rights_json(capability::caps_view(caps@))->Array_0;
    assert forall|k: int| 0 <= k < wanted.len() implies json::items_view(items@)[k]
        == #[trigger] wanted[k] by {
        assert(items@[k]@ == right_json(caps@[k]@));
    }
    assert(json::items_view(items@) =~= wanted);
    Json::Array(items)
}

impl NodePolicy {
    /// The ledger as JSON.
    pub fn to_json(&self) -> (v: Json)
        ensures
            v@ == policy_json(self@),
    {
        let mut v = Json::object();
        if self.granted.len() > 0 {
            v = v.with("granted", write_rights(&self.granted));
        }
        let n: usize = self.grants.len();
        let ghost grants = self@.grants;
        let mut per_artifact = Json::object();
        let mut i: usize = 0;
        assert(grants.take(0) =~= Seq::<(Seq<char>, Seq<CapabilityView>)>::empty());
        while i < n
            invariant
                i <= n == self.grants@.len(),
                grants == self@.grants,
                per_artifact@ == JsonView::Object(grants_map(grants.take(i as int))),
            decreases n - i,
        {
            assert(grants.take(i + 1).drop_last() =~= grants.take(i as int));
            let g = self.grants.value_at(i);
            assert(grants[i as int].1 == g@);
            per_artifact = per_artifact.with(
                self.grants.key_at(i).as_str(),
                write_rights(&g.caps),
            );
            i += 1;
        }
        assert(grants.take(i as int) =~= grants);
        if n > 0 {
            v = v.with("grants", per_artifact);
        }
        v
    }

    /// The ledger that a document holds, by the names of its members or by their places. A
    /// missing part is empty.
    pub fn from_json(v: &Json) -> (policy: Option<NodePolicy>)
        ensures
            match policy {
                Some(p) => is_policy(json::named(v@, policy_fields())) && reads_as(
                    json::named(v@, policy_fields()),
                    p@,
                ),
                None => !is_policy(json::named(v@, policy_fields())),
            },
    {
        let names: Vec<&'static str> = vec!["granted", "grants"];
        assert(names@ =~= policy_fields());
        NodePolicy::of_members(&v.with_names(&names))
    }

    /// The ledger that an object holds.
    fn of_members(v: &Json) -> (policy: Option<NodePolicy>)
        ensures
            match policy {
                Some(p) => is_policy(v@) && reads_as(v@, p@),
                None => !is_policy(v@),
            },
    {
        match v {
            Json::Object(fields) => {},
            _ => {
                return None;
            },
        }
        let granted = match v.get("granted") {
            Some(list) => match read_rights(list) {
                Some(caps) => caps,
                None => {
                    return None;
                },
            },
            None => Vec::new(),
        };
        assert(granted_of(v@) =~= Some(capability::caps_view(granted@))) by {
            if v@.field("granted"@) is None {
                assert(capability::caps_view(granted@) =~= Seq::<CapabilityView>::empty());
            }
        }
        let mut grants: SortedMap<Grants> = SortedMap::new();
        match v.get("grants") {
            None => {
                let policy = NodePolicy { granted, grants };
                assert(policy@.grants =~= Seq::<(Seq<char>, Seq<CapabilityView>)>::empty());
                assert(sorted_map::as_map(policy@.grants) =~= Map::<
                    Seq<char>,
                    Seq<CapabilityView>,
                >::empty());
                return Some(policy);
            },
            Some(inner) => {
                let fields = match inner {
                    Json::Object(fields) => fields,
                    _ => {
                        return None;
                    },
                };
                let ghost m = json::fields_view(fields@);
                let mut i: usize = 0;
                assert(fields@.take(0) =~= Seq::<(String, Json)>::empty());
                assert(sorted_map::as_map(sorted_map::deep(grants@)) =~= Map::<
                    Seq<char>,
                    Seq<CapabilityView>,
                >::empty());
                while i < fields.len()
                    invariant
                        i <= fields.len(),
                        v@ is Object,
                        v@.field("grants"@) == Some(JsonView::Object(m)),
                        m == json::fields_view(fields@),
                        inner@ == JsonView::Object(m),
                        sorted_map::ascending(sorted_map::deep(grants@)),
                        sorted_map::as_map(sorted_map::deep(grants@)).dom() == json::fields_view(
                            fields@.take(i as int),
                        ).dom(),
                        forall|id: Seq<char>| #[trigger]
                            sorted_map::as_map(sorted_map::deep(grants@)).dom().contains(id)
                                ==> rights_of_json(m[id]) == Some(
                                sorted_map::as_map(sorted_map::deep(grants@))[id],
                            ),
                    decreases fields.len() - i,
                {
                    assert(fields@.take(i + 1).drop_last() =~= fields@.take(i as int));
                    let ghost before = grants@;
                    proof {
                        json::lemma_fields_present(fields@, i as int);
                    }
                    let read = match inner.get(fields[i].0.as_str()) {
                        Some(list) => read_rights(list),
                        None => None,
                    };
                    match read {
                        Some(caps) => {
                            let value = Grants { caps };
                            proof {
                                sorted_map::lemma_deep_put(before, fields@[i as int].0@, value);
                                sorted_map::lemma_put(
                                    sorted_map::deep(before),
                                    fields@[i as int].0@,
                                    value@,
                                );
                            }
                            grants.insert(fields[i].0.as_str(), value);
                            assert(sorted_map::as_map(sorted_map::deep(grants@)).dom()
                                =~= json::fields_view(fields@.take(i + 1)).dom());
                        },
                        None => {
                            assert(m.dom().contains(fields@[i as int].0@));
                            return None;
                        },
                    }
                    i += 1;
                }
                assert(fields@.take(i as int) =~= fields@);
                return Some(NodePolicy { granted, grants });
            },
        }
    }
}

/// Each kind of right has its own name.
proof fn lemma_right_comes_back(cap: CapabilityView)
    ensures
        right_of_json(right_json(cap)) == Some(cap),
{
    reveal_strlit("FsRead");
    reveal_strlit("FsWrite");
    reveal_strlit("NetworkOutbound");
    reveal_strlit("NetworkInbound");
    reveal_strlit("NetworkStream");
    reveal_strlit("AudioOutput");
    reveal_strlit("AudioInput");
    reveal_strlit("GpuCompute");
    reveal_strlit("GpuDisplay");
    reveal_strlit("UsbDevice");
    reveal_strlit("ProcessSpawn");
    reveal_strlit("ProcessKill");
    reveal_strlit("SystemdUnit");
    reveal_strlit("KernelModule");
    reveal_strlit("WaylandSurface");
    reveal_strlit("WaylandInput");
    reveal_strlit("AccessibilityTree");
    reveal_strlit("AgentSpawn");
    reveal_strlit("AgentKill");
    reveal_strlit("FleetControl");
    reveal_strlit("SecretsRead");
    assert("FsRead"@.len() == 6 && "FsRead"@[0] == 'F');
    assert("FsRead"@[1] == 's' && "FsRead"@[3] == 'e');
    assert("FsWrite"@.len() == 7 && "FsWrite"@[0] == 'F');
    assert("FsWrite"@[1] == 's' && "FsWrite"@[3] == 'r');
    assert("NetworkOutbound"@.len() == 15 && "NetworkOutbound"@[0] == 'N');
    assert("NetworkOutbound"@[1] == 'e' && "NetworkOutbound"@[3] == 'w');
    assert("NetworkInbound"@.len() == 14 && "NetworkInbound"@[0] == 'N');
    assert("NetworkInbound"@[1] == 'e' && "NetworkInbound"@[3] == 'w');
    assert("NetworkStream"@.len() == 13 && "NetworkStream"@[0] == 'N');
    assert("NetworkStream"@[1] == 'e' && "NetworkStream"@[3] == 'w');
    assert("AudioOutput"@.len() == 11 && "AudioOutput"@[0] == 'A');
    assert("AudioOutput"@[1] == 'u' && "AudioOutput"@[3] == 'i');
    assert("AudioInput"@.len() == 10 && "AudioInput"@[0] == 'A');
    assert("AudioInput"@[1] == 'u' && "AudioInput"@[3] == 'i');
    assert("GpuCompute"@.len() == 10 && "GpuCompute"@[0] == 'G');
    assert("GpuCompute"@[1] == 'p' && "GpuCompute"@[3] == 'C');
    assert("GpuDisplay"@.len() == 10 && "GpuDisplay"@[0] == 'G');
    assert("GpuDisplay"@[1] == 'p' && "GpuDisplay"@[3] == 'D');
    assert("UsbDevice"@.len() == 9 && "UsbDevice"@[0] == 'U');
    assert("UsbDevice"@[1] == 's' && "UsbDevice"@[3] == 'D');
    assert("ProcessSpawn"@.len() == 12 && "ProcessSpawn"@[0] == 'P');
    assert("ProcessSpawn"@[1] == 'r' && "ProcessSpawn"@[3] == 'c');
    assert("ProcessKill"@.len() == 11 && "ProcessKill"@[0] == 'P');
    assert("ProcessKill"@[1] == 'r' && "ProcessKill"@[3] == 'c');
    assert("SystemdUnit"@.len() == 11 && "SystemdUnit"@[0] == 'S');
    assert("SystemdUnit"@[1] == 'y' && "SystemdUnit"@[3] == 't');
    assert("KernelModule"@.len() == 12 && "KernelModule"@[0] == 'K');
    assert("KernelModule"@[1] == 'e' && "KernelModule"@[3] == 'n');
    assert("WaylandSurface"@.len() == 14 && "WaylandSurface"@[0] == 'W');
    assert("WaylandSurface"@[1] == 'a' && "WaylandSurface"@[3] == 'l');
    assert("WaylandInput"@.len() == 12 && "WaylandInput"@[0] == 'W');
    assert("WaylandInput"@[1] == 'a' && "WaylandInput"@[3] == 'l');
    assert("AccessibilityTree"@.len() == 17 && "AccessibilityTree"@[0] == 'A');
    assert("AccessibilityTree"@[1] == 'c' && "AccessibilityTree"@[3] == 'e');
    assert("AgentSpawn"@.len() == 10 && "AgentSpawn"@[0] == 'A');
    assert("AgentSpawn"@[1] == 'g' && "AgentSpawn"@[3] == 'n');
    assert("AgentKill"@.len() == 9 && "AgentKill"@[0] == 'A');
    assert("AgentKill"@[1] == 'g' && "AgentKill"@[3] == 'n');
    assert("FleetControl"@.len() == 12 && "FleetControl"@[0] == 'F');
    assert("FleetControl"@[1] == 'l' && "FleetControl"@[3] == 'e');
    assert("SecretsRead"@.len() == 11 && "SecretsRead"@[0] == 'S');
    assert("SecretsRead"@[1] == 'e' && "SecretsRead"@[3] == 'r');
    match cap.payload() {
        Payload::Nothing => {},
        _ => {
            let v = right_json(cap);
            assert(v->Object_0.dom() =~= set![cap.kind()]);
            json::lemma_only_field(v, cap.kind());
        },
    }
}

proof fn lemma_rights_come_back(caps: Seq<CapabilityView>)
    ensures
        rights_of_json(rights_json(caps)) == Some(caps),
    decreases caps.len(),
{
    let items = rights_json(caps)->Array_0;
    if caps.len() == 0 {
        assert(caps =~= Seq::<CapabilityView>::empty());
    } else {
        lemma_rights_come_back(caps.drop_last());
        lemma_right_comes_back(caps.last());
        assert(items.drop_last() =~= rights_json(caps.drop_last())->Array_0);
        assert(caps =~= caps.drop_last().push(caps.last()));
    }
}

proof fn lemma_grants_map(grants: Seq<(Seq<char>, Seq<CapabilityView>)>)
    ensures
        grants_map(grants).dom() == sorted_map::as_map(grants).dom(),
        forall|id: Seq<char>| #[trigger]
            grants_map(grants).dom().contains(id) ==> grants_map(grants)[id] == rights_json(
                sorted_map::as_map(grants)[id],
            ),
    decreases grants.len(),
{
    if grants.len() > 0 {
        lemma_grants_map(grants.drop_last());
    }
    assert(grants_map(grants).dom() =~= sorted_map::as_map(grants).dom());
}

/// A ledger written as JSON reads back as itself, and as nothing else.
pub proof fn lemma_policy_comes_back(p: PolicyView)
    requires
        sorted_map::ascending(p.grants),
    ensures
        is_policy(policy_json(p)),
        reads_as(policy_json(p), p),
        forall|q: PolicyView| #[trigger] reads_as(policy_json(p), q) ==> q == p,
{
    let v = policy_json(p);
    reveal_strlit("granted");
    reveal_strlit("grants");
    assert("granted"@.len() == 7 && "grants"@.len() == 6);
    lemma_rights_come_back(p.granted);
    lemma_grants_map(p.grants);
    if p.granted.len() == 0 {
        assert(p.granted =~= Seq::<CapabilityView>::empty());
    }
    if p.grants.len() == 0 {
        assert(sorted_map::as_map(p.grants) =~= Map::<Seq<char>, Seq<CapabilityView>>::empty());
        assert(grants_map(p.grants) =~= Map::<Seq<char>, JsonView>::empty());
    }
    let m = grants_of(v)->0;
    assert(m =~= grants_map(p.grants));
    assert forall|id: Seq<char>| #[trigger] m.dom().contains(id) implies rights_of_json(m[id])
        == Some(sorted_map::as_map(p.grants)[id]) by {
        lemma_rights_come_back(sorted_map::as_map(p.grants)[id]);
    }
    assert forall|q: PolicyView| #[trigger] reads_as(v, q) implies q == p by {
        let a = sorted_map::as_map(q.grants);
        let b = sorted_map::as_map(p.grants);
        assert(a.dom() =~= b.dom());
        assert forall|id: Seq<char>| #[trigger] a.dom().contains(id) implies a[id] == b[id] by {
            assert(m.dom().contains(id));
        }
        assert(a =~= b);
        sorted_map::lemma_same_map(q.grants, p.grants);
    }
}

// ---------------------------------------------------------------------------
// The ledger in its file
// ---------------------------------------------------------------------------

/// Why a ledger could not be read or kept.
pub enum PolicyError {
    Io(String),
    Parse(String),
}

/// What such an error is.
#[verifier::ext_equal]
pub enum PolicyErrorView {
    Io(Seq<char>),
    Parse(Seq<char>),
}

impl View for PolicyError {
    type V = PolicyErrorView;

    open spec fn view(&self) -> PolicyErrorView {
        match self {
            PolicyError::Io(e) => PolicyErrorView::Io(e@),
            PolicyError::Parse(e) => PolicyErrorView::Parse(e@),
        }
    }
}

impl PolicyErrorView {
    /// The error in words.
    pub open spec fn message(self) -> Seq<char> {
        match self {
            PolicyErrorView::Io(e) => "policy i/o: "@ + e,
            PolicyErrorView::Parse(e) => "policy parse: "@ + e,
        }
    }
}

impl PolicyError {
    /// The error in words.
    pub fn message(&self) -> (words: String)
        ensures
            words@ == self@.message(),
    {
        match self {
            PolicyError::Io(e) => "policy i/o: ".to_string().concat(e.as_str()),
            PolicyError::Parse(e) => "policy parse: ".to_string().concat(e.as_str()),
        }
    }
}

/// The ledger that a document holds.
pub open spec fn policy_in(v: JsonView) -> PolicyView {
    choose|p: PolicyView| reads_as(v, p)
}

/// The ledger in a file, by what is in the file, if there is one to read. Where
/// there is none nothing is granted. A file that holds no ledger is an error.
pub open spec fn loaded(content: Option<Seq<char>>) -> Result<PolicyView, PolicyErrorView> {
    match content {
        None => Ok(PolicyView { granted: Seq::empty(), grants: Seq::empty() }),
        Some(raw) => match json::reading(raw) {
            Err(e) => Err(PolicyErrorView::Parse(e)),
            Ok(v) => if is_policy(json::named(v, policy_fields())) {
                Ok(policy_in(json::named(v, policy_fields())))
            } else {
                Err(PolicyErrorView::Parse("not a policy"@))
            },
        },
    }
}

/// A result of loading.
pub open spec fn load_view(result: Result<NodePolicy, PolicyError>) -> Result<
    PolicyView,
    PolicyErrorView,
> {
    match result {
        Ok(p) => Ok(p@),
        Err(e) => Err(e@),
    }
}

/// A document holds one ledger at most.
pub proof fn lemma_one_ledger(v: JsonView, p: PolicyView, q: PolicyView)
    requires
        reads_as(v, p),
        reads_as(v, q),
    ensures
        p == q,
{
    let a = sorted_map::as_map(p.grants);
    let b = sorted_map::as_map(q.grants);
    assert(a.dom() =~= b.dom());
    assert forall|id: Seq<char>| #[trigger] a.dom().contains(id) implies a[id] == b[id] by {
        assert(b.dom().contains(id));
    }
    assert(a =~= b);
    sorted_map::lemma_same_map(p.grants, q.grants);
}

proof fn lemma_plain_rights(caps: Seq<CapabilityView>, depth: nat)
    requires
        depth >= 2,
    ensures
        json::plain(rights_json(caps), depth),
{
    let items = rights_json(caps)->Array_0;
    assert forall|i: int| 0 <= i < items.len() implies json::plain(
        #[trigger] items[i],
        (depth - 1) as nat,
    ) by {
        let v = right_json(caps[i]);
        assert(items[i] == v);
        if v is Object {
            assert forall|k: Seq<char>| (v->Object_0).dom().contains(k) implies json::plain(
                #[trigger] (v->Object_0)[k],
                (depth - 2) as nat,
            ) by {
                assert(k == caps[i].kind());
            }
        }
    }
}

proof fn lemma_plain_grants(grants: Seq<(Seq<char>, Seq<CapabilityView>)>, depth: nat)
    requires
        depth >= 2,
    ensures
        forall|k: Seq<char>|
            grants_map(grants).dom().contains(k) ==> json::plain(
                #[trigger] grants_map(grants)[k],
                depth,
            ),
    decreases grants.len(),
{
    if grants.len() > 0 {
        lemma_plain_grants(grants.drop_last(), depth);
        lemma_plain_rights(grants.last().1, depth);
        assert forall|k: Seq<char>| grants_map(grants).dom().contains(k) implies json::plain(
            #[trigger] grants_map(grants)[k],
            depth,
        ) by {
            if k != grants.last().0 {
                assert(grants_map(grants.drop_last()).dom().contains(k));
                assert(grants_map(grants)[k] == grants_map(grants.drop_last())[k]);
            }
        }
    }
}

proof fn lemma_plain_policy(p: PolicyView)
    ensures
        json::plain(policy_json(p), 127),
{
    let v = policy_json(p);
    lemma_plain_rights(p.granted, 126);
    lemma_plain_grants(p.grants, 125);
    assert(json::plain(JsonView::Object(grants_map(p.grants)), 126));
    assert forall|k: Seq<char>| (v->Object_0).dom().contains(k) implies json::plain(
        #[trigger] (v->Object_0)[k],
        126,
    ) by {
        if k != "grants"@ {
            assert(k == "granted"@);
        }
    }
}

impl NodePolicy {
    /// The ledger in a file, by what is in the file; nothing where there is no
    /// file or it cannot be read.
    pub fn load(content: Option<&str>) -> (result: Result<NodePolicy, PolicyError>)
        ensures
            load_view(result) == loaded(
                match content {
                    Some(c) => Some(c@),
                    None => None,
                },
            ),
            result matches Ok(p) ==> sorted_map::ascending(p@.grants),
    {
        let raw = match content {
            Some(c) => c,
            None => {
                return Ok(NodePolicy::default());
            },
        };
        match json::read(raw) {
            Err(e) => Err(PolicyError::Parse(e)),
            Ok(v) => match NodePolicy::from_json(&v) {
                Some(p) => {
                    proof {
                        let n = json::named(v@, policy_fields());
                        lemma_one_ledger(n, p@, policy_in(n));
                    }
                    Ok(p)
                },
                None => Err(PolicyError::Parse("not a policy".to_string())),
            },
        }
    }

    /// What goes into the file of the ledger. It loads as the same ledger.
    pub fn save(&self) -> (content: String)
        ensures
            content@ == json::written_pretty(policy_json(self@)),
            loaded(Some(content@)) == Ok::<PolicyView, PolicyErrorView>(self@),
    {
        let v = self.to_json();
        let n: usize = self.grants.len();
        proof {
            sorted_map::lemma_deep_map(self.grants@);
            lemma_plain_policy(self@);
            lemma_policy_comes_back(self@);
        }
        let content = json::write_pretty(&v);
        content
    }
}

/// A ledger is never granted more than is recorded: with rights recorded for an
/// artifact, a right is granted exactly if it is one of these or was granted
/// without the artifact.
pub proof fn lemma_only_declared_rights(
    p: PolicyView,
    id: Seq<char>,
    caps: Seq<CapabilityView>,
    right: CapabilityView,
)
    requires
        sorted_map::ascending(p.grants),
    ensures
        ({
            let with = PolicyView { grants: sorted_map::put(p.grants, id, caps), ..p };
            let bare = PolicyView { grants: sorted_map::without(p.grants, id), ..p };
            with.grants_right(right) <==> caps.contains(right) || bare.grants_right(right)
        }),
{
    let with = PolicyView { grants: sorted_map::put(p.grants, id, caps), ..p };
    let bare = PolicyView { grants: sorted_map::without(p.grants, id), ..p };
    sorted_map::lemma_put(p.grants, id, caps);
    sorted_map::lemma_without(p.grants, id);
    sorted_map::lemma_as_map(with.grants);
    sorted_map::lemma_as_map(bare.grants);
    let a = sorted_map::as_map(with.grants);
    let b = sorted_map::as_map(bare.grants);
    assert(a.dom().contains(id) && a[id] == caps);
    if caps.contains(right) {
        assert(sorted_map::has_key(with.grants, id));
        let i = choose|i: int| 0 <= i < with.grants.len() && (#[trigger] with.grants[i]).0 == id;
        assert(with.grants[i].1.contains(right));
    }
    if bare.grants_right(right) && !p.granted.contains(right) {
        let i = choose|i: int|
            0 <= i < bare.grants.len() && (#[trigger] bare.grants[i]).1.contains(right);
        let key = bare.grants[i].0;
        assert(sorted_map::has_key(bare.grants, key));
        assert(b.dom().contains(key));
        assert(a.dom().contains(key) && a[key] == b[key]);
        assert(sorted_map::has_key(with.grants, key));
        let k = choose|k: int| 0 <= k < with.grants.len() && (#[trigger] with.grants[k]).0 == key;
        assert(with.grants[k].1.contains(right));
    }
    if with.grants_right(right) && !p.granted.contains(right) && !caps.contains(right) {
        let i = choose|i: int|
            0 <= i < with.grants.len() && (#[trigger] with.grants[i]).1.contains(right);
        let key = with.grants[i].0;
        assert(sorted_map::has_key(with.grants, key));
        assert(a.dom().contains(key) && a[key] == with.grants[i].1);
        assert(b.dom().contains(key) && b[key] == a[key]);
        assert(sorted_map::has_key(bare.grants, key));
        let k = choose|k: int| 0 <= k < bare.grants.len() && (#[trigger] bare.grants[k]).0 == key;
        assert(bare.grants[k].1.contains(right));
    }
}

/// Recording an artifact's rights and removing the artifact leaves the ledger as
/// removing it would have.
pub proof fn lemma_uninstall_undoes_install(
    p: PolicyView,
    id: Seq<char>,
    caps: Seq<CapabilityView>,
)
    requires
        sorted_map::ascending(p.grants),
    ensures
        sorted_map::without(sorted_map::put(p.grants, id, caps), id) == sorted_map::without(
            p.grants,
            id,
        ),
{
    sorted_map::lemma_put(p.grants, id, caps);
    sorted_map::lemma_without(sorted_map::put(p.grants, id, caps), id);
    sorted_map::lemma_without(p.grants, id);
    assert(sorted_map::as_map(p.grants).insert(id, caps).remove(id) =~= sorted_map::as_map(
        p.grants,
    ).remove(id));
    sorted_map::lemma_same_map(
        sorted_map::without(sorted_map::put(p.grants, id, caps), id),
        sorted_map::without(p.grants, id),
    );
}

/// A right is written by its name, and one that is for something as an object of its name and
/// what it is for.
pub proof fn lemma_rights_on_the_wire(p: Seq<char>, n: u16)
    ensures
        right_json(CapabilityView::FsRead(p)) == JsonView::Object(
            Map::empty().insert("FsRead"@, JsonView::Text(p)),
        ),
        right_json(CapabilityView::FsWrite(p)) == JsonView::Object(
            Map::empty().insert("FsWrite"@, JsonView::Text(p)),
        ),
        right_json(CapabilityView::UsbDevice(p)) == JsonView::Object(
            Map::empty().insert("UsbDevice"@, JsonView::Text(p)),
        ),
        right_json(CapabilityView::SystemdUnit(p)) == JsonView::Object(
            Map::empty().insert("SystemdUnit"@, JsonView::Text(p)),
        ),
        right_json(CapabilityView::KernelModule(p)) == JsonView::Object(
            Map::empty().insert("KernelModule"@, JsonView::Text(p)),
        ),
        right_json(CapabilityView::SecretsRead(p)) == JsonView::Object(
            Map::empty().insert("SecretsRead"@, JsonView::Text(p)),
        ),
        right_json(CapabilityView::NetworkInbound(n)) == JsonView::Object(
            Map::empty().insert(
                "NetworkInbound"@,
                JsonView::Number(JsonNumberView::Natural(n as u64)),
            ),
        ),
        right_json(CapabilityView::NetworkOutbound) == JsonView::Text("NetworkOutbound"@),
        right_json(CapabilityView::NetworkStream) == JsonView::Text("NetworkStream"@),
        right_json(CapabilityView::AudioOutput) == JsonView::Text("AudioOutput"@),
        right_json(CapabilityView::AudioInput) == JsonView::Text("AudioInput"@),
        right_json(CapabilityView::GpuCompute) == JsonView::Text("GpuCompute"@),
        right_json(CapabilityView::GpuDisplay) == JsonView::Text("GpuDisplay"@),
        right_json(CapabilityView::ProcessSpawn) == JsonView::Text("ProcessSpawn"@),
        right_json(CapabilityView::ProcessKill) == JsonView::Text("ProcessKill"@),
        right_json(CapabilityView::WaylandSurface) == JsonView::Text("WaylandSurface"@),
        right_json(CapabilityView::WaylandInput) == JsonView::Text("WaylandInput"@),
        right_json(CapabilityView::AccessibilityTree) == JsonView::Text("AccessibilityTree"@),
        right_json(CapabilityView::AgentSpawn) == JsonView::Text("AgentSpawn"@),
        right_json(CapabilityView::AgentKill) == JsonView::Text("AgentKill"@),
        right_json(CapabilityView::FleetControl) == JsonView::Text("FleetControl"@),
{
}

/// A ledger is written as an object with the list of the rights that belong to no artifact
/// under `granted`, and with the list of the rights of each artifact under its id in `grants`,
/// where there are any. Where there is no file nothing is granted.
pub proof fn lemma_ledger_on_the_wire(p: PolicyView, i: int)
    requires
        sorted_map::ascending(p.grants),
    ensures
        policy_json(p) matches JsonView::Object(o) && {
            &&& o.dom().contains("granted"@) <==> p.granted.len() > 0
            &&& o.dom().contains("grants"@) <==> p.grants.len() > 0
            &&& 0 <= i < p.granted.len() ==> (o["granted"@] matches JsonView::Array(items)
                && items.len() == p.granted.len() && items[i] == right_json(p.granted[i]))
            &&& 0 <= i < p.grants.len() ==> (o["grants"@] matches JsonView::Object(m)
                && m.dom().contains(p.grants[i].0) && (m[p.grants[i].0] matches JsonView::Array(
                items,
            ) && items == Seq::new(
                p.grants[i].1.len(),
                |k: int| right_json(p.grants[i].1[k]),
            )))
        },
        loaded(None) == Ok::<PolicyView, PolicyErrorView>(
            PolicyView { granted: Seq::empty(), grants: Seq::empty() },
        ),
{
    reveal_strlit("granted");
    reveal_strlit("grants");
    assert("granted"@.len() == 7 && "grants"@.len() == 6);
    lemma_grants_map(p.grants);
    sorted_map::lemma_as_map(p.grants);
    if 0 <= i < p.grants.len() {
        let id = p.grants[i].0;
        assert(sorted_map::has_key(p.grants, id));
        assert(sorted_map::as_map(p.grants).dom().contains(id));
        assert(grants_map(p.grants).dom().contains(id));
        assert(sorted_map::as_map(p.grants)[id] == p.grants[i].1);
    }
}

/// The rights of a node are those that are granted without an artifact and those of every
/// artifact, and no others; they are counted once each.
pub proof fn lemma_all_rights(
    policy: NodePolicy,
    set: CapabilitySet,
    n: usize,
    cap: CapabilityView,
)
    requires
        call_ensures(NodePolicy::to_capability_set, (&policy,), set),
        call_ensures(NodePolicy::grant_count, (&policy,), n),
    ensures
        set@.contains(cap) <==> (policy@.granted.contains(cap) || exists|i: int, k: int|
            #![trigger policy@.grants[i].1[k]]
            0 <= i < policy@.grants.len() && 0 <= k < policy@.grants[i].1.len()
                && policy@.grants[i].1[k] == cap),
        n == set@.len(),
{
    if policy@.rights().contains(cap) && !policy@.granted.contains(cap) {
        let i = choose|i: int|
            0 <= i < policy@.grants.len() && (#[trigger] policy@.grants[i]).1.contains(cap);
        let k = policy@.grants[i].1.index_of(cap);
        assert(policy@.grants[i].1[k] == cap);
    }
    if exists|i: int, k: int|
        #![trigger policy@.grants[i].1[k]]
        0 <= i < policy@.grants.len() && 0 <= k < policy@.grants[i].1.len()
            && policy@.grants[i].1[k] == cap {
        let (i, k) = choose|i: int, k: int|
            #![trigger policy@.grants[i].1[k]]
            0 <= i < policy@.grants.len() && 0 <= k < policy@.grants[i].1.len()
                && policy@.grants[i].1[k] == cap;
        assert(policy@.grants[i].1.contains(cap));
    }
    assert(policy@.rights() =~= set@);
}

/// The rights of an artifact that are recorded are its rights, in place of those it had, and
/// those that are removed are gone; what other artifacts have stays.
pub proof fn lemma_recorded_rights(
    a: &mut NodePolicy,
    b: &mut NodePolicy,
    id: &str,
    caps: Vec<Capability>,
    removed: bool,
)
    requires
        sorted_map::ascending(a@.grants),
        sorted_map::ascending(b@.grants),
        call_ensures(NodePolicy::set_artifact, (a, id, caps), ()),
        call_ensures(NodePolicy::remove_artifact, (b, id), removed),
    ensures
        sorted_map::as_map(final(a)@.grants) == sorted_map::as_map(old(a)@.grants).insert(
            id@,
            capability::caps_view(caps@),
        ),
        final(a)@.granted == old(a)@.granted,
        sorted_map::as_map(final(b)@.grants) == sorted_map::as_map(old(b)@.grants).remove(id@),
        final(b)@.granted == old(b)@.granted,
        removed <==> sorted_map::as_map(old(b)@.grants).dom().contains(id@),
{
    sorted_map::lemma_put(old(a)@.grants, id@, capability::caps_view(caps@));
    sorted_map::lemma_without(old(b)@.grants, id@);
}

/// A ledger that was saved is loaded as it was, and where there is no file there are no rights.
pub proof fn lemma_saved_is_loaded(
    policy: NodePolicy,
    content: String,
    file: Option<&str>,
    none: Option<&str>,
    loaded_again: Result<NodePolicy, PolicyError>,
    fresh: Result<NodePolicy, PolicyError>,
)
    requires
        call_ensures(NodePolicy::save, (&policy,), content),
        file matches Some(c) && c@ == content@,
        none is None,
        call_ensures(NodePolicy::load, (file,), loaded_again),
        call_ensures(NodePolicy::load, (none,), fresh),
    ensures
        loaded_again matches Ok(p) && p@ == policy@,
        fresh matches Ok(p) && p@.granted.len() == 0 && p@.grants.len() == 0,
{
}

} // verus!
