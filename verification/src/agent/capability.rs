//! What an artifact or a session may do.

use vstd::prelude::*;
use crate::text;

verus! {

/// One right on the system.
pub enum Capability {
    FsRead(String),
    FsWrite(String),
    NetworkOutbound,
    NetworkInbound(u16),
    NetworkStream,
    AudioOutput,
    AudioInput,
    GpuCompute,
    GpuDisplay,
    UsbDevice(String),
    ProcessSpawn,
    ProcessKill,
    SystemdUnit(String),
    KernelModule(String),
    WaylandSurface,
    WaylandInput,
    AccessibilityTree,
    AgentSpawn,
    AgentKill,
    FleetControl,
    SecretsRead(String),
}

/// What a right is.
#[verifier::ext_equal]
pub enum CapabilityView {
    FsRead(Seq<char>),
    FsWrite(Seq<char>),
    NetworkOutbound,
    NetworkInbound(u16),
    NetworkStream,
    AudioOutput,
    AudioInput,
    GpuCompute,
    GpuDisplay,
    UsbDevice(Seq<char>),
    ProcessSpawn,
    ProcessKill,
    SystemdUnit(Seq<char>),
    KernelModule(Seq<char>),
    WaylandSurface,
    WaylandInput,
    AccessibilityTree,
    AgentSpawn,
    AgentKill,
    FleetControl,
    SecretsRead(Seq<char>),
}

impl View for Capability {
    type V = CapabilityView;

    open spec fn view(&self) -> CapabilityView {
        match self {
            Capability::FsRead(p) => CapabilityView::FsRead(p@),
            Capability::FsWrite(p) => CapabilityView::FsWrite(p@),
            Capability::NetworkOutbound => CapabilityView::NetworkOutbound,
            Capability::NetworkInbound(n) => CapabilityView::NetworkInbound(*n),
            Capability::NetworkStream => CapabilityView::NetworkStream,
            Capability::AudioOutput => CapabilityView::AudioOutput,
            Capability::AudioInput => CapabilityView::AudioInput,
            Capability::GpuCompute => CapabilityView::GpuCompute,
            Capability::GpuDisplay => CapabilityView::GpuDisplay,
            Capability::UsbDevice(p) => CapabilityView::UsbDevice(p@),
            Capability::ProcessSpawn => CapabilityView::ProcessSpawn,
            Capability::ProcessKill => CapabilityView::ProcessKill,
            Capability::SystemdUnit(p) => CapabilityView::SystemdUnit(p@),
            Capability::KernelModule(p) => CapabilityView::KernelModule(p@),
            Capability::WaylandSurface => CapabilityView::WaylandSurface,
            Capability::WaylandInput => CapabilityView::WaylandInput,
            Capability::AccessibilityTree => CapabilityView::AccessibilityTree,
            Capability::AgentSpawn => CapabilityView::AgentSpawn,
            Capability::AgentKill => CapabilityView::AgentKill,
            Capability::FleetControl => CapabilityView::FleetControl,
            Capability::SecretsRead(p) => CapabilityView::SecretsRead(p@),
        }
    }
}

/// What a list of rights holds.
pub open spec fn caps_view(caps: Seq<Capability>) -> Seq<CapabilityView> {
    Seq::new(caps.len(), |i: int| caps[i]@)
}

/// A text between quotes with its special characters escaped.
pub uninterp spec fn debug_quoted(text: Seq<char>) -> Seq<char>;

/// `<str as std::fmt::Debug>::fmt`: the text between quotes with its special
/// characters escaped, which the text alone decides.
#[verifier::external_body]
fn debug_quote(text: &str) -> (quoted: String)
    ensures
        quoted@ == debug_quoted(text@),
{
    format!("{:?}", text)
}

/// What a right carries, as it is printed: nothing, a text or a number.
pub enum Payload {
    Nothing,
    Text(Seq<char>),
    Number(u16),
}

impl CapabilityView {
    /// The name of the kind of right.
    pub open spec fn kind(self) -> Seq<char> {
        match self {
            CapabilityView::FsRead(p) => "FsRead"@,
            CapabilityView::FsWrite(p) => "FsWrite"@,
            CapabilityView::NetworkOutbound => "NetworkOutbound"@,
            CapabilityView::NetworkInbound(n) => "NetworkInbound"@,
            CapabilityView::NetworkStream => "NetworkStream"@,
            CapabilityView::AudioOutput => "AudioOutput"@,
            CapabilityView::AudioInput => "AudioInput"@,
            CapabilityView::GpuCompute => "GpuCompute"@,
            CapabilityView::GpuDisplay => "GpuDisplay"@,
            CapabilityView::UsbDevice(p) => "UsbDevice"@,
            CapabilityView::ProcessSpawn => "ProcessSpawn"@,
            CapabilityView::ProcessKill => "ProcessKill"@,
            CapabilityView::SystemdUnit(p) => "SystemdUnit"@,
            CapabilityView::KernelModule(p) => "KernelModule"@,
            CapabilityView::WaylandSurface => "WaylandSurface"@,
            CapabilityView::WaylandInput => "WaylandInput"@,
            CapabilityView::AccessibilityTree => "AccessibilityTree"@,
            CapabilityView::AgentSpawn => "AgentSpawn"@,
            CapabilityView::AgentKill => "AgentKill"@,
            CapabilityView::FleetControl => "FleetControl"@,
            CapabilityView::SecretsRead(p) => "SecretsRead"@,
        }
    }

    /// What the right carries.
    pub open spec fn payload(self) -> Payload {
        match self {
            CapabilityView::FsRead(p) => Payload::Text(p),
            CapabilityView::FsWrite(p) => Payload::Text(p),
            CapabilityView::NetworkInbound(n) => Payload::Number(n),
            CapabilityView::UsbDevice(p) => Payload::Text(p),
            CapabilityView::SystemdUnit(p) => Payload::Text(p),
            CapabilityView::KernelModule(p) => Payload::Text(p),
            CapabilityView::SecretsRead(p) => Payload::Text(p),
            _ => Payload::Nothing,
        }
    }

    /// The right as it is printed: its kind, and what it carries in brackets.
    pub open spec fn printed(self) -> Seq<char> {
        match self.payload() {
            Payload::Nothing => self.kind(),
            Payload::Text(t) => self.kind() + "("@ + debug_quoted(t) + ")"@,
            Payload::Number(n) => self.kind() + "("@ + text::decimal(n as nat) + ")"@,
        }
    }

    /// Whether a name names this right: it is what is printed of it, or what
    /// stands before its bracket.
    pub open spec fn named(self, name: Seq<char>) -> bool {
        self.printed() == name || text::begins(self.printed(), name + "("@)
    }
}

/// What an artifact's manifest declares.
pub struct ManifestCapabilities {
    pub fs_read: Vec<String>,
    pub fs_write: Vec<String>,
    /// The hosts that the artifact may reach.
    pub network: Vec<String>,
    /// The programs that the artifact may start.
    pub programs: Vec<String>,
    pub mcp_spawn: bool,
    pub display: bool,
    pub audio_in: bool,
    pub vault_read: Vec<String>,
}

/// The right to read each path.
pub open spec fn reads(paths: Seq<Seq<char>>) -> Seq<CapabilityView> {
    Seq::new(paths.len(), |i: int| CapabilityView::FsRead(paths[i]))
}

/// The right to write each path.
pub open spec fn writes(paths: Seq<Seq<char>>) -> Seq<CapabilityView> {
    Seq::new(paths.len(), |i: int| CapabilityView::FsWrite(paths[i]))
}

/// The right to read each secret.
pub open spec fn secrets(paths: Seq<Seq<char>>) -> Seq<CapabilityView> {
    Seq::new(paths.len(), |i: int| CapabilityView::SecretsRead(paths[i]))
}

/// The right where the condition holds, else none.
pub open spec fn one_if(condition: bool, cap: CapabilityView) -> Seq<CapabilityView> {
    if condition {
        seq![cap]
    } else {
        Seq::empty()
    }
}

/// The rights that a manifest asks for, in this order: each path to read, each
/// path to write, the network where a host is named, spawning where a program is
/// named, spawning agents, a surface, the microphone, each secret.
pub open spec fn manifest_view(m: ManifestCapabilities) -> Seq<CapabilityView> {
    reads(text::views(m.fs_read@)) + writes(text::views(m.fs_write@)) + one_if(
        m.network@.len() > 0,
        CapabilityView::NetworkOutbound,
    ) + one_if(
        m.programs@.len() > 0,
        CapabilityView::ProcessSpawn,
    ) + one_if(m.mcp_spawn, CapabilityView::AgentSpawn) + one_if(
        m.display,
        CapabilityView::WaylandSurface,
    ) + one_if(m.audio_in, CapabilityView::AudioInput) + secrets(
        text::views(m.vault_read@),
    )
}

fn push_if(caps: &mut Vec<Capability>, condition: bool, cap: Capability)
    ensures
        caps_view(final(caps)@) == caps_view(old(caps)@) + one_if(condition, cap@),
{
    if condition {
        caps.push(cap);
    }
    assert(caps_view(caps@) =~= caps_view(old(caps)@) + one_if(condition, cap@));
}

impl Capability {
    /// The rights that a manifest asks for.
    pub fn from_manifest(cs: &ManifestCapabilities) -> (caps: Vec<Capability>)
        ensures
            caps_view(caps@) == manifest_view(*cs),
    {
        let mut caps: Vec<Capability> = Vec::new();
        let ghost reads_all = reads(text::views(cs.fs_read@));
        let mut i: usize = 0;
        while i < cs.fs_read.len()
            invariant
                i <= cs.fs_read.len(),
                reads_all == reads(text::views(cs.fs_read@)),
                caps_view(caps@) =~= reads_all.take(i as int),
            decreases cs.fs_read.len() - i,
        {
            let ghost so_far = caps@;
            let cap = Capability::FsRead(cs.fs_read[i].clone());
            caps.push(cap);
            assert(caps_view(caps@) =~= caps_view(so_far).push(cap@));
            assert(reads_all.take(i + 1) =~= reads_all.take(i as int).push(cap@));
            i += 1;
        }
        assert(caps_view(caps@) =~= reads_all);
        let ghost writes_all = writes(text::views(cs.fs_write@));
        let mut i: usize = 0;
        while i < cs.fs_write.len()
            invariant
                i <= cs.fs_write.len(),
                writes_all == writes(text::views(cs.fs_write@)),
                caps_view(caps@) =~= reads_all + writes_all.take(i as int),
            decreases cs.fs_write.len() - i,
        {
            let ghost so_far = caps@;
            let cap = Capability::FsWrite(cs.fs_write[i].clone());
            caps.push(cap);
            assert(caps_view(caps@) =~= caps_view(so_far).push(cap@));
            assert(writes_all.take(i + 1) =~= writes_all.take(i as int).push(cap@));
            i += 1;
        }
        assert(caps_view(caps@) =~= reads_all + writes_all);
        push_if(&mut caps, cs.network.len() > 0, Capability::NetworkOutbound);
        push_if(&mut caps, cs.programs.len() > 0, Capability::ProcessSpawn);
        push_if(&mut caps, cs.mcp_spawn, Capability::AgentSpawn);
        push_if(&mut caps, cs.display, Capability::WaylandSurface);
        push_if(&mut caps, cs.audio_in, Capability::AudioInput);
        let ghost before = caps_view(caps@);
        let ghost secrets_all = secrets(text::views(cs.vault_read@));
        let mut i: usize = 0;
        assert(before =~= before + secrets_all.take(0));
        while i < cs.vault_read.len()
            invariant
                i <= cs.vault_read.len(),
                secrets_all == secrets(text::views(cs.vault_read@)),
                caps_view(caps@) =~= before + secrets_all.take(i as int),
            decreases cs.vault_read.len() - i,
        {
            let ghost so_far = caps@;
            let cap = Capability::SecretsRead(cs.vault_read[i].clone());
            caps.push(cap);
            assert(caps_view(caps@) =~= caps_view(so_far).push(cap@));
            assert(secrets_all.take(i + 1) =~= secrets_all.take(i as int).push(cap@));
            i += 1;
        }
        assert(caps_view(caps@) =~= before + secrets_all);
        caps
    }

    /// Whether two rights are the same.
    pub fn same(&self, other: &Capability) -> (r: bool)
        ensures
            r == (self@ == other@),
    {
        match (self, other) {
            (Capability::FsRead(a), Capability::FsRead(b)) => text::same_text(
                a.as_str(),
                b.as_str(),
            ),
            (Capability::FsWrite(a), Capability::FsWrite(b)) => text::same_text(
                a.as_str(),
                b.as_str(),
            ),
            (Capability::UsbDevice(a), Capability::UsbDevice(b)) => text::same_text(
                a.as_str(),
                b.as_str(),
            ),
            (Capability::SystemdUnit(a), Capability::SystemdUnit(b)) => text::same_text(
                a.as_str(),
                b.as_str(),
            ),
            (Capability::KernelModule(a), Capability::KernelModule(b)) => text::same_text(
                a.as_str(),
                b.as_str(),
            ),
            (Capability::SecretsRead(a), Capability::SecretsRead(b)) => text::same_text(
                a.as_str(),
                b.as_str(),
            ),
            (Capability::NetworkInbound(a), Capability::NetworkInbound(b)) => *a == *b,
            (Capability::NetworkOutbound, Capability::NetworkOutbound) => true,
            (Capability::NetworkStream, Capability::NetworkStream) => true,
            (Capability::AudioOutput, Capability::AudioOutput) => true,
            (Capability::AudioInput, Capability::AudioInput) => true,
            (Capability::GpuCompute, Capability::GpuCompute) => true,
            (Capability::GpuDisplay, Capability::GpuDisplay) => true,
            (Capability::ProcessSpawn, Capability::ProcessSpawn) => true,
            (Capability::ProcessKill, Capability::ProcessKill) => true,
            (Capability::WaylandSurface, Capability::WaylandSurface) => true,
            (Capability::WaylandInput, Capability::WaylandInput) => true,
            (Capability::AccessibilityTree, Capability::AccessibilityTree) => true,
            (Capability::AgentSpawn, Capability::AgentSpawn) => true,
            (Capability::AgentKill, Capability::AgentKill) => true,
            (Capability::FleetControl, Capability::FleetControl) => true,
            _ => false,
        }
    }

    /// A copy of the right.
    pub fn copy(&self) -> (cap: Self)
        ensures
            cap@ == self@,
    {
        match self {
            Capability::FsRead(p) => Capability::FsRead(p.clone()),
            Capability::FsWrite(p) => Capability::FsWrite(p.clone()),
            Capability::NetworkOutbound => Capability::NetworkOutbound,
            Capability::NetworkInbound(n) => Capability::NetworkInbound(*n),
            Capability::NetworkStream => Capability::NetworkStream,
            Capability::AudioOutput => Capability::AudioOutput,
            Capability::AudioInput => Capability::AudioInput,
            Capability::GpuCompute => Capability::GpuCompute,
            Capability::GpuDisplay => Capability::GpuDisplay,
            Capability::UsbDevice(p) => Capability::UsbDevice(p.clone()),
            Capability::ProcessSpawn => Capability::ProcessSpawn,
            Capability::ProcessKill => Capability::ProcessKill,
            Capability::SystemdUnit(p) => Capability::SystemdUnit(p.clone()),
            Capability::KernelModule(p) => Capability::KernelModule(p.clone()),
            Capability::WaylandSurface => Capability::WaylandSurface,
            Capability::WaylandInput => Capability::WaylandInput,
            Capability::AccessibilityTree => Capability::AccessibilityTree,
            Capability::AgentSpawn => Capability::AgentSpawn,
            Capability::AgentKill => Capability::AgentKill,
            Capability::FleetControl => Capability::FleetControl,
            Capability::SecretsRead(p) => Capability::SecretsRead(p.clone()),
        }
    }

    /// The name of the kind of right.
    pub fn kind_name(&self) -> (name: String)
        ensures
            name@ == self@.kind(),
    {
        match self {
            Capability::FsRead(p) => "FsRead".to_string(),
            Capability::FsWrite(p) => "FsWrite".to_string(),
            Capability::NetworkOutbound => "NetworkOutbound".to_string(),
            Capability::NetworkInbound(n) => "NetworkInbound".to_string(),
            Capability::NetworkStream => "NetworkStream".to_string(),
            Capability::AudioOutput => "AudioOutput".to_string(),
            Capability::AudioInput => "AudioInput".to_string(),
            Capability::GpuCompute => "GpuCompute".to_string(),
            Capability::GpuDisplay => "GpuDisplay".to_string(),
            Capability::UsbDevice(p) => "UsbDevice".to_string(),
            Capability::ProcessSpawn => "ProcessSpawn".to_string(),
            Capability::ProcessKill => "ProcessKill".to_string(),
            Capability::SystemdUnit(p) => "SystemdUnit".to_string(),
            Capability::KernelModule(p) => "KernelModule".to_string(),
            Capability::WaylandSurface => "WaylandSurface".to_string(),
            Capability::WaylandInput => "WaylandInput".to_string(),
            Capability::AccessibilityTree => "AccessibilityTree".to_string(),
            Capability::AgentSpawn => "AgentSpawn".to_string(),
            Capability::AgentKill => "AgentKill".to_string(),
            Capability::FleetControl => "FleetControl".to_string(),
            Capability::SecretsRead(p) => "SecretsRead".to_string(),
        }
    }

    /// What the right carries, as it is printed.
    fn payload_text(&self) -> (printed: Option<String>)
        ensures
            text::opt_view(printed) == (match self@.payload() {
                Payload::Nothing => None,
                Payload::Text(t) => Some(debug_quoted(t)),
                Payload::Number(n) => Some(text::decimal(n as nat)),
            }),
    {
        match self {
            Capability::FsRead(p) => Some(debug_quote(p.as_str())),
            Capability::FsWrite(p) => Some(debug_quote(p.as_str())),
            Capability::NetworkInbound(n) => Some(text::decimal_text(*n as u64)),
            Capability::UsbDevice(p) => Some(debug_quote(p.as_str())),
            Capability::SystemdUnit(p) => Some(debug_quote(p.as_str())),
            Capability::KernelModule(p) => Some(debug_quote(p.as_str())),
            Capability::SecretsRead(p) => Some(debug_quote(p.as_str())),
            _ => None,
        }
    }

    /// The right as it is printed.
    pub fn text(&self) -> (printed: String)
        ensures
            printed@ == self@.printed(),
    {
        let mut printed = self.kind_name();
        if let Some(inner) = self.payload_text() {
            printed.append("(");
            printed.append(inner.as_str());
            printed.append(")");
        }
        printed
    }

    /// Whether a name names this right.
    pub fn is_named(&self, name: &str) -> (r: bool)
        ensures
            r == self@.named(name@),
    {
        let printed = self.text();
        let open = name.to_string().concat("(");
        text::same_text(printed.as_str(), name) || text::starts_with(
            printed.as_str(),
            open.as_str(),
        )
    }
}

/// Copies a list of rights.
pub fn copy_caps(caps: &Vec<Capability>) -> (copy: Vec<Capability>)
    ensures
        caps_view(copy@) == caps_view(caps@),
        copy.len() == caps.len(),
{
    let mut copy: Vec<Capability> = Vec::new();
    let mut i: usize = 0;
    while i < caps.len()
        invariant
            i <= caps.len(),
            copy.len() == i,
            forall|k: int| 0 <= k < i ==> (#[trigger] copy@[k])@ == caps@[k]@,
        decreases caps.len() - i,
    {
        copy.push(caps[i].copy());
        i += 1;
    }
    assert(caps_view(copy@) =~= caps_view(caps@));
    copy
}

// ---------------------------------------------------------------------------
// Sets of rights
// ---------------------------------------------------------------------------

/// The outcome of a check.
#[derive(Debug, Clone, Copy, PartialEq, Eq, Structural)]
pub enum CapabilityResult {
    Allowed,
    /// Permissions are bypassed; the action goes on and is audited.
    Bypassed,
    Denied,
}

/// A set of rights, listed without repetition.
pub struct CapabilitySet {
    caps: Vec<Capability>,
}

impl View for CapabilitySet {
    type V = Set<CapabilityView>;

    closed spec fn view(&self) -> Set<CapabilityView> {
        caps_view(self.caps@).to_set()
    }
}

impl Default for CapabilitySet {
    fn default() -> (set: Self)
        ensures
            set@ == Set::<CapabilityView>::empty(),
    {
        CapabilitySet::new()
    }
}

impl CapabilitySet {
    #[verifier::type_invariant]
    spec fn distinct(self) -> bool {
        caps_view(self.caps@).no_duplicates()
    }

    /// How many rights are in the set.
    pub fn len(&self) -> (n: usize)
        ensures
            self@.finite(),
            n == self@.len(),
    {
        proof {
            use_type_invariant(self);
            let all = caps_view(self.caps@);
            all.unique_seq_to_set();
            vstd::seq_lib::seq_to_set_is_finite(all);
        }
        self.caps.len()
    }

    /// The set without rights.
    pub fn new() -> (set: Self)
        ensures
            set@ == Set::<CapabilityView>::empty(),
    {
        let set = CapabilitySet { caps: Vec::new() };
        assert(set@ =~= Set::<CapabilityView>::empty());
        set
    }

    /// Adds a right.
    pub fn insert(&mut self, cap: Capability)
        ensures
            final(self)@ == old(self)@.insert(cap@),
    {
        proof {
            use_type_invariant(&*self);
        }
        let ghost before = caps_view(self.caps@);
        if !self.contains(&cap) {
            assert(!before.contains(cap@)) by {
                assert(before.to_set().contains(cap@) == before.contains(cap@));
            }
            let mut caps: Vec<Capability> = Vec::new();
            std::mem::swap(&mut caps, &mut self.caps);
            caps.push(cap);
            assert(caps_view(caps@) =~= before.push(cap@));
            self.caps = caps;
            let ghost after = caps_view(self.caps@);
            assert(after =~= before.push(cap@));
            assert forall|c: CapabilityView| after.to_set().contains(c) == before.to_set().insert(
                cap@,
            ).contains(c) by {
                if before.contains(c) {
                    let k = choose|k: int| 0 <= k < before.len() && before[k] == c;
                    assert(after[k] == c);
                }
                assert(after[before.len() as int] == cap@);
            }
        }
        assert(self@ =~= old(self)@.insert(cap@));
    }

    /// Whether a right is in the set.
    pub fn contains(&self, cap: &Capability) -> (r: bool)
        ensures
            r == self@.contains(cap@),
    {
        let ghost all = caps_view(self.caps@);
        let mut i: usize = 0;
        while i < self.caps.len()
            invariant
                i <= self.caps.len(),
                all == caps_view(self.caps@),
                forall|k: int| 0 <= k < i ==> all[k] != cap@,
            decreases self.caps.len() - i,
        {
            if self.caps[i].same(cap) {
                assert(all[i as int] == cap@);
                return true;
            }
            i += 1;
        }
        false
    }

    /// Whether every right of this set is in the other.
    pub fn is_subset_of(&self, other: &CapabilitySet) -> (r: bool)
        ensures
            r == self@.subset_of(other@),
    {
        let ghost all = caps_view(self.caps@);
        let mut i: usize = 0;
        while i < self.caps.len()
            invariant
                i <= self.caps.len(),
                all == caps_view(self.caps@),
                forall|k: int| 0 <= k < i ==> other@.contains(#[trigger] all[k]),
            decreases self.caps.len() - i,
        {
            if !other.contains(&self.caps[i]) {
                assert(all[i as int] == self.caps@[i as int]@);
                assert(self@.contains(all[i as int]));
                return false;
            }
            i += 1;
        }
        assert forall|c: CapabilityView| self@.contains(c) implies other@.contains(c) by {
            let k = choose|k: int| 0 <= k < all.len() && all[k] == c;
            assert(other@.contains(all[k]));
        }
        true
    }

    /// Whether a right is granted. Where permissions are bypassed every check
    /// passes, marked as such.
    pub fn check(&self, cap: &Capability, bypass: bool) -> (result: CapabilityResult)
        ensures
            result == (if bypass {
                CapabilityResult::Bypassed
            } else if self@.contains(cap@) {
                CapabilityResult::Allowed
            } else {
                CapabilityResult::Denied
            }),
    {
        if bypass {
            return CapabilityResult::Bypassed;
        }
        if self.contains(cap) {
            CapabilityResult::Allowed
        } else {
            CapabilityResult::Denied
        }
    }

    /// Whether some right of the set has this name.
    pub fn has_by_name(&self, name: &str) -> (r: bool)
        ensures
            r == exists|c: CapabilityView| self@.contains(c) && #[trigger] c.named(name@),
    {
        let ghost all = caps_view(self.caps@);
        let mut i: usize = 0;
        while i < self.caps.len()
            invariant
                i <= self.caps.len(),
                all == caps_view(self.caps@),
                forall|k: int| 0 <= k < i ==> !(#[trigger] all[k]).named(name@),
            decreases self.caps.len() - i,
        {
            if self.caps[i].is_named(name) {
                assert(all[i as int].named(name@));
                assert(self@.contains(all[i as int]));
                return true;
            }
            i += 1;
        }
        assert forall|c: CapabilityView| self@.contains(c) implies !#[trigger] c.named(name@) by {
            let k = choose|k: int| 0 <= k < all.len() && all[k] == c;
            assert(!all[k].named(name@));
        }
        false
    }

    /// A copy of the set.
    pub fn copy(&self) -> (set: Self)
        ensures
            set@ == self@,
    {
        proof {
            use_type_invariant(self);
        }
        CapabilitySet { caps: copy_caps(&self.caps) }
    }
}

proof fn lemma_either(a: Seq<CapabilityView>, b: Seq<CapabilityView>, cap: CapabilityView)
    ensures
        (a + b).contains(cap) <==> a.contains(cap) || b.contains(cap),
{
    let all = a + b;
    if a.contains(cap) {
        assert(all[a.index_of(cap)] == cap);
    }
    if b.contains(cap) {
        assert(all[a.len() + b.index_of(cap)] == cap);
    }
    if all.contains(cap) {
        let i = all.index_of(cap);
        if i < a.len() {
            assert(a[i] == cap);
        } else {
            assert(b[i - a.len()] == cap);
        }
    }
}

proof fn lemma_in_manifest(m: ManifestCapabilities, cap: CapabilityView)
    ensures
        manifest_view(m).contains(cap) <==> match cap {
            CapabilityView::FsRead(p) => text::views(m.fs_read@).contains(p),
            CapabilityView::FsWrite(p) => text::views(m.fs_write@).contains(p),
            CapabilityView::SecretsRead(p) => text::views(m.vault_read@).contains(p),
            CapabilityView::NetworkOutbound => m.network@.len() > 0,
            CapabilityView::ProcessSpawn => m.programs@.len() > 0,
            CapabilityView::AgentSpawn => m.mcp_spawn,
            CapabilityView::WaylandSurface => m.display,
            CapabilityView::AudioInput => m.audio_in,
            _ => false,
        },
{
    let r = text::views(m.fs_read@);
    let w = text::views(m.fs_write@);
    let s = text::views(m.vault_read@);
    let a = reads(r);
    let b = writes(w);
    let c = one_if(m.network@.len() > 0, CapabilityView::NetworkOutbound);
    let d = one_if(m.programs@.len() > 0, CapabilityView::ProcessSpawn);
    let e = one_if(m.mcp_spawn, CapabilityView::AgentSpawn);
    let f = one_if(m.display, CapabilityView::WaylandSurface);
    let g = one_if(m.audio_in, CapabilityView::AudioInput);
    let h = secrets(s);
    lemma_either(a, b, cap);
    lemma_either(a + b, c, cap);
    lemma_either(a + b + c, d, cap);
    lemma_either(a + b + c + d, e, cap);
    lemma_either(a + b + c + d + e, f, cap);
    lemma_either(a + b + c + d + e + f, g, cap);
    lemma_either(a + b + c + d + e + f + g, h, cap);
    if m.network@.len() > 0 {
        assert(c[0] == CapabilityView::NetworkOutbound);
    }
    if m.programs@.len() > 0 {
        assert(d[0] == CapabilityView::ProcessSpawn);
    }
    if m.mcp_spawn {
        assert(e[0] == CapabilityView::AgentSpawn);
    }
    if m.display {
        assert(f[0] == CapabilityView::WaylandSurface);
    }
    if m.audio_in {
        assert(g[0] == CapabilityView::AudioInput);
    }
    match cap {
        CapabilityView::FsRead(p) => {
            if r.contains(p) {
                assert(a[r.index_of(p)] == cap);
            }
            if a.contains(cap) {
                assert(r[a.index_of(cap)] == p);
            }
        },
        CapabilityView::FsWrite(p) => {
            if w.contains(p) {
                assert(b[w.index_of(p)] == cap);
            }
            if b.contains(cap) {
                assert(w[b.index_of(cap)] == p);
            }
        },
        CapabilityView::SecretsRead(p) => {
            if s.contains(p) {
                assert(h[s.index_of(p)] == cap);
            }
            if h.contains(cap) {
                assert(s[h.index_of(cap)] == p);
            }
        },
        _ => {},
    }
}

/// A manifest asks for exactly these rights: to read and to write each path that it names for
/// that, for the network where it names a host, for spawning where it names a program, for
/// spawning agents, a surface or the microphone where it says so, and for each secret that it
/// names.
pub proof fn lemma_manifest_asks_for(m: ManifestCapabilities, path: Seq<char>)
    ensures
        ({
            let caps = manifest_view(m);
            &&& caps.contains(CapabilityView::FsRead(path)) <==> text::views(m.fs_read@).contains(
                path,
            )
            &&& caps.contains(CapabilityView::FsWrite(path)) <==> text::views(
                m.fs_write@,
            ).contains(path)
            &&& caps.contains(CapabilityView::SecretsRead(path)) <==> text::views(
                m.vault_read@,
            ).contains(path)
            &&& caps.contains(CapabilityView::NetworkOutbound) <==> m.network@.len() > 0
            &&& caps.contains(CapabilityView::ProcessSpawn) <==> m.programs@.len() > 0
            &&& caps.contains(CapabilityView::AgentSpawn) <==> m.mcp_spawn
            &&& caps.contains(CapabilityView::WaylandSurface) <==> m.display
            &&& caps.contains(CapabilityView::AudioInput) <==> m.audio_in
            &&& forall|i: int|
                0 <= i < caps.len() ==> {
                    ||| (#[trigger] caps[i]) is FsRead
                    ||| caps[i] is FsWrite
                    ||| caps[i] is SecretsRead
                    ||| caps[i] is NetworkOutbound
                    ||| caps[i] is ProcessSpawn
                    ||| caps[i] is AgentSpawn
                    ||| caps[i] is WaylandSurface
                    ||| caps[i] is AudioInput
                }
        }),
{
    let caps = manifest_view(m);
    lemma_in_manifest(m, CapabilityView::FsRead(path));
    lemma_in_manifest(m, CapabilityView::FsWrite(path));
    lemma_in_manifest(m, CapabilityView::SecretsRead(path));
    lemma_in_manifest(m, CapabilityView::NetworkOutbound);
    lemma_in_manifest(m, CapabilityView::ProcessSpawn);
    lemma_in_manifest(m, CapabilityView::AgentSpawn);
    lemma_in_manifest(m, CapabilityView::WaylandSurface);
    lemma_in_manifest(m, CapabilityView::AudioInput);
    assert forall|i: int| 0 <= i < caps.len() implies {
        ||| (#[trigger] caps[i]) is FsRead
        ||| caps[i] is FsWrite
        ||| caps[i] is SecretsRead
        ||| caps[i] is NetworkOutbound
        ||| caps[i] is ProcessSpawn
        ||| caps[i] is AgentSpawn
        ||| caps[i] is WaylandSurface
        ||| caps[i] is AudioInput
    } by {
        lemma_in_manifest(m, caps[i]);
        assert(caps.contains(caps[i]));
    }
}

/// A right is printed by its name, with what it is for in brackets where it is for something.
pub proof fn lemma_printed(p: Seq<char>, n: u16)
    ensures
        CapabilityView::FsRead(p).printed() == "FsRead"@ + "("@ + debug_quoted(p) + ")"@,
        CapabilityView::FsWrite(p).printed() == "FsWrite"@ + "("@ + debug_quoted(p) + ")"@,
        CapabilityView::UsbDevice(p).printed() == "UsbDevice"@ + "("@ + debug_quoted(p) + ")"@,
        CapabilityView::SystemdUnit(p).printed() == "SystemdUnit"@ + "("@ + debug_quoted(p) + ")"@,
        CapabilityView::KernelModule(p).printed() == "KernelModule"@ + "("@ + debug_quoted(p)
            + ")"@,
        CapabilityView::SecretsRead(p).printed() == "SecretsRead"@ + "("@ + debug_quoted(p) + ")"@,
        CapabilityView::NetworkInbound(n).printed() == "NetworkInbound"@ + "("@ + text::decimal(
            n as nat,
        ) + ")"@,
        CapabilityView::NetworkOutbound.printed() == "NetworkOutbound"@,
        CapabilityView::NetworkStream.printed() == "NetworkStream"@,
        CapabilityView::AudioOutput.printed() == "AudioOutput"@,
        CapabilityView::AudioInput.printed() == "AudioInput"@,
        CapabilityView::GpuCompute.printed() == "GpuCompute"@,
        CapabilityView::GpuDisplay.printed() == "GpuDisplay"@,
        CapabilityView::ProcessSpawn.printed() == "ProcessSpawn"@,
        CapabilityView::ProcessKill.printed() == "ProcessKill"@,
        CapabilityView::WaylandSurface.printed() == "WaylandSurface"@,
        CapabilityView::WaylandInput.printed() == "WaylandInput"@,
        CapabilityView::AccessibilityTree.printed() == "AccessibilityTree"@,
        CapabilityView::AgentSpawn.printed() == "AgentSpawn"@,
        CapabilityView::AgentKill.printed() == "AgentKill"@,
        CapabilityView::FleetControl.printed() == "FleetControl"@,
{
}

/// A right goes by a name where it is printed as that name, or as that name with something in
/// brackets behind it.
pub proof fn lemma_goes_by_name(cap: CapabilityView, name: Seq<char>)
    ensures
        cap.named(name) <==> cap.printed() == name || exists|rest: Seq<char>|
            cap.printed() == #[trigger] (name + "("@ + rest),
{
    let head = name + "("@;
    if text::begins(cap.printed(), head) {
        let rest = cap.printed().skip(head.len() as int);
        assert(cap.printed() =~= name + "("@ + rest);
    }
    if exists|rest: Seq<char>| cap.printed() == #[trigger] (name + "("@ + rest) {
        let rest = choose|rest: Seq<char>| cap.printed() == #[trigger] (name + "("@ + rest);
        assert(cap.printed().subrange(0, head.len() as int) =~= head);
    }
}

/// A right that was granted is held, and granting it takes no other away and gives no other.
/// What is held is allowed, what is not is denied, and where permissions are bypassed every
/// right passes, marked as such.
pub proof fn lemma_granted_is_held(
    set: &mut CapabilitySet,
    cap: Capability,
    other: Capability,
    held: bool,
    before: bool,
    after: bool,
    answer: CapabilityResult,
    bypassed: CapabilityResult,
)
    requires
        call_ensures(CapabilitySet::contains, (&*set, &other), before),
        call_ensures(CapabilitySet::insert, (set, cap), ()),
        call_ensures(CapabilitySet::contains, (final(set), &cap), held),
        call_ensures(CapabilitySet::contains, (final(set), &other), after),
        call_ensures(CapabilitySet::check, (final(set), &other, false), answer),
        call_ensures(CapabilitySet::check, (final(set), &other, true), bypassed),
    ensures
        held,
        after == (before || other@ == cap@),
        answer == CapabilityResult::Allowed <==> after,
        answer == CapabilityResult::Denied <==> !after,
        bypassed == CapabilityResult::Bypassed,
{
}

/// One set of rights is within another exactly where the other holds each of its rights. A new
/// set holds none.
pub proof fn lemma_within(
    a: CapabilitySet,
    b: CapabilitySet,
    within: bool,
    fresh: CapabilitySet,
    cap: CapabilityView,
)
    requires
        call_ensures(CapabilitySet::is_subset_of, (&a, &b), within),
        call_ensures(CapabilitySet::new, (), fresh),
    ensures
        within ==> (a@.contains(cap) ==> b@.contains(cap)),
        !within ==> exists|c: CapabilityView| #[trigger] a@.contains(c) && !b@.contains(c),
        !fresh@.contains(cap),
{
}

/// Two rights are the same where they are of one kind and, where the kind has one, name the
/// same path, number or key.
pub proof fn lemma_same_right(a: String, b: String, read: bool, mixed: bool)
    requires
        call_ensures(
            Capability::same,
            (&Capability::FsRead(a), &Capability::FsRead(b)),
            read,
        ),
        call_ensures(
            Capability::same,
            (&Capability::FsRead(a), &Capability::FsWrite(b)),
            mixed,
        ),
    ensures
        read == (a@ == b@),
        !mixed,
{
}

} // verus!
