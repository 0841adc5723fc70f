//! Loading artifacts: which rights they need, which hosts they may reach, and how
//! they are started.

use vstd::prelude::*;
use crate::agent::capability;
use crate::agent::capability::Capability;
use crate::agent::capability::CapabilitySet;
use crate::agent::capability::CapabilityView;
use crate::agent::capability::ManifestCapabilities;
use crate::agent::error::Error;
use crate::agent::error::ErrorView;
use crate::net;
use crate::net::HostPort;
use crate::net::HostPortView;
use crate::path;
use crate::text;

verus! {

/// How an artifact is started.
pub struct ExecSpec {
    pub command: String,
    pub args: Vec<String>,
}

/// What the loader reads of an artifact's manifest.
pub struct Manifest {
    pub id: String,
    pub version: String,
    /// The kind of artifact, as the manifest writes it.
    pub kind: String,
    pub capabilities: ManifestCapabilities,
    /// How to start the artifact; without it something else starts it.
    pub launch: Option<ExecSpec>,
}

// ---------------------------------------------------------------------------
// Hosts
// ---------------------------------------------------------------------------

/// The host that a declaration stands for: any host, or what it reads as.
pub open spec fn host_of(declared: Seq<char>) -> Option<HostPortView> {
    if declared == "*"@ {
        Some(HostPortView { host: "*"@, port: 0 })
    } else {
        net::entry_of(declared)
    }
}

/// The hosts that declarations stand for; one that stands for none is passed over.
pub open spec fn hosts_of(declared: Seq<Seq<char>>) -> Seq<HostPortView>
    decreases declared.len(),
{
    if declared.len() == 0 {
        Seq::empty()
    } else {
        match host_of(declared.last()) {
            Some(h) => hosts_of(declared.drop_last()).push(h),
            None => hosts_of(declared.drop_last()),
        }
    }
}

/// What a list of hosts holds.
pub open spec fn hosts_view(hosts: Seq<HostPort>) -> Seq<HostPortView> {
    Seq::new(hosts.len(), |i: int| hosts[i]@)
}

/// The hosts that an artifact may reach.
pub fn egress_hosts(declared: &Vec<String>) -> (hosts: Vec<HostPort>)
    ensures
        hosts_view(hosts@) == hosts_of(text::views(declared@)),
{
    let ghost all = text::views(declared@);
    let mut hosts: Vec<HostPort> = Vec::new();
    let mut i: usize = 0;
    assert(all.take(0) =~= Seq::<Seq<char>>::empty());
    assert(hosts_view(hosts@) =~= Seq::<HostPortView>::empty());
    while i < declared.len()
        invariant
            i <= declared.len(),
            all == text::views(declared@),
            hosts_view(hosts@) == hosts_of(all.take(i as int)),
        decreases declared.len() - i,
    {
        assert(all.take(i + 1).drop_last() =~= all.take(i as int));
        assert(all[i as int] == declared@[i as int]@);
        let host = if text::same_text(declared[i].as_str(), "*") {
            Some(HostPort { host: "*".to_string(), port: 0 })
        } else {
            HostPort::parse(declared[i].as_str())
        };
        let ghost before = hosts_view(hosts@);
        match host {
            Some(h) => {
                hosts.push(h);
                assert(hosts_view(hosts@) =~= before.push(h@));
            },
            None => {},
        }
        i += 1;
    }
    assert(all.take(i as int) =~= all);
    hosts
}

/// The lists of hosts of artifacts: an artifact without hosts has none.
pub open spec fn allowlists_of(manifests: Seq<(Seq<char>, Seq<Seq<char>>)>) -> Seq<
    (Seq<char>, Seq<HostPortView>),
>
    decreases manifests.len(),
{
    if manifests.len() == 0 {
        Seq::empty()
    } else {
        let (id, declared) = manifests.last();
        let before = allowlists_of(manifests.drop_last());
        if hosts_of(declared).len() > 0 {
            before.push((id, hosts_of(declared)))
        } else {
            before
        }
    }
}

/// The names and declared hosts of manifests.
pub open spec fn declarations(manifests: Seq<Manifest>) -> Seq<(Seq<char>, Seq<Seq<char>>)> {
    Seq::new(
        manifests.len(),
        |i: int| (manifests[i].id@, text::views(manifests[i].capabilities.network@)),
    )
}

/// What lists of hosts hold.
pub open spec fn lists_view(lists: Seq<(String, Vec<HostPort>)>) -> Seq<
    (Seq<char>, Seq<HostPortView>),
> {
    Seq::new(lists.len(), |i: int| (lists[i].0@, hosts_view(lists[i].1@)))
}

/// The list of hosts of each artifact that may reach one.
pub fn scan_egress_allowlists(manifests: &Vec<Manifest>) -> (lists: Vec<(String, Vec<HostPort>)>)
    ensures
        lists_view(lists@) == allowlists_of(declarations(manifests@)),
{
    let ghost all = declarations(manifests@);
    let mut lists: Vec<(String, Vec<HostPort>)> = Vec::new();
    let mut i: usize = 0;
    assert(all.take(0) =~= Seq::<(Seq<char>, Seq<Seq<char>>)>::empty());
    assert(lists_view(lists@) =~= Seq::<(Seq<char>, Seq<HostPortView>)>::empty());
    while i < manifests.len()
        invariant
            i <= manifests.len(),
            all == declarations(manifests@),
            lists_view(lists@) == allowlists_of(all.take(i as int)),
        decreases manifests.len() - i,
    {
        assert(all.take(i + 1).drop_last() =~= all.take(i as int));
        let hosts = egress_hosts(&manifests[i].capabilities.network);
        let ghost seen = hosts_view(hosts@);
        assert(seen.len() == hosts.len());
        if hosts.len() > 0 {
            let ghost before = lists_view(lists@);
            lists.push((manifests[i].id.clone(), hosts));
            assert(lists_view(lists@) =~= before.push((manifests@[i as int].id@, seen)));
        }
        i += 1;
    }
    assert(all.take(i as int) =~= all);
    lists
}

// ---------------------------------------------------------------------------
// Loading
// ---------------------------------------------------------------------------

/// What the host has for artifacts that run in a virtual machine of their own.
pub struct FirecrackerConfig {
    pub firecracker_bin: String,
    pub kernel_image: String,
}

/// How an artifact is brought up.
pub enum LoadPlan {
    /// Something else starts it.
    External,
    /// As a process in a sandbox.
    Process { command: String, args: Vec<String>, dir: String, socket: String },
    /// In a virtual machine.
    MicroVm { firecracker_bin: String, kernel_image: String, rootfs: String },
}

/// What a plan is.
#[allow(inconsistent_fields)]
#[verifier::ext_equal]
pub enum LoadPlanView {
    External,
    Process { command: Seq<char>, args: Seq<Seq<char>>, dir: Seq<char>, socket: Seq<char> },
    MicroVm { firecracker_bin: Seq<char>, kernel_image: Seq<char>, rootfs: Seq<char> },
}

impl View for LoadPlan {
    type V = LoadPlanView;

    open spec fn view(&self) -> LoadPlanView {
        match self {
            LoadPlan::External => LoadPlanView::External,
            LoadPlan::Process { command, args, dir, socket } => LoadPlanView::Process {
                command: command@,
                args: text::views(args@),
                dir: dir@,
                socket: socket@,
            },
            LoadPlan::MicroVm { firecracker_bin, kernel_image, rootfs } => LoadPlanView::MicroVm {
                firecracker_bin: firecracker_bin@,
                kernel_image: kernel_image@,
                rootfs: rootfs@,
            },
        }
    }
}

/// The first right that is not granted.
pub open spec fn first_missing(
    caps: Seq<CapabilityView>,
    granted: Set<CapabilityView>,
) -> Option<CapabilityView>
    decreases caps.len(),
{
    if caps.len() == 0 {
        None
    } else if first_missing(caps.drop_last(), granted) is Some {
        first_missing(caps.drop_last(), granted)
    } else if !granted.contains(caps.last()) {
        Some(caps.last())
    } else {
        None
    }
}

/// Whether artifacts of a kind run only in a virtual machine: those that run what a
/// model wrote.
pub open spec fn needs_vm(kind: Seq<char>) -> bool {
    kind == "agent"@
}

/// What a loader is.
#[verifier::ext_equal]
pub struct LoaderView {
    pub granted: Set<CapabilityView>,
    pub socket: Seq<char>,
    /// The binary and the kernel image for virtual machines.
    pub firecracker: Option<(Seq<char>, Seq<char>)>,
}

/// How an artifact is brought up from its directory, or why it is not. A trusted one
/// is not asked for its rights. One that needs a virtual machine is refused where
/// none can be had; it never runs on the host.
pub open spec fn plan_view(
    l: LoaderView,
    m: Manifest,
    dir: Seq<char>,
    trusted: bool,
    rootfs_exists: bool,
) -> Result<LoadPlanView, ErrorView> {
    let missing = first_missing(capability::manifest_view(m.capabilities), l.granted);
    if !trusted && missing is Some {
        Err(ErrorView::CapabilityDeniedByName(missing->0.printed()))
    } else {
        match m.launch {
            None => Ok(LoadPlanView::External),
            Some(launch) => if needs_vm(m.kind@) {
                let rootfs = path::below(dir, "rootfs.ext4"@);
                match l.firecracker {
                    None => Err(
                        ErrorView::Io(
                            "artifact "@ + m.id@
                                + " requires Firecracker isolation but it is not configured"@,
                        ),
                    ),
                    Some((firecracker_bin, kernel_image)) => if rootfs_exists {
                        Ok(LoadPlanView::MicroVm { firecracker_bin, kernel_image, rootfs })
                    } else {
                        Err(
                            ErrorView::Io(
                                "artifact "@ + m.id@ + ": Firecracker rootfs missing at "@ + rootfs,
                            ),
                        )
                    },
                }
            } else {
                Ok(
                    LoadPlanView::Process {
                        command: path::below(dir, launch.command@),
                        args: text::views(launch.args@),
                        dir,
                        socket: l.socket,
                    },
                )
            },
        }
    }
}

/// The loader.
pub struct PluginLoader {
    pub granted: CapabilitySet,
    pub socket: String,
    pub firecracker: Option<FirecrackerConfig>,
}

impl View for PluginLoader {
    type V = LoaderView;

    open spec fn view(&self) -> LoaderView {
        LoaderView {
            granted: self.granted@,
            socket: self.socket@,
            firecracker: match self.firecracker {
                Some(f) => Some((f.firecracker_bin@, f.kernel_image@)),
                None => None,
            },
        }
    }
}

proof fn lemma_missing_stays(caps: Seq<CapabilityView>, granted: Set<CapabilityView>, n: int)
    requires
        0 <= n <= caps.len(),
        first_missing(caps.take(n), granted) is Some,
    ensures
        first_missing(caps, granted) == first_missing(caps.take(n), granted),
    decreases caps.len(),
{
    if n < caps.len() {
        assert(caps.drop_last().take(n) =~= caps.take(n));
        lemma_missing_stays(caps.drop_last(), granted, n);
    } else {
        assert(caps.take(n) =~= caps);
    }
}

impl PluginLoader {
    /// A loader without virtual machines.
    pub fn new(granted: CapabilitySet, socket: &str) -> (loader: Self)
        ensures
            loader@ == (LoaderView { granted: granted@, socket: socket@, firecracker: None }),
    {
        PluginLoader { granted, socket: socket.to_string(), firecracker: None }
    }

    /// The loader with virtual machines.
    pub fn with_firecracker(self, config: FirecrackerConfig) -> (loader: Self)
        ensures
            loader@ == (LoaderView {
                firecracker: Some((config.firecracker_bin@, config.kernel_image@)),
                ..self@
            }),
    {
        PluginLoader {
            granted: self.granted,
            socket: self.socket,
            firecracker: Some(config),
        }
    }

    /// The first right of the list that is not granted.
    fn missing(&self, caps: &Vec<Capability>) -> (cap: Option<Capability>)
        ensures
            (match cap {
                Some(c) => Some(c@),
                None => None,
            }) == first_missing(capability::caps_view(caps@), self@.granted),
    {
        let ghost all = capability::caps_view(caps@);
        let mut i: usize = 0;
        assert(all.take(0) =~= Seq::<CapabilityView>::empty());
        while i < caps.len()
            invariant
                i <= caps.len(),
                all == capability::caps_view(caps@),
                first_missing(all.take(i as int), self@.granted) is None,
            decreases caps.len() - i,
        {
            assert(all.take(i + 1).drop_last() =~= all.take(i as int));
            assert(all[i as int] == caps@[i as int]@);
            if !self.granted.contains(&caps[i]) {
                proof {
                    lemma_missing_stays(all, self@.granted, i + 1);
                }
                return Some(caps[i].copy());
            }
            i += 1;
        }
        assert(all.take(i as int) =~= all);
        None
    }

    /// How an artifact is brought up from its directory, or why it is not.
    pub fn plan(&self, manifest: &Manifest, dir: &str, trusted: bool, rootfs_exists: bool) -> (plan:
        Result<LoadPlan, Error>)
        ensures
            (match plan {
                Ok(p) => Ok(p@),
                Err(e) => Err(e@),
            }) == plan_view(self@, *manifest, dir@, trusted, rootfs_exists),
    {
        if !trusted {
            let caps = Capability::from_manifest(&manifest.capabilities);
            if let Some(cap) = self.missing(&caps) {
                return Err(Error::CapabilityDeniedByName(cap.text()));
            }
        }
        match &manifest.launch {
            None => Ok(LoadPlan::External),
            Some(launch) => {
                if !text::same_text(manifest.kind.as_str(), "agent") {
                    return Ok(
                        LoadPlan::Process {
                            command: path::path_below(dir, launch.command.as_str()),
                            args: text::copy_texts(&launch.args),
                            dir: dir.to_string(),
                            socket: self.socket.clone(),
                        },
                    );
                }
                let rootfs = path::path_below(dir, "rootfs.ext4");
                match &self.firecracker {
                    None => {
                        let mut words = "artifact ".to_string();
                        words.append(manifest.id.as_str());
                        words.append(" requires Firecracker isolation but it is not configured");
                        Err(Error::Io(words))
                    },
                    Some(config) => if rootfs_exists {
                        Ok(
                            LoadPlan::MicroVm {
                                firecracker_bin: config.firecracker_bin.clone(),
                                kernel_image: config.kernel_image.clone(),
                                rootfs,
                            },
                        )
                    } else {
                        let mut words = "artifact ".to_string();
                        words.append(manifest.id.as_str());
                        words.append(": Firecracker rootfs missing at ");
                        words.append(rootfs.as_str());
                        Err(Error::Io(words))
                    },
                }
            },
        }
    }
}

// ---------------------------------------------------------------------------
// What the loader promises
// ---------------------------------------------------------------------------

/// An artifact that needs a virtual machine never becomes a process on the host, and
/// without a configured one, or without a file system for it, it is not loaded.
pub proof fn lemma_fails_closed(
    l: LoaderView,
    m: Manifest,
    dir: Seq<char>,
    trusted: bool,
    rootfs_exists: bool,
)
    requires
        needs_vm(m.kind@),
        m.launch is Some,
    ensures
        plan_view(l, m, dir, trusted, rootfs_exists) matches Ok(p) ==> p is MicroVm,
        l.firecracker is None || !rootfs_exists ==> plan_view(l, m, dir, trusted, rootfs_exists) is Err,
{
}

proof fn lemma_none_missing(caps: Seq<CapabilityView>, granted: Set<CapabilityView>)
    ensures
        first_missing(caps, granted) is None <==> forall|i: int|
            0 <= i < caps.len() ==> granted.contains(#[trigger] caps[i]),
        first_missing(caps, granted) matches Some(c) ==> !granted.contains(c) && caps.contains(c),
    decreases caps.len(),
{
    if caps.len() > 0 {
        let rest = caps.drop_last();
        lemma_none_missing(rest, granted);
        assert(caps.last() == caps[caps.len() - 1]);
        if first_missing(rest, granted) is None {
            if granted.contains(caps.last()) {
                assert forall|i: int| 0 <= i < caps.len() implies granted.contains(
                    #[trigger] caps[i],
                ) by {
                    if i < rest.len() {
                        assert(rest[i] == caps[i]);
                    }
                }
            }
        } else {
            let c = first_missing(rest, granted)->0;
            let i = choose|i: int| 0 <= i < rest.len() && rest[i] == c;
            assert(caps[i] == c);
        }
    }
}

/// Rights are denied by default: an artifact that is not trusted is loaded only with
/// every right that its manifest asks for granted, and what is named in a refusal is
/// such a right that is not.
pub proof fn lemma_denied_by_default(
    l: LoaderView,
    m: Manifest,
    dir: Seq<char>,
    rootfs_exists: bool,
)
    ensures
        plan_view(l, m, dir, false, rootfs_exists) is Ok ==> forall|i: int|
            0 <= i < capability::manifest_view(m.capabilities).len() ==> l.granted.contains(
                #[trigger] capability::manifest_view(m.capabilities)[i],
            ),
        plan_view(l, m, dir, false, rootfs_exists) matches Err(
            ErrorView::CapabilityDeniedByName(name),
        ) ==> exists|c: CapabilityView| #[trigger]
            capability::manifest_view(m.capabilities).contains(c) && !l.granted.contains(c)
                && c.printed() == name,
{
    lemma_none_missing(capability::manifest_view(m.capabilities), l.granted);
}

} // verus!
