//! The course of an installation: resolve, download, check out, validate, grant, record.

use vstd::prelude::*;
use crate::agent::capability;
use crate::agent::capability::Capability;
use crate::agent::capability::CapabilityView;
use crate::agent::capability::ManifestCapabilities;
use crate::agent::policy;
use crate::agent::policy::NodePolicy;
use crate::agent::policy::PolicyError;
use crate::agent::policy::PolicyErrorView;
use crate::agent::policy::PolicyView;
use crate::json;
use crate::path;
use crate::pkg::artifact;
use crate::pkg::artifact::ArtifactManager;
use crate::pkg::artifact::ArtifactUri;
use crate::pkg::artifact::ArtifactView;
use crate::pkg::artifact::InstallRecord;
use crate::pkg::artifact::InstallRequest;
use crate::pkg::artifact::InstalledArtifact;
use crate::pkg::artifact::ManagerView;
use crate::pkg::artifact::RecordView;
use crate::pkg::artifact::UriView;
use crate::pkg::error;
use crate::pkg::error::FaultView;
use crate::pkg::error::PkgError;
use crate::pkg::error::PkgErrorView;
use crate::pkg::error::RegistryFault;
use crate::sorted_map;
use crate::text;

verus! {

/// What the registry says of an artifact, once its signature is verified.
pub struct Resolution {
    pub version: String,
    /// The address of the bundle, which its content decides.
    pub content_addr: String,
    /// What the signed manifest declares.
    pub capabilities: ManifestCapabilities,
    /// What is wrong with the signed manifest, if anything is.
    pub fault: Option<String>,
    /// The signed manifest as text, or why there is none.
    pub manifest: Result<String, String>,
}

/// What such an answer is.
#[verifier::ext_equal]
pub struct ResolutionView {
    pub version: Seq<char>,
    pub content_addr: Seq<char>,
    pub capabilities: Seq<CapabilityView>,
    pub fault: Option<Seq<char>>,
    pub manifest: Result<Seq<char>, Seq<char>>,
}

impl View for Resolution {
    type V = ResolutionView;

    open spec fn view(&self) -> ResolutionView {
        ResolutionView {
            version: self.version@,
            content_addr: self.content_addr@,
            capabilities: capability::manifest_view(self.capabilities),
            fault: text::opt_view(self.fault),
            manifest: match self.manifest {
                Ok(t) => Ok(t@),
                Err(e) => Err(e@),
            },
        }
    }
}

/// What is installed, and where.
pub struct InstallPlan {
    pub apps_dir: String,
    pub policy_path: String,
    /// The name of the artifact, without a version.
    pub id: String,
    /// What the installation replaces, where it is an update.
    pub current: Option<InstalledArtifact>,
    /// The node and the bearer that the installation is reported with.
    pub identity: Option<(String, String)>,
}

/// What such a plan is.
#[verifier::ext_equal]
pub struct PlanView {
    pub apps_dir: Seq<char>,
    pub policy_path: Seq<char>,
    pub id: Seq<char>,
    pub current: Option<ArtifactView>,
    pub identity: Option<(Seq<char>, Seq<char>)>,
}

/// An identity that may be missing.
pub open spec fn identity_view(identity: Option<(String, String)>) -> Option<
    (Seq<char>, Seq<char>),
> {
    match identity {
        Some((node, bearer)) => Some((node@, bearer@)),
        None => None,
    }
}

impl View for InstallPlan {
    type V = PlanView;

    open spec fn view(&self) -> PlanView {
        PlanView {
            apps_dir: self.apps_dir@,
            policy_path: self.policy_path@,
            id: self.id@,
            current: artifact::opt_artifact(self.current),
            identity: identity_view(self.identity),
        }
    }
}

impl PlanView {
    /// The id of the version that the registry has.
    pub open spec fn registry_id(self, r: ResolutionView) -> Seq<char> {
        artifact::versioned(self.id, r.version)
    }

    /// Where the bundle is kept until it is checked out.
    pub open spec fn blob(self, r: ResolutionView) -> Seq<char> {
        path::below(path::below(self.apps_dir, ".cache"@), r.content_addr + ".kiki"@)
    }

    /// The directory of the artifact.
    pub open spec fn dir(self, r: ResolutionView) -> Seq<char> {
        path::below(self.apps_dir, path::component(self.registry_id(r)))
    }

    /// Where the bundle is unpacked before it takes the place of the directory.
    pub open spec fn staging(self, r: ResolutionView) -> Seq<char> {
        path::below(
            self.apps_dir,
            "."@ + path::component(self.registry_id(r)) + ".incoming"@,
        )
    }

    /// The installed artifact.
    pub open spec fn artifact(self, r: ResolutionView) -> ArtifactView {
        ArtifactView { id: self.registry_id(r), version: r.version, path: self.dir(r) }
    }

    /// The ledger with the declared rights, and without those of what is replaced.
    pub open spec fn granted(self, r: ResolutionView, p: PolicyView) -> PolicyView {
        let bare = match self.current {
            Some(old) => sorted_map::without(p.grants, old.id),
            None => p.grants,
        };
        PolicyView {
            grants: sorted_map::put(bare, self.registry_id(r), r.capabilities),
            ..p
        }
    }

    /// The directory that an update leaves behind.
    pub open spec fn stale(self, r: ResolutionView) -> Option<Seq<char>> {
        match self.current {
            Some(old) => if old.path != self.dir(r) {
                Some(old.path)
            } else {
                None
            },
            None => None,
        }
    }
}

/// How far an installation has come.
pub enum InstallPhase {
    Resolving,
    Downloading(Resolution),
    CheckingOut(Resolution),
    WritingManifest(Resolution),
    ReadingPolicy(Resolution),
    SavingPolicy(Resolution),
    Recording(Resolution),
    Over,
}

/// What such a phase is.
#[verifier::ext_equal]
pub enum PhaseView {
    Resolving,
    Downloading(ResolutionView),
    CheckingOut(ResolutionView),
    WritingManifest(ResolutionView),
    ReadingPolicy(ResolutionView),
    SavingPolicy(ResolutionView),
    Recording(ResolutionView),
    Over,
}

impl View for InstallPhase {
    type V = PhaseView;

    open spec fn view(&self) -> PhaseView {
        match self {
            InstallPhase::Resolving => PhaseView::Resolving,
            InstallPhase::Downloading(r) => PhaseView::Downloading(r@),
            InstallPhase::CheckingOut(r) => PhaseView::CheckingOut(r@),
            InstallPhase::WritingManifest(r) => PhaseView::WritingManifest(r@),
            InstallPhase::ReadingPolicy(r) => PhaseView::ReadingPolicy(r@),
            InstallPhase::SavingPolicy(r) => PhaseView::SavingPolicy(r@),
            InstallPhase::Recording(r) => PhaseView::Recording(r@),
            InstallPhase::Over => PhaseView::Over,
        }
    }
}

/// What came of what was to be done.
pub enum InstallEvent {
    /// The registry answered.
    Resolved(Resolution),
    /// The registry gave nothing, or not what it had signed.
    Refused(RegistryFault),
    /// It was done.
    Completed,
    /// A file could not be read or written.
    IoFailed(String),
    /// The bundle could not be decompressed.
    BadCompression(String),
    /// The bundle could not be unpacked.
    BadArchive(String),
    /// The file of the ledger holds this, where it can be read.
    PolicyRead(Option<String>),
}

/// What such an event is.
#[verifier::ext_equal]
pub enum InstallEventView {
    Resolved(ResolutionView),
    Refused(FaultView),
    Completed,
    IoFailed(Seq<char>),
    BadCompression(Seq<char>),
    BadArchive(Seq<char>),
    PolicyRead(Option<Seq<char>>),
}

impl View for InstallEvent {
    type V = InstallEventView;

    open spec fn view(&self) -> InstallEventView {
        match self {
            InstallEvent::Resolved(r) => InstallEventView::Resolved(r@),
            InstallEvent::Refused(f) => InstallEventView::Refused(f@),
            InstallEvent::Completed => InstallEventView::Completed,
            InstallEvent::IoFailed(e) => InstallEventView::IoFailed(e@),
            InstallEvent::BadCompression(e) => InstallEventView::BadCompression(e@),
            InstallEvent::BadArchive(e) => InstallEventView::BadArchive(e@),
            InstallEvent::PolicyRead(c) => InstallEventView::PolicyRead(text::opt_view(*c)),
        }
    }
}

/// What is to be done.
pub enum InstallAction {
    /// To fetch the bundle at an address into a file, and to compare its content.
    Download { content_addr: String, to: String },
    /// To unpack a bundle beside its directory, to put it in place of what is there, and to
    /// drop the bundle.
    CheckOut { blob: String, staging: String, dir: String },
    /// To write the signed manifest.
    WriteManifest { file: String, content: String },
    /// To read the file of the ledger.
    ReadPolicy { file: String },
    /// To write the file of the ledger.
    SavePolicy { file: String, content: String },
    /// To write the record.
    WriteRecord { file: String, content: String },
    /// The artifact is installed. What is left to do is to drop the directory that it
    /// replaced, and to report it.
    Finish {
        artifact: InstalledArtifact,
        stale: Option<String>,
        report: Option<(String, String)>,
    },
    /// Nothing was installed.
    Fail(PkgError),
    /// Nothing, until what is awaited comes.
    Wait,
}

/// What such an action is.
#[allow(inconsistent_fields)]
#[verifier::ext_equal]
pub enum InstallActionView {
    Download { content_addr: Seq<char>, to: Seq<char> },
    CheckOut { blob: Seq<char>, staging: Seq<char>, dir: Seq<char> },
    WriteManifest { file: Seq<char>, content: Seq<char> },
    ReadPolicy { file: Seq<char> },
    SavePolicy { file: Seq<char>, policy: PolicyView },
    WriteRecord { file: Seq<char>, record: RecordView },
    Finish {
        artifact: ArtifactView,
        stale: Option<Seq<char>>,
        report: Option<(Seq<char>, Seq<char>)>,
    },
    Fail(PkgErrorView),
    Wait,
}

impl InstallAction {
    /// Whether the action is this one: what is written reads back as what it is.
    pub open spec fn is(self, view: InstallActionView) -> bool {
        match (self, view) {
            (
                InstallAction::Download { content_addr, to },
                InstallActionView::Download { content_addr: a, to: t },
            ) => content_addr@ == a && to@ == t,
            (
                InstallAction::CheckOut { blob, staging, dir },
                InstallActionView::CheckOut { blob: b, staging: s, dir: d },
            ) => blob@ == b && staging@ == s && dir@ == d,
            (
                InstallAction::WriteManifest { file, content },
                InstallActionView::WriteManifest { file: f, content: c },
            ) => file@ == f && content@ == c,
            (
                InstallAction::ReadPolicy { file },
                InstallActionView::ReadPolicy { file: f },
            ) => file@ == f,
            (
                InstallAction::SavePolicy { file, content },
                InstallActionView::SavePolicy { file: f, policy: p },
            ) => file@ == f && content@ == json::written_pretty(policy::policy_json(p))
                && policy::loaded(Some(content@)) == Ok::<PolicyView, PolicyErrorView>(p),
            (
                InstallAction::WriteRecord { file, content },
                InstallActionView::WriteRecord { file: f, record: r },
            ) => file@ == f && content@ == json::written_pretty(artifact::record_json(r))
                && artifact::record_in(Some(content@)) == Some(r),
            (
                InstallAction::Finish { artifact, stale, report },
                InstallActionView::Finish { artifact: a, stale: s, report: r },
            ) => artifact@ == a && text::opt_view(stale) == s && identity_view(report) == r,
            (InstallAction::Fail(e), InstallActionView::Fail(v)) => e@ == v,
            (InstallAction::Wait, InstallActionView::Wait) => true,
            _ => false,
        }
    }
}

/// The end of an installation that failed.
pub open spec fn failing(e: PkgErrorView) -> (PhaseView, InstallActionView) {
    (PhaseView::Over, InstallActionView::Fail(e))
}

/// What an event does to an installation. The rights are granted last but for the record:
/// after the signature was verified, the content of the bundle compared, the bundle checked
/// out and the signed manifest found valid and written.
pub open spec fn install_step(plan: PlanView, phase: PhaseView, event: InstallEventView) -> (
    PhaseView,
    InstallActionView,
) {
    match (phase, event) {
        (PhaseView::Resolving, InstallEventView::Resolved(r)) => match plan.current {
            Some(c) if c.version == r.version => (
                PhaseView::Over,
                InstallActionView::Finish { artifact: c, stale: None, report: None },
            ),
            _ => (
                PhaseView::Downloading(r),
                InstallActionView::Download { content_addr: r.content_addr, to: plan.blob(r) },
            ),
        },
        (PhaseView::Resolving, InstallEventView::Refused(f)) => failing(error::fault_error(f)),
        (PhaseView::Downloading(r), InstallEventView::Completed) => (
            PhaseView::CheckingOut(r),
            InstallActionView::CheckOut {
                blob: plan.blob(r),
                staging: plan.staging(r),
                dir: plan.dir(r),
            },
        ),
        (PhaseView::Downloading(r), InstallEventView::Refused(f)) => failing(
            error::fault_error(f),
        ),
        (PhaseView::Downloading(r), InstallEventView::IoFailed(e)) => failing(
            PkgErrorView::Io(e),
        ),
        (PhaseView::CheckingOut(r), InstallEventView::Completed) => match (r.fault, r.manifest) {
            (Some(e), _) => failing(PkgErrorView::Manifest(e)),
            (None, Err(e)) => failing(PkgErrorView::Manifest("serialize kiki.toml: "@ + e)),
            (None, Ok(content)) => (
                PhaseView::WritingManifest(r),
                InstallActionView::WriteManifest {
                    file: path::below(plan.dir(r), "kiki.toml"@),
                    content,
                },
            ),
        },
        (PhaseView::CheckingOut(r), InstallEventView::IoFailed(e)) => failing(
            PkgErrorView::Io(e),
        ),
        (PhaseView::CheckingOut(r), InstallEventView::BadCompression(e)) => failing(
            PkgErrorView::Checkout("zstd: "@ + e),
        ),
        (PhaseView::CheckingOut(r), InstallEventView::BadArchive(e)) => failing(
            PkgErrorView::Checkout("tar: "@ + e),
        ),
        (PhaseView::WritingManifest(r), InstallEventView::Completed) => (
            PhaseView::ReadingPolicy(r),
            InstallActionView::ReadPolicy { file: plan.policy_path },
        ),
        (PhaseView::WritingManifest(r), InstallEventView::IoFailed(e)) => failing(
            PkgErrorView::Io(e),
        ),
        (PhaseView::ReadingPolicy(r), InstallEventView::IoFailed(e)) => failing(
            PkgErrorView::Grant(PolicyErrorView::Io(e).message()),
        ),
        (PhaseView::ReadingPolicy(r), InstallEventView::PolicyRead(content)) => match policy::loaded(
            content,
        ) {
            Err(e) => failing(PkgErrorView::Grant(e.message())),
            Ok(p) => (
                PhaseView::SavingPolicy(r),
                InstallActionView::SavePolicy {
                    file: plan.policy_path,
                    policy: plan.granted(r, p),
                },
            ),
        },
        (PhaseView::SavingPolicy(r), InstallEventView::Completed) => (
            PhaseView::Recording(r),
            InstallActionView::WriteRecord {
                file: path::below(plan.dir(r), ".kiki-install.json"@),
                record: RecordView {
                    id: plan.registry_id(r),
                    version: r.version,
                    content_addr: r.content_addr,
                },
            },
        ),
        (PhaseView::SavingPolicy(r), InstallEventView::IoFailed(e)) => failing(
            PkgErrorView::Grant(PolicyErrorView::Io(e).message()),
        ),
        (PhaseView::Recording(r), InstallEventView::Completed) => (
            PhaseView::Over,
            InstallActionView::Finish {
                artifact: plan.artifact(r),
                stale: plan.stale(r),
                report: plan.identity,
            },
        ),
        (PhaseView::Recording(r), InstallEventView::IoFailed(e)) => failing(PkgErrorView::Io(e)),
        _ => (phase, InstallActionView::Wait),
    }
}

/// An installation under way.
pub struct Install {
    pub plan: InstallPlan,
    pub phase: InstallPhase,
}

impl InstallPlan {
    fn registry_id(&self, r: &Resolution) -> (id: String)
        ensures
            id@ == self@.registry_id(r@),
    {
        let mut id = self.id.clone();
        id.append("@");
        id.append(r.version.as_str());
        id
    }

    fn blob(&self, r: &Resolution) -> (file: String)
        ensures
            file@ == self@.blob(r@),
    {
        let cache = path::path_below(self.apps_dir.as_str(), ".cache");
        let mut name = r.content_addr.clone();
        name.append(".kiki");
        path::path_below(cache.as_str(), name.as_str())
    }

    fn dir(&self, r: &Resolution) -> (dir: String)
        ensures
            dir@ == self@.dir(r@),
    {
        let safe = artifact::sanitize_id(self.registry_id(r).as_str());
        path::path_below(self.apps_dir.as_str(), safe.as_str())
    }

    fn staging(&self, r: &Resolution) -> (dir: String)
        ensures
            dir@ == self@.staging(r@),
    {
        let safe = artifact::sanitize_id(self.registry_id(r).as_str());
        let mut name = ".".to_string();
        name.append(safe.as_str());
        name.append(".incoming");
        path::path_below(self.apps_dir.as_str(), name.as_str())
    }

    fn stale(&self, r: &Resolution) -> (dir: Option<String>)
        ensures
            text::opt_view(dir) == self@.stale(r@),
    {
        match &self.current {
            Some(old) => if text::same_text(old.path.as_str(), self.dir(r).as_str()) {
                None
            } else {
                Some(old.path.clone())
            },
            None => None,
        }
    }

    fn copy_identity(&self) -> (identity: Option<(String, String)>)
        ensures
            identity_view(identity) == self@.identity,
    {
        match &self.identity {
            Some((node, bearer)) => Some((node.clone(), bearer.clone())),
            None => None,
        }
    }

    /// Goes on from the answer of the registry.
    fn after_resolving(&self, event: InstallEvent) -> (next: (InstallPhase, InstallAction))
        ensures
            next.0@ == install_step(self@, PhaseView::Resolving, event@).0,
            next.1.is(install_step(self@, PhaseView::Resolving, event@).1),
    {
        match event {
            InstallEvent::Resolved(r) => {
                if let Some(c) = &self.current {
                    if text::same_text(c.version.as_str(), r.version.as_str()) {
                        return (
                            InstallPhase::Over,
                            InstallAction::Finish {
                                artifact: c.copy(),
                                stale: None,
                                report: None,
                            },
                        );
                    }
                }
                let action = InstallAction::Download {
                    content_addr: r.content_addr.clone(),
                    to: self.blob(&r),
                };
                (InstallPhase::Downloading(r), action)
            },
            InstallEvent::Refused(f) => (
                InstallPhase::Over,
                InstallAction::Fail(PkgError::from_registry(f)),
            ),
            _ => (InstallPhase::Resolving, InstallAction::Wait),
        }
    }

    /// Goes on from the download of the bundle.
    fn after_download(&self, r: Resolution, event: InstallEvent) -> (next: (
        InstallPhase,
        InstallAction,
    ))
        ensures
            next.0@ == install_step(self@, PhaseView::Downloading(r@), event@).0,
            next.1.is(install_step(self@, PhaseView::Downloading(r@), event@).1),
    {
        match event {
            InstallEvent::Completed => {
                let action = InstallAction::CheckOut {
                    blob: self.blob(&r),
                    staging: self.staging(&r),
                    dir: self.dir(&r),
                };
                (InstallPhase::CheckingOut(r), action)
            },
            InstallEvent::Refused(f) => (
                InstallPhase::Over,
                InstallAction::Fail(PkgError::from_registry(f)),
            ),
            InstallEvent::IoFailed(e) => (
                InstallPhase::Over,
                InstallAction::Fail(PkgError::Io(e)),
            ),
            _ => (InstallPhase::Downloading(r), InstallAction::Wait),
        }
    }

    /// Goes on from the checkout: validates the signed manifest.
    fn after_checkout(&self, r: Resolution, event: InstallEvent) -> (next: (
        InstallPhase,
        InstallAction,
    ))
        ensures
            next.0@ == install_step(self@, PhaseView::CheckingOut(r@), event@).0,
            next.1.is(install_step(self@, PhaseView::CheckingOut(r@), event@).1),
    {
        match event {
            InstallEvent::Completed => {
                if let Some(e) = r.fault {
                    return (InstallPhase::Over, InstallAction::Fail(PkgError::Manifest(e)));
                }
                let content = match &r.manifest {
                    Ok(content) => content.clone(),
                    Err(e) => {
                        let words = "serialize kiki.toml: ".to_string().concat(e.as_str());
                        return (
                            InstallPhase::Over,
                            InstallAction::Fail(PkgError::Manifest(words)),
                        );
                    },
                };
                let file = path::path_below(self.dir(&r).as_str(), "kiki.toml");
                (
                    InstallPhase::WritingManifest(r),
                    InstallAction::WriteManifest { file, content },
                )
            },
            InstallEvent::IoFailed(e) => (
                InstallPhase::Over,
                InstallAction::Fail(PkgError::Io(e)),
            ),
            InstallEvent::BadCompression(e) => (
                InstallPhase::Over,
                InstallAction::Fail(
                    PkgError::Checkout("zstd: ".to_string().concat(e.as_str())),
                ),
            ),
            InstallEvent::BadArchive(e) => (
                InstallPhase::Over,
                InstallAction::Fail(PkgError::Checkout("tar: ".to_string().concat(e.as_str()))),
            ),
            _ => (InstallPhase::CheckingOut(r), InstallAction::Wait),
        }
    }

    /// Goes on from the file of the ledger: records the declared rights.
    fn after_policy(&self, r: Resolution, event: InstallEvent) -> (next: (
        InstallPhase,
        InstallAction,
    ))
        ensures
            next.0@ == install_step(self@, PhaseView::ReadingPolicy(r@), event@).0,
            next.1.is(install_step(self@, PhaseView::ReadingPolicy(r@), event@).1),
    {
        match event {
            InstallEvent::PolicyRead(content) => {
                let raw = match &content {
                    Some(c) => Some(c.as_str()),
                    None => None,
                };
                match NodePolicy::load(raw) {
                    Err(e) => (
                        InstallPhase::Over,
                        InstallAction::Fail(PkgError::Grant(e.message())),
                    ),
                    Ok(mut ledger) => {
                        if let Some(old) = &self.current {
                            let _ = ledger.remove_artifact(old.id.as_str());
                        }
                        let caps = Capability::from_manifest(&r.capabilities);
                        ledger.set_artifact(self.registry_id(&r).as_str(), caps);
                        let content = ledger.save();
                        (
                            InstallPhase::SavingPolicy(r),
                            InstallAction::SavePolicy {
                                file: self.policy_path.clone(),
                                content,
                            },
                        )
                    },
                }
            },
            InstallEvent::IoFailed(words) => (
                InstallPhase::Over,
                InstallAction::Fail(PkgError::Grant(PolicyError::Io(words).message())),
            ),
            _ => (InstallPhase::ReadingPolicy(r), InstallAction::Wait),
        }
    }

    /// Goes on from the grant: records the installation.
    fn after_grant(&self, r: Resolution, event: InstallEvent) -> (next: (
        InstallPhase,
        InstallAction,
    ))
        ensures
            next.0@ == install_step(self@, PhaseView::SavingPolicy(r@), event@).0,
            next.1.is(install_step(self@, PhaseView::SavingPolicy(r@), event@).1),
    {
        match event {
            InstallEvent::Completed => {
                let record = InstallRecord {
                    id: self.registry_id(&r),
                    version: r.version.clone(),
                    content_addr: r.content_addr.clone(),
                };
                let file = path::path_below(self.dir(&r).as_str(), ".kiki-install.json");
                let content = record.text();
                (InstallPhase::Recording(r), InstallAction::WriteRecord { file, content })
            },
            InstallEvent::IoFailed(e) => (
                InstallPhase::Over,
                InstallAction::Fail(PkgError::Grant(PolicyError::Io(e).message())),
            ),
            _ => (InstallPhase::SavingPolicy(r), InstallAction::Wait),
        }
    }

    /// Goes on from the record: the artifact is installed.
    fn after_record(&self, r: Resolution, event: InstallEvent) -> (next: (
        InstallPhase,
        InstallAction,
    ))
        ensures
            next.0@ == install_step(self@, PhaseView::Recording(r@), event@).0,
            next.1.is(install_step(self@, PhaseView::Recording(r@), event@).1),
    {
        match event {
            InstallEvent::Completed => {
                let artifact = InstalledArtifact {
                    id: self.registry_id(&r),
                    version: r.version.clone(),
                    path: self.dir(&r),
                };
                let stale = self.stale(&r);
                let report = self.copy_identity();
                (InstallPhase::Over, InstallAction::Finish { artifact, stale, report })
            },
            InstallEvent::IoFailed(e) => (
                InstallPhase::Over,
                InstallAction::Fail(PkgError::Io(e)),
            ),
            _ => (InstallPhase::Recording(r), InstallAction::Wait),
        }
    }
}

impl Install {
    /// Goes on with the installation.
    pub fn step(self, event: InstallEvent) -> (next: (Install, InstallAction))
        ensures
            next.0.plan@ == self.plan@,
            next.0.phase@ == install_step(self.plan@, self.phase@, event@).0,
            next.1.is(install_step(self.plan@, self.phase@, event@).1),
    {
        let plan = self.plan;
        let (phase, action) = match self.phase {
            InstallPhase::Resolving => plan.after_resolving(event),
            InstallPhase::Downloading(r) => plan.after_download(r, event),
            InstallPhase::CheckingOut(r) => plan.after_checkout(r, event),
            InstallPhase::WritingManifest(r) => match event {
                InstallEvent::Completed => (
                    InstallPhase::ReadingPolicy(r),
                    InstallAction::ReadPolicy { file: plan.policy_path.clone() },
                ),
                InstallEvent::IoFailed(e) => (
                    InstallPhase::Over,
                    InstallAction::Fail(PkgError::Io(e)),
                ),
                _ => (InstallPhase::WritingManifest(r), InstallAction::Wait),
            },
            InstallPhase::ReadingPolicy(r) => plan.after_policy(r, event),
            InstallPhase::SavingPolicy(r) => plan.after_grant(r, event),
            InstallPhase::Recording(r) => plan.after_record(r, event),
            InstallPhase::Over => (InstallPhase::Over, InstallAction::Wait),
        };
        (Install { plan, phase }, action)
    }
}

/// The identity of a manager, where it is complete.
pub open spec fn manager_identity(m: ManagerView) -> Option<(Seq<char>, Seq<char>)> {
    match (m.node_id, m.bearer) {
        (Some(node), Some(bearer)) => Some((node, bearer)),
        _ => None,
    }
}

/// The plan of an installation.
pub open spec fn plan_for(m: ManagerView, id: Seq<char>, current: Option<ArtifactView>) -> PlanView {
    PlanView {
        apps_dir: m.apps_dir,
        policy_path: m.policy_path,
        id,
        current,
        identity: manager_identity(m),
    }
}

/// Why nothing is installed without a trusted key.
pub open spec fn no_trust() -> PkgErrorView {
    PkgErrorView::Verify(
        "empty trust root — cannot verify artifact signatures (configure /etc/kiki/trust)"@,
    )
}

impl ArtifactManager {
    fn begin(&self, req: &InstallRequest, current: Option<InstalledArtifact>) -> (result: Result<
        (Install, ArtifactUri),
        PkgError,
    >)
        ensures
            match result {
                Ok((install, uri)) => self@.trust.len() > 0 && install.phase@ == PhaseView::Resolving
                    && install.plan@ == plan_for(
                    self@,
                    req.id@,
                    artifact::opt_artifact(current),
                ) && Ok::<UriView, PkgErrorView>(uri@) == self@.place(*req),
                Err(e) => if self@.trust.len() == 0 {
                    e@ == no_trust()
                } else {
                    self@.place(*req) == Err::<UriView, PkgErrorView>(e@)
                },
            },
    {
        if self.trust.len() == 0 {
            return Err(
                PkgError::Verify(
                    "empty trust root — cannot verify artifact signatures (configure /etc/kiki/trust)".to_string(),
                ),
            );
        }
        let uri = match self.artifact_uri(req) {
            Ok(uri) => uri,
            Err(e) => {
                return Err(e);
            },
        };
        let identity = match (&self.node_id, &self.bearer) {
            (Some(node), Some(bearer)) => Some((node.clone(), bearer.clone())),
            _ => None,
        };
        let plan = InstallPlan {
            apps_dir: self.apps_dir.clone(),
            policy_path: self.policy_path.clone(),
            id: req.id.clone(),
            current,
            identity,
        };
        Ok((Install { plan, phase: InstallPhase::Resolving }, uri))
    }

    /// Begins to install an artifact: gives what has to be resolved.
    pub fn install(&self, req: &InstallRequest) -> (result: Result<
        (Install, ArtifactUri),
        PkgError,
    >)
        ensures
            match result {
                Ok((install, uri)) => self@.trust.len() > 0 && install.phase@ == PhaseView::Resolving
                    && install.plan@ == plan_for(self@, req.id@, None)
                    && Ok::<UriView, PkgErrorView>(uri@) == self@.place(*req),
                Err(e) => if self@.trust.len() == 0 {
                    e@ == no_trust()
                } else {
                    self@.place(*req) == Err::<UriView, PkgErrorView>(e@)
                },
            },
    {
        self.begin(req, None)
    }

    /// Begins to update an artifact to its latest version: gives what has to be resolved.
    pub fn update(&self, artifacts: &Vec<InstalledArtifact>, id: &str) -> (result: Result<
        (Install, ArtifactUri),
        PkgError,
    >)
        ensures
            match artifact::meant(artifact::artifacts_view(artifacts@), id@) {
                None => result matches Err(e) && e@ == PkgErrorView::NotInstalled(id@),
                Some(current) => match result {
                    Ok((install, uri)) => self@.trust.len() > 0 && install.phase@
                        == PhaseView::Resolving && install.plan@ == plan_for(
                        self@,
                        artifact::id_path(id@),
                        Some(current),
                    ) && Ok::<UriView, PkgErrorView>(uri@) == self@.latest(
                        artifact::id_path(id@),
                    ),
                    Err(e) => if self@.trust.len() == 0 {
                        e@ == no_trust()
                    } else {
                        self@.latest(artifact::id_path(id@)) == Err::<UriView, PkgErrorView>(e@)
                    },
                },
            },
    {
        let current = match artifact::find_installed(artifacts, id) {
            Some(a) => a,
            None => {
                return Err(PkgError::NotInstalled(id.to_string()));
            },
        };
        let req = InstallRequest { id: self.id_path(id), version: None };
        self.begin(&req, Some(current))
    }
}

impl ManagerView {
    /// Where a requested artifact is.
    pub open spec fn place(self, req: InstallRequest) -> Result<UriView, PkgErrorView> {
        artifact::uri_view(
            artifact::host_part(crate::net::address(self.registry_url)),
            req.id@,
            text::opt_view(req.version),
            artifact::opt_fault(text::opt_view(req.version)),
        )
    }

    /// Where the latest version of an artifact is.
    pub open spec fn latest(self, id: Seq<char>) -> Result<UriView, PkgErrorView> {
        artifact::uri_view(
            artifact::host_part(crate::net::address(self.registry_url)),
            id,
            None,
            None,
        )
    }
}

// ---------------------------------------------------------------------------
// What an installation promises
// ---------------------------------------------------------------------------

/// Where events lead.
pub open spec fn reached(plan: PlanView, events: Seq<InstallEventView>) -> PhaseView
    decreases events.len(),
{
    if events.len() == 0 {
        PhaseView::Resolving
    } else {
        install_step(plan, reached(plan, events.drop_last()), events.last()).0
    }
}

/// What is done at an event.
pub open spec fn done_at(plan: PlanView, events: Seq<InstallEventView>, i: int) -> InstallActionView {
    install_step(plan, reached(plan, events.take(i)), events[i]).1
}

/// The answer of the registry that a phase rests on.
pub open spec fn resolution_of(phase: PhaseView) -> Option<ResolutionView> {
    match phase {
        PhaseView::Downloading(r) => Some(r),
        PhaseView::CheckingOut(r) => Some(r),
        PhaseView::WritingManifest(r) => Some(r),
        PhaseView::ReadingPolicy(r) => Some(r),
        PhaseView::SavingPolicy(r) => Some(r),
        PhaseView::Recording(r) => Some(r),
        _ => None,
    }
}

/// How far along a phase is.
pub open spec fn rank(phase: PhaseView) -> int {
    match phase {
        PhaseView::Resolving => 0,
        PhaseView::Downloading(r) => 1,
        PhaseView::CheckingOut(r) => 2,
        PhaseView::WritingManifest(r) => 3,
        PhaseView::ReadingPolicy(r) => 4,
        PhaseView::SavingPolicy(r) => 5,
        PhaseView::Recording(r) => 6,
        PhaseView::Over => 7,
    }
}

/// Whether events show that an answer of the registry was accepted as far as a phase: the
/// registry answered with it, and then the bundle was downloaded, checked out, and the
/// manifest written, one event after the other.
pub open spec fn shown(events: Seq<InstallEventView>, r: ResolutionView, upto: int) -> bool {
    exists|at: Seq<int>| #[trigger] witnesses(events, r, upto, at)
}

/// Whether these events are those that show it.
pub open spec fn witnesses(
    events: Seq<InstallEventView>,
    r: ResolutionView,
    upto: int,
    at: Seq<int>,
) -> bool {
    &&& at.len() == upto
    &&& forall|k: int| 0 <= k < upto ==> 0 <= #[trigger] at[k] < events.len()
    &&& forall|k: int, l: int| 0 <= k < l < upto ==> #[trigger] at[k] < #[trigger] at[l]
    &&& upto > 0 ==> events[at[0]] == InstallEventView::Resolved(r)
    &&& forall|k: int|
        1 <= k < upto && k < 4 ==> events[#[trigger] at[k]] == InstallEventView::Completed
}

proof fn lemma_shown(plan: PlanView, events: Seq<InstallEventView>) -> (at: Seq<int>)
    requires
        resolution_of(reached(plan, events)) is Some,
    ensures
        witnesses(
            events,
            resolution_of(reached(plan, events))->0,
            rank(reached(plan, events)),
            at,
        ),
    decreases events.len(),
{
    let before = reached(plan, events.drop_last());
    let after = reached(plan, events);
    let last = events.len() - 1;
    if before == PhaseView::Resolving {
        assert(events[last] == InstallEventView::Resolved(resolution_of(after)->0));
        seq![last]
    } else {
        let early = lemma_shown(plan, events.drop_last());
        if before == after {
            early
        } else {
            early.push(last)
        }
    }
}

/// Rights are granted only to what was verified: where the ledger is to be written, the
/// registry had answered with a verified signature, its bundle had been downloaded, checked
/// out and its signed manifest found valid and written, in this order, and what is written is
/// the ledger that was there with exactly the rights that this manifest declares.
pub proof fn lemma_grants_come_after_verifying(
    plan: PlanView,
    events: Seq<InstallEventView>,
    i: int,
)
    requires
        0 <= i < events.len(),
        done_at(plan, events, i) is SavePolicy,
    ensures
        reached(plan, events.take(i)) matches PhaseView::ReadingPolicy(r) && {
            &&& shown(events.take(i), r, 4)
            &&& r.fault is None
            &&& r.manifest is Ok
            &&& events[i] matches InstallEventView::PolicyRead(content) && {
                &&& policy::loaded(content) is Ok
                &&& done_at(plan, events, i) == (InstallActionView::SavePolicy {
                    file: plan.policy_path,
                    policy: plan.granted(r, policy::loaded(content)->Ok_0),
                })
            }
        },
{
    let at = lemma_shown(plan, events.take(i));
    lemma_valid_manifest(plan, events.take(i));
}

proof fn lemma_valid_manifest(plan: PlanView, events: Seq<InstallEventView>)
    ensures
        rank(reached(plan, events)) >= 3 && resolution_of(reached(plan, events)) is Some
            ==> (resolution_of(reached(plan, events))->0).fault is None && (resolution_of(
            reached(plan, events),
        )->0).manifest is Ok,
    decreases events.len(),
{
    if events.len() > 0 {
        lemma_valid_manifest(plan, events.drop_last());
    }
}

/// What is found wrong with a signed manifest ends the installation before any right is
/// granted.
pub proof fn lemma_invalid_manifest_gets_no_rights(
    plan: PlanView,
    events: Seq<InstallEventView>,
    i: int,
)
    requires
        0 <= i < events.len(),
        resolution_of(reached(plan, events.take(i))) matches Some(r) && (r.fault is Some
            || r.manifest is Err),
    ensures
        !(done_at(plan, events, i) is SavePolicy),
        !(done_at(plan, events, i) is WriteRecord),
        !(done_at(plan, events, i) is Finish),
{
    lemma_valid_manifest(plan, events.take(i));
}

/// An installation goes forward only, and ends once: after its end nothing is done.
pub proof fn lemma_goes_forward(plan: PlanView, phase: PhaseView, event: InstallEventView)
    ensures
        ({
            let (next, action) = install_step(plan, phase, event);
            &&& next == phase || rank(next) == rank(phase) + 1 || next == PhaseView::Over
            &&& next == phase ==> action == InstallActionView::Wait
            &&& next == PhaseView::Over && phase != PhaseView::Over <==> (action is Finish
                || action is Fail)
        }),
{
}

/// An artifact is updated only where the registry has another version than the device; the
/// rights of the version that is replaced are revoked, and those of no other artifact.
pub proof fn lemma_update_replaces(
    plan: PlanView,
    r: ResolutionView,
    p: PolicyView,
    other: Seq<char>,
)
    requires
        plan.current is Some,
        sorted_map::ascending(p.grants),
        other != plan.registry_id(r),
        other != (plan.current->0).id,
    ensures
        (plan.current->0).version == r.version ==> install_step(
            plan,
            PhaseView::Resolving,
            InstallEventView::Resolved(r),
        ).1 == (InstallActionView::Finish {
            artifact: plan.current->0,
            stale: None,
            report: None,
        }),
        ({
            let before = sorted_map::as_map(p.grants);
            let after = sorted_map::as_map(plan.granted(r, p).grants);
            &&& after.dom().contains(plan.registry_id(r))
            &&& after[plan.registry_id(r)] == r.capabilities
            &&& (plan.current->0).id != plan.registry_id(r) ==> !after.dom().contains(
                (plan.current->0).id,
            )
            &&& after.dom().contains(other) == before.dom().contains(other)
            &&& before.dom().contains(other) ==> after[other] == before[other]
        }),
{
    let old = plan.current->0;
    sorted_map::lemma_without(p.grants, old.id);
    sorted_map::lemma_put(
        sorted_map::without(p.grants, old.id),
        plan.registry_id(r),
        r.capabilities,
    );
}

} // verus!
