//! The artifacts on a device, and where they are.

use vstd::prelude::*;
use crate::agent::policy;
use crate::agent::policy::NodePolicy;
use crate::agent::policy::PolicyView;
use crate::json;
use crate::json::Json;
use crate::json::JsonView;
use crate::net;
use crate::path;
use crate::pkg::error::PkgError;
use crate::pkg::error::PkgErrorView;
use crate::sorted_map;
use crate::text;

verus! {

/// What is to be installed.
pub struct InstallRequest {
    /// The name of the artifact, without a version.
    pub id: String,
    /// The version, where it must be this one.
    pub version: Option<String>,
}

/// An artifact on the device.
pub struct InstalledArtifact {
    pub id: String,
    pub version: String,
    pub path: String,
}

/// What an installed artifact is.
#[verifier::ext_equal]
pub struct ArtifactView {
    pub id: Seq<char>,
    pub version: Seq<char>,
    pub path: Seq<char>,
}

impl View for InstalledArtifact {
    type V = ArtifactView;

    open spec fn view(&self) -> ArtifactView {
        ArtifactView { id: self.id@, version: self.version@, path: self.path@ }
    }
}

impl InstalledArtifact {
    /// Another one like it.
    pub fn copy(&self) -> (artifact: Self)
        ensures
            artifact@ == self@,
    {
        InstalledArtifact {
            id: self.id.clone(),
            version: self.version.clone(),
            path: self.path.clone(),
        }
    }
}

/// What several artifacts are.
pub open spec fn artifacts_view(artifacts: Seq<InstalledArtifact>) -> Seq<ArtifactView> {
    Seq::new(artifacts.len(), |i: int| artifacts[i]@)
}

// ---------------------------------------------------------------------------
// Names
// ---------------------------------------------------------------------------

/// An artifact's id as the name of a directory: one component of a path, which leads
/// nowhere else.
pub fn sanitize_id(id: &str) -> (name: String)
    ensures
        name@ == path::component(id@),
        name@ != "."@ && name@ != ".."@,
        !name@.contains('/'),
{
    proof {
        path::lemma_component(id@);
    }
    path::path_component(id)
}

/// An id without its version.
pub open spec fn id_path(id: Seq<char>) -> Seq<char> {
    match text::before_last(id, '@') {
        Some(name) => name,
        None => id,
    }
}

/// The id of a version of an artifact.
pub open spec fn versioned(name: Seq<char>, version: Seq<char>) -> Seq<char> {
    name + "@"@ + version
}

/// Taking the version off the id of a version gives the artifact's name.
pub proof fn lemma_version_comes_off(name: Seq<char>, version: Seq<char>)
    requires
        !version.contains('@'),
    ensures
        id_path(versioned(name, version)) == name,
{
    reveal_strlit("@");
    let id = versioned(name, version);
    assert(id[name.len() as int] == '@');
    assert forall|k: int| name.len() < k < id.len() implies id[k] != '@' by {
        assert(id[k] == version[k - name.len() - 1]);
        assert(version.contains(version[k - name.len() - 1]));
    }
    assert(text::last_at(id, '@', name.len() as int));
    text::lemma_before_last(id, '@', name.len() as int);
    assert(id.take(name.len() as int) =~= name);
}

fn name_of(id: &str) -> (name: String)
    ensures
        name@ == id_path(id@),
{
    match text::rsplit_once(id, '@') {
        Some((name, version)) => {
            proof {
                text::lemma_before_last(id@, '@', name@.len() as int);
            }
            name
        },
        None => {
            proof {
                text::lemma_before_last(id@, '@', 0);
            }
            id.to_string()
        },
    }
}

// ---------------------------------------------------------------------------
// Records
// ---------------------------------------------------------------------------

/// How an artifact was installed.
pub struct InstallRecord {
    pub id: String,
    pub version: String,
    pub content_addr: String,
}

/// What a record is.
#[verifier::ext_equal]
pub struct RecordView {
    pub id: Seq<char>,
    pub version: Seq<char>,
    pub content_addr: Seq<char>,
}

impl View for InstallRecord {
    type V = RecordView;

    open spec fn view(&self) -> RecordView {
        RecordView { id: self.id@, version: self.version@, content_addr: self.content_addr@ }
    }
}

/// The record as a document.
pub open spec fn record_json(r: RecordView) -> JsonView {
    JsonView::Object(
        Map::empty().insert("id"@, JsonView::Text(r.id)).insert(
            "version"@,
            JsonView::Text(r.version),
        ).insert("content_addr"@, JsonView::Text(r.content_addr)),
    )
}

/// The members of a record.
pub open spec fn record_fields() -> Seq<&'static str> {
    seq!["id", "version", "content_addr"]
}

/// The record that a document is, if it is one, by the names of its members or by their
/// places.
pub open spec fn record_of_json(v: JsonView) -> Option<RecordView> {
    let v = json::named(v, record_fields());
    match (v.text_field("id"@), v.text_field("version"@), v.text_field("content_addr"@)) {
        (Some(id), Some(version), Some(content_addr)) => Some(
            RecordView { id, version, content_addr },
        ),
        _ => None,
    }
}

/// The record in a file, by what is in it, if it holds one.
pub open spec fn record_in(content: Option<Seq<char>>) -> Option<RecordView> {
    match content {
        Some(raw) => match json::parsed(raw) {
            Some(v) => record_of_json(v),
            None => None,
        },
        None => None,
    }
}

/// A record that may be missing.
pub open spec fn opt_record(record: Option<InstallRecord>) -> Option<RecordView> {
    match record {
        Some(r) => Some(r@),
        None => None,
    }
}

impl InstallRecord {
    /// What goes into the file of the record. It reads back as the same record.
    pub fn text(&self) -> (content: String)
        ensures
            content@ == json::written_pretty(record_json(self@)),
            record_in(Some(content@)) == Some(self@),
    {
        let v = Json::object().with("id", Json::of_text(self.id.as_str())).with(
            "version",
            Json::of_text(self.version.as_str()),
        ).with("content_addr", Json::of_text(self.content_addr.as_str()));
        proof {
            reveal_strlit("id");
            reveal_strlit("version");
            reveal_strlit("content_addr");
            assert("id"@.len() == 2 && "version"@.len() == 7 && "content_addr"@.len() == 12);
            let members = v@->Object_0;
            assert forall|k: Seq<char>| members.dom().contains(k) implies json::plain(
                #[trigger] members[k],
                126,
            ) by {
                if k != "id"@ && k != "version"@ {
                    assert(k == "content_addr"@);
                }
            }
            assert(json::plain(v@, 127));
            assert(record_of_json(v@) == Some(self@));
        }
        json::write_pretty(&v)
    }

    /// The record in a file, by what is in it, if it holds one.
    pub fn read(content: &Option<String>) -> (record: Option<InstallRecord>)
        ensures
            opt_record(record) == record_in(text::opt_view(*content)),
    {
        match content {
            Some(raw) => match json::parse(raw.as_str()) {
                Some(v) => {
                    let names: Vec<&'static str> = vec!["id", "version", "content_addr"];
                    assert(names@ =~= record_fields());
                    let v = v.with_names(&names);
                    match (v.get_text("id"), v.get_text("version"), v.get_text("content_addr")) {
                        (Some(id), Some(version), Some(content_addr)) => Some(
                            InstallRecord { id, version, content_addr },
                        ),
                        _ => None,
                    }
                },
                None => None,
            },
            None => None,
        }
    }
}

// ---------------------------------------------------------------------------
// The directory of artifacts
// ---------------------------------------------------------------------------

/// An entry of the directory of artifacts.
pub struct DirEntry {
    pub name: String,
    /// Whether there is a manifest in it.
    pub has_manifest: bool,
    /// What the file of the record holds, where it can be read.
    pub record: Option<String>,
}

/// The artifact at an entry, if there is one: hidden entries and those without a manifest
/// are none. What the record does not tell, the name of the entry stands for.
pub open spec fn artifact_at(apps_dir: Seq<char>, entry: DirEntry) -> Option<ArtifactView> {
    if text::begins(entry.name@, "."@) || !entry.has_manifest {
        None
    } else {
        match record_in(text::opt_view(entry.record)) {
            Some(r) => Some(
                ArtifactView {
                    id: r.id,
                    version: r.version,
                    path: path::below(apps_dir, entry.name@),
                },
            ),
            None => Some(
                ArtifactView {
                    id: entry.name@,
                    version: "unknown"@,
                    path: path::below(apps_dir, entry.name@),
                },
            ),
        }
    }
}

/// The artifacts at several entries, in their order.
pub open spec fn artifacts_at(apps_dir: Seq<char>, entries: Seq<DirEntry>) -> Seq<ArtifactView>
    decreases entries.len(),
{
    if entries.len() == 0 {
        Seq::empty()
    } else {
        match artifact_at(apps_dir, entries.last()) {
            Some(a) => artifacts_at(apps_dir, entries.drop_last()).push(a),
            None => artifacts_at(apps_dir, entries.drop_last()),
        }
    }
}

/// Whether an artifact is the one that is meant, with or without a version.
pub open spec fn is_meant(a: ArtifactView, id: Seq<char>) -> bool {
    a.id == id || id_path(a.id) == id_path(id)
}

/// The first artifact that is meant.
pub open spec fn meant(artifacts: Seq<ArtifactView>, id: Seq<char>) -> Option<ArtifactView>
    decreases artifacts.len(),
{
    if artifacts.len() == 0 {
        None
    } else if is_meant(artifacts[0], id) {
        Some(artifacts[0])
    } else {
        meant(artifacts.drop_first(), id)
    }
}

/// An artifact that may be missing.
pub open spec fn opt_artifact(artifact: Option<InstalledArtifact>) -> Option<ArtifactView> {
    match artifact {
        Some(a) => Some(a@),
        None => None,
    }
}

/// The first of the artifacts that is meant, with or without a version.
pub fn find_installed(artifacts: &Vec<InstalledArtifact>, id: &str) -> (found: Option<
    InstalledArtifact,
>)
    ensures
        opt_artifact(found) == meant(artifacts_view(artifacts@), id@),
{
    let want = name_of(id);
    let ghost all = artifacts_view(artifacts@);
    let mut i: usize = 0;
    assert(all.skip(0) =~= all);
    while i < artifacts.len()
        invariant
            i <= artifacts.len(),
            want@ == id_path(id@),
            all == artifacts_view(artifacts@),
            meant(all, id@) == meant(all.skip(i as int), id@),
        decreases artifacts.len() - i,
    {
        let a = &artifacts[i];
        assert(all.skip(i as int)[0] == a@);
        assert(all.skip(i as int).drop_first() =~= all.skip(i + 1));
        let name = name_of(a.id.as_str());
        if text::same_text(a.id.as_str(), id) || text::same_text(name.as_str(), want.as_str()) {
            return Some(a.copy());
        }
        i += 1;
    }
    None
}

/// Whatever its version, an artifact that is installed is found by its name.
pub proof fn lemma_found_by_name(
    artifacts: Seq<ArtifactView>,
    at: int,
    name: Seq<char>,
    version: Seq<char>,
)
    requires
        0 <= at < artifacts.len(),
        artifacts[at].id == versioned(name, version),
        !version.contains('@'),
        !name.contains('@'),
    ensures
        meant(artifacts, name) is Some,
        meant(artifacts, versioned(name, version)) is Some,
        id_path((meant(artifacts, name)->0).id) == name,
    decreases artifacts.len(),
{
    lemma_version_comes_off(name, version);
    text::lemma_before_last(name, '@', 0);
    assert(id_path(name) == name);
    if at > 0 {
        lemma_found_by_name(artifacts.drop_first(), at - 1, name, version);
    }
}

// ---------------------------------------------------------------------------
// The manager
// ---------------------------------------------------------------------------

/// Which version is asked for.
pub enum VersionSpec {
    Exact(String),
    Latest,
}

/// Where an artifact is.
pub struct ArtifactUri {
    pub registry: String,
    pub path: String,
    pub version: VersionSpec,
}

/// What such a place is.
#[verifier::ext_equal]
pub struct UriView {
    pub registry: Seq<char>,
    pub path: Seq<char>,
    /// The version, where it must be this one.
    pub version: Option<Seq<char>>,
}

impl View for ArtifactUri {
    type V = UriView;

    open spec fn view(&self) -> UriView {
        UriView {
            registry: self.registry@,
            path: self.path@,
            version: match self.version {
                VersionSpec::Exact(v) => Some(v@),
                VersionSpec::Latest => None,
            },
        }
    }
}

/// What is wrong with a version, if anything is.
pub uninterp spec fn version_fault(version: Seq<char>) -> Option<Seq<char>>;

/// `semver::Version::parse`: the words of the error where the text is no version, else
/// nothing. The text alone decides.
#[verifier::external_body]
fn check_version(version: &str) -> (fault: Option<String>)
    ensures
        text::opt_view(fault) == version_fault(version@),
{
    semver::Version::parse(version).err().map(|e| e.to_string())
}

/// The place of an artifact in a registry at this address, from what reading the address
/// and the version gave.
pub open spec fn uri_view(
    host: Result<Option<Seq<char>>, Seq<char>>,
    id: Seq<char>,
    version: Option<Seq<char>>,
    fault: Option<Seq<char>>,
) -> Result<UriView, PkgErrorView> {
    match host {
        Err(e) => Err(PkgErrorView::Registry("bad registry url: "@ + e)),
        Ok(None) => Err(PkgErrorView::Registry("registry url has no host"@)),
        Ok(Some(registry)) => match (version, fault) {
            (Some(v), Some(e)) => Err(PkgErrorView::BadId("bad version `"@ + v + "`: "@ + e)),
            _ => Ok(UriView { registry, path: id, version }),
        },
    }
}

/// The host in what reading an address gave.
pub open spec fn host_part(parts: Result<(Option<Seq<char>>, Option<u16>), Seq<char>>) -> Result<
    Option<Seq<char>>,
    Seq<char>,
> {
    match parts {
        Ok(p) => Ok(p.0),
        Err(e) => Err(e),
    }
}

/// What is wrong with a version that may be missing.
pub open spec fn opt_fault(version: Option<Seq<char>>) -> Option<Seq<char>> {
    match version {
        Some(v) => version_fault(v),
        None => None,
    }
}

/// A host that was read.
pub open spec fn host_result(host: Result<Option<String>, String>) -> Result<
    Option<Seq<char>>,
    Seq<char>,
> {
    match host {
        Ok(h) => Ok(text::opt_view(h)),
        Err(e) => Err(e@),
    }
}

/// A place or an error.
pub open spec fn uri_result(result: Result<ArtifactUri, PkgError>) -> Result<
    UriView,
    PkgErrorView,
> {
    match result {
        Ok(u) => Ok(u@),
        Err(e) => Err(e@),
    }
}

/// The place of an artifact, from what reading the registry's address and the version gave.
pub fn place_of(
    host: Result<Option<String>, String>,
    req: &InstallRequest,
    fault: Option<String>,
) -> (result: Result<ArtifactUri, PkgError>)
    ensures
        uri_result(result) == uri_view(
            host_result(host),
            req.id@,
            text::opt_view(req.version),
            text::opt_view(fault),
        ),
{
    let registry = match host {
        Err(e) => {
            return Err(
                PkgError::Registry("bad registry url: ".to_string().concat(e.as_str())),
            );
        },
        Ok(None) => {
            return Err(PkgError::Registry("registry url has no host".to_string()));
        },
        Ok(Some(h)) => h,
    };
    let version = match &req.version {
        Some(v) => {
            if let Some(e) = fault {
                let mut words = "bad version `".to_string();
                words.append(v.as_str());
                words.append("`: ");
                words.append(e.as_str());
                return Err(PkgError::BadId(words));
            }
            VersionSpec::Exact(v.clone())
        },
        None => VersionSpec::Latest,
    };
    Ok(ArtifactUri { registry, path: req.id.clone(), version })
}

/// Manages the artifacts below a directory.
pub struct ArtifactManager {
    pub apps_dir: String,
    pub registry_url: String,
    pub policy_path: String,
    /// The names of the keys whose signatures are trusted.
    pub trust: Vec<String>,
    pub node_id: Option<String>,
    pub bearer: Option<String>,
}

/// What a manager is.
#[verifier::ext_equal]
pub struct ManagerView {
    pub apps_dir: Seq<char>,
    pub registry_url: Seq<char>,
    pub policy_path: Seq<char>,
    pub trust: Seq<Seq<char>>,
    pub node_id: Option<Seq<char>>,
    pub bearer: Option<Seq<char>>,
}

impl View for ArtifactManager {
    type V = ManagerView;

    open spec fn view(&self) -> ManagerView {
        ManagerView {
            apps_dir: self.apps_dir@,
            registry_url: self.registry_url@,
            policy_path: self.policy_path@,
            trust: text::views(self.trust@),
            node_id: text::opt_view(self.node_id),
            bearer: text::opt_view(self.bearer),
        }
    }
}

/// What has to be done to remove an artifact.
pub struct Removal {
    /// What goes into the file of the ledger, where it changes.
    pub policy: Option<String>,
    /// The directory that goes.
    pub dir: String,
    pub id: String,
}

/// What such a removal is.
#[verifier::ext_equal]
pub struct RemovalView {
    /// The ledger, where it changes.
    pub policy: Option<PolicyView>,
    pub dir: Seq<char>,
    pub id: Seq<char>,
}

impl Removal {
    /// Whether the removal is this one: the file of the ledger loads as the ledger.
    pub open spec fn is(self, view: RemovalView) -> bool {
        &&& self.dir@ == view.dir
        &&& self.id@ == view.id
        &&& match (self.policy, view.policy) {
            (Some(content), Some(p)) => content@ == json::written_pretty(policy::policy_json(p))
                && policy::loaded(Some(content@)) == Ok::<PolicyView, policy::PolicyErrorView>(p),
            (None, None) => true,
            _ => false,
        }
    }
}

/// What has to be done to remove an artifact: its rights are revoked, and its directory goes.
pub open spec fn removal_view(
    artifacts: Seq<ArtifactView>,
    id: Seq<char>,
    policy: Option<Seq<char>>,
) -> Result<RemovalView, PkgErrorView> {
    match meant(artifacts, id) {
        None => Err(PkgErrorView::NotInstalled(id)),
        Some(a) => match policy::loaded(policy) {
            Err(e) => Err(PkgErrorView::Grant(e.message())),
            Ok(p) => Ok(
                RemovalView {
                    policy: if sorted_map::as_map(p.grants).dom().contains(a.id) {
                        Some(PolicyView { grants: sorted_map::without(p.grants, a.id), ..p })
                    } else {
                        None
                    },
                    dir: a.path,
                    id: a.id,
                },
            ),
        },
    }
}

impl ArtifactManager {
    /// A manager that trusts no key and reports to nobody.
    pub fn new(apps_dir: &str, registry_url: &str) -> (manager: Self)
        ensures
            manager@ == (ManagerView {
                apps_dir: apps_dir@,
                registry_url: registry_url@,
                policy_path: "/etc/kiki/policy.json"@,
                trust: Seq::empty(),
                node_id: None,
                bearer: None,
            }),
    {
        let manager = ArtifactManager {
            apps_dir: apps_dir.to_string(),
            registry_url: registry_url.to_string(),
            policy_path: "/etc/kiki/policy.json".to_string(),
            trust: Vec::new(),
            node_id: None,
            bearer: None,
        };
        assert(manager@.trust =~= Seq::<Seq<char>>::empty());
        manager
    }

    /// The manager that trusts these keys.
    pub fn with_trust(self, trust: Vec<String>) -> (manager: Self)
        ensures
            manager@ == (ManagerView { trust: text::views(trust@), ..self@ }),
    {
        ArtifactManager { trust, ..self }
    }

    /// The manager that keeps the ledger of rights in this file.
    pub fn with_policy_path(self, path: &str) -> (manager: Self)
        ensures
            manager@ == (ManagerView { policy_path: path@, ..self@ }),
    {
        ArtifactManager { policy_path: path.to_string(), ..self }
    }

    /// The manager that reports as this node.
    pub fn with_identity(self, node_id: &str, bearer: &str) -> (manager: Self)
        ensures
            manager@ == (ManagerView {
                node_id: Some(node_id@),
                bearer: Some(bearer@),
                ..self@
            }),
    {
        ArtifactManager {
            node_id: Some(node_id.to_string()),
            bearer: Some(bearer.to_string()),
            ..self
        }
    }

    /// An id without its version.
    pub fn id_path(&self, id: &str) -> (name: String)
        ensures
            name@ == id_path(id@),
    {
        name_of(id)
    }

    /// Where an artifact is.
    pub fn artifact_uri(&self, req: &InstallRequest) -> (result: Result<ArtifactUri, PkgError>)
        ensures
            uri_result(result) == uri_view(
                host_part(net::address(self@.registry_url)),
                req.id@,
                text::opt_view(req.version),
                opt_fault(text::opt_view(req.version)),
            ),
    {
        let host = match net::read_url(self.registry_url.as_str()) {
            Ok(parts) => Ok(parts.host),
            Err(e) => Err(e),
        };
        let fault = match &req.version {
            Some(v) => check_version(v.as_str()),
            None => None,
        };
        place_of(host, req, fault)
    }

    /// The artifacts at the entries of the directory, in their order.
    pub fn list(&self, entries: &Vec<DirEntry>) -> (artifacts: Vec<InstalledArtifact>)
        ensures
            artifacts_view(artifacts@) == artifacts_at(self@.apps_dir, entries@),
    {
        let mut artifacts: Vec<InstalledArtifact> = Vec::new();
        let mut i: usize = 0;
        assert(entries@.take(0) =~= Seq::<DirEntry>::empty());
        assert(artifacts_view(artifacts@) =~= Seq::<ArtifactView>::empty());
        while i < entries.len()
            invariant
                i <= entries.len(),
                artifacts_view(artifacts@) == artifacts_at(
                    self@.apps_dir,
                    entries@.take(i as int),
                ),
            decreases entries.len() - i,
        {
            assert(entries@.take(i + 1).drop_last() =~= entries@.take(i as int));
            let ghost before = artifacts@;
            let entry = &entries[i];
            if !text::starts_with(entry.name.as_str(), ".") && entry.has_manifest {
                let path = path::path_below(self.apps_dir.as_str(), entry.name.as_str());
                let artifact = match InstallRecord::read(&entry.record) {
                    Some(r) => InstalledArtifact { id: r.id, version: r.version, path },
                    None => InstalledArtifact {
                        id: entry.name.clone(),
                        version: "unknown".to_string(),
                        path,
                    },
                };
                artifacts.push(artifact);
                assert(artifacts_view(artifacts@) =~= artifacts_view(before).push(artifact@));
            }
            i += 1;
        }
        assert(entries@.take(i as int) =~= entries@);
        artifacts
    }

    /// What has to be done to remove an artifact, by what is installed and what the file of
    /// the ledger holds, where it can be read.
    pub fn remove(
        &self,
        artifacts: &Vec<InstalledArtifact>,
        id: &str,
        policy: Option<&str>,
    ) -> (result: Result<Removal, PkgError>)
        ensures
            match (
                result,
                removal_view(
                    artifacts_view(artifacts@),
                    id@,
                    match policy {
                        Some(c) => Some(c@),
                        None => None,
                    },
                ),
            ) {
                (Ok(r), Ok(v)) => r.is(v),
                (Err(e), Err(v)) => e@ == v,
                _ => false,
            },
    {
        let target = match find_installed(artifacts, id) {
            Some(a) => a,
            None => {
                return Err(PkgError::NotInstalled(id.to_string()));
            },
        };
        match NodePolicy::load(policy) {
            Err(e) => Err(PkgError::Grant(e.message())),
            Ok(mut ledger) => {
                let changed = if ledger.remove_artifact(target.id.as_str()) {
                    Some(ledger.save())
                } else {
                    None
                };
                Ok(Removal { policy: changed, dir: target.path, id: target.id })
            },
        }
    }
}

} // verus!
