//! What installing, finding and removing artifacts promises.

use vstd::prelude::*;
use crate::agent::policy;
use crate::agent::policy::PolicyErrorView;
use crate::agent::policy::PolicyView;
use crate::daemon::laws;
use crate::json;
use crate::json::JsonView;
use crate::memory::protocol::HitView;
use crate::memory::protocol::MemoryLayer;
use crate::memory::wire::QueryView;
use crate::path;
use crate::pkg::artifact;
use crate::pkg::artifact::ArtifactManager;
use crate::pkg::artifact::ArtifactUri;
use crate::pkg::artifact::ArtifactView;
use crate::pkg::artifact::DirEntry;
use crate::pkg::artifact::InstallRequest;
use crate::pkg::artifact::InstalledArtifact;
use crate::pkg::artifact::ManagerView;
use crate::pkg::artifact::RecordView;
use crate::pkg::artifact::UriView;
use crate::pkg::error;
use crate::pkg::error::FaultView;
use crate::pkg::error::PkgError;
use crate::pkg::error::PkgErrorView;
use crate::pkg::install;
use crate::pkg::install::Install;
use crate::pkg::install::InstallActionView;
use crate::pkg::install::InstallEventView;
use crate::pkg::install::PhaseView;
use crate::pkg::install::PlanView;
use crate::pkg::install::ResolutionView;
use crate::pkg::kpkg;
use crate::sorted_map;
use crate::text;

verus! {

// ---------------------------------------------------------------------------
// What is on the device
// ---------------------------------------------------------------------------

/// The id of a version is the name, an at sign and the version; a name without an at sign is
/// the id without its version.
pub proof fn lemma_versioned(name: Seq<char>, version: Seq<char>)
    ensures
        artifact::versioned(name, version) == name + seq!['@'] + version,
        !name.contains('@') ==> artifact::id_path(name) == name,
        !version.contains('@') ==> artifact::id_path(name + seq!['@'] + version) == name,
{
    reveal_strlit("@");
    assert("@"@ =~= seq!['@']);
    text::lemma_before_last(name, '@', 0);
    if !version.contains('@') {
        artifact::lemma_version_comes_off(name, version);
    }
}

/// A record keeps the id, the version and the address of the content, each under its name, and
/// is read back from there, or from a list of the three. Without one of them there is none.
pub proof fn lemma_record_on_file(r: RecordView, m: Map<Seq<char>, JsonView>)
    ensures
        artifact::record_json(r) == JsonView::Object(
            map![
                "id"@ => JsonView::Text(r.id),
                "version"@ => JsonView::Text(r.version),
                "content_addr"@ => JsonView::Text(r.content_addr),
            ],
        ),
        artifact::record_of_json(artifact::record_json(r)) == Some(r),
        artifact::record_of_json(
            JsonView::Array(
                seq![JsonView::Text(r.id), JsonView::Text(r.version), JsonView::Text(r.content_addr)],
            ),
        ) == Some(r),
        artifact::record_of_json(JsonView::Object(m.remove("id"@))) is None,
        artifact::record_of_json(JsonView::Object(m.remove("version"@))) is None,
        artifact::record_of_json(JsonView::Object(m.remove("content_addr"@))) is None,
{
    reveal_strlit("id");
    reveal_strlit("version");
    reveal_strlit("content_addr");
    assert("id"@.len() == 2 && "version"@.len() == 7 && "content_addr"@.len() == 12);
    let items = seq![
        JsonView::Text(r.id),
        JsonView::Text(r.version),
        JsonView::Text(r.content_addr),
    ];
    reveal_with_fuel(json::placed, 4);
    assert(items.drop_last() =~= seq![JsonView::Text(r.id), JsonView::Text(r.version)]);
    assert(items.drop_last().drop_last() =~= seq![JsonView::Text(r.id)]);
    assert(items.drop_last().drop_last().drop_last() =~= Seq::<JsonView>::empty());
}

/// An entry of the directory is an artifact where it is not hidden and holds a manifest. Its
/// record tells its id and version; where there is none it goes by its name.
pub proof fn lemma_entry_is_artifact(apps_dir: Seq<char>, entry: DirEntry)
    requires
        entry.name@.len() > 0,
        entry.name@[0] != '/',
        apps_dir.len() > 0,
        apps_dir.last() != '/',
    ensures
        match artifact::artifact_at(apps_dir, entry) {
            None => entry.name@[0] == '.' || !entry.has_manifest,
            Some(a) => entry.name@[0] != '.' && entry.has_manifest && a.path == apps_dir + seq!['/']
                + entry.name@ && match artifact::record_in(text::opt_view(entry.record)) {
                Some(r) => a.id == r.id && a.version == r.version,
                None => a.id == entry.name@ && a.version == "unknown"@,
            },
        },
{
    reveal_strlit(".");
    path::lemma_below(apps_dir, entry.name@);
    assert(entry.name@.subrange(0, 1)[0] == entry.name@[0]);
    if entry.name@[0] == '.' {
        assert(entry.name@.subrange(0, 1) =~= "."@);
    }
}

/// The list of artifacts holds the one of each entry that is one, and nothing else.
pub proof fn lemma_all_listed(apps_dir: Seq<char>, entries: Seq<DirEntry>, a: ArtifactView)
    ensures
        artifact::artifacts_at(apps_dir, entries).contains(a) <==> exists|i: int|
            0 <= i < entries.len() && artifact::artifact_at(apps_dir, #[trigger] entries[i])
                == Some(a),
    decreases entries.len(),
{
    if entries.len() > 0 {
        let rest = entries.drop_last();
        lemma_all_listed(apps_dir, rest, a);
        let before = artifact::artifacts_at(apps_dir, rest);
        let all = artifact::artifacts_at(apps_dir, entries);
        if before.contains(a) {
            let k = before.index_of(a);
            assert(all[k] == a);
            let i = choose|i: int|
                0 <= i < rest.len() && artifact::artifact_at(apps_dir, #[trigger] rest[i]) == Some(
                    a,
                );
            assert(artifact::artifact_at(apps_dir, entries[i]) == Some(a));
        }
        if artifact::artifact_at(apps_dir, entries.last()) == Some(a) {
            assert(all[before.len() as int] == a);
            assert(artifact::artifact_at(apps_dir, entries[entries.len() - 1]) == Some(a));
        }
        if all.contains(a) {
            let k = all.index_of(a);
            if k < before.len() {
                assert(before[k] == a);
            }
        }
        if exists|i: int|
            0 <= i < entries.len() && artifact::artifact_at(apps_dir, #[trigger] entries[i])
                == Some(a) {
            let i = choose|i: int|
                0 <= i < entries.len() && artifact::artifact_at(apps_dir, #[trigger] entries[i])
                    == Some(a);
            if i < rest.len() {
                assert(artifact::artifact_at(apps_dir, rest[i]) == Some(a));
            }
        }
    }
}

/// The artifact that is found is one that is installed and has the id that was asked for, or
/// one that differs from it in the version only; where none is found, none is installed that
/// has.
pub proof fn lemma_found(artifacts: Seq<ArtifactView>, id: Seq<char>)
    ensures
        match artifact::meant(artifacts, id) {
            Some(a) => artifacts.contains(a) && (a.id == id || artifact::id_path(a.id)
                == artifact::id_path(id)),
            None => forall|i: int|
                0 <= i < artifacts.len() ==> (#[trigger] artifacts[i]).id != id
                    && artifact::id_path(artifacts[i].id) != artifact::id_path(id),
        },
    decreases artifacts.len(),
{
    if artifacts.len() > 0 {
        let rest = artifacts.drop_first();
        lemma_found(rest, id);
        match artifact::meant(rest, id) {
            Some(a) => {
                if rest.contains(a) {
                    let k = rest.index_of(a);
                    assert(artifacts[k + 1] == a);
                }
            },
            None => {
                assert forall|i: int| 0 <= i < artifacts.len() && !artifact::is_meant(
                    artifacts[0],
                    id,
                ) implies (#[trigger] artifacts[i]).id != id && artifact::id_path(artifacts[i].id)
                    != artifact::id_path(id) by {
                    if i > 0 {
                        assert(rest[i - 1] == artifacts[i]);
                    }
                }
            },
        }
    }
}

/// Removing an artifact drops the directory of the one that is meant and revokes its rights,
/// and those of no other. An artifact that is not installed cannot be removed.
pub proof fn lemma_removal(
    artifacts: Seq<ArtifactView>,
    id: Seq<char>,
    content: Option<Seq<char>>,
    other: Seq<char>,
)
    ensures
        match (artifact::meant(artifacts, id), policy::loaded(content)) {
            (None, _) => artifact::removal_view(artifacts, id, content) == Err::<
                artifact::RemovalView,
                PkgErrorView,
            >(PkgErrorView::NotInstalled(id)),
            (Some(a), Err(e)) => artifact::removal_view(artifacts, id, content) == Err::<
                artifact::RemovalView,
                PkgErrorView,
            >(PkgErrorView::Grant(e.message())),
            (Some(a), Ok(p)) => artifact::removal_view(artifacts, id, content) matches Ok(r)
                && r.dir == a.path && r.id == a.id && (sorted_map::ascending(p.grants)
                ==> match r.policy {
                None => !sorted_map::as_map(p.grants).dom().contains(a.id),
                Some(after) => after.granted == p.granted && sorted_map::as_map(after.grants)
                    == sorted_map::as_map(p.grants).remove(a.id),
            }),
        },
{
    if artifact::meant(artifacts, id) is Some && policy::loaded(content) is Ok {
        let p = policy::loaded(content)->Ok_0;
        if sorted_map::ascending(p.grants) {
            sorted_map::lemma_without(p.grants, (artifact::meant(artifacts, id)->0).id);
        }
    }
}

/// An artifact is at the host of the registry under its id, in the version that is asked for.
/// An address that cannot be read or has no host, and a version that is none, are refused.
pub proof fn lemma_place(
    host: Seq<char>,
    id: Seq<char>,
    version: Option<Seq<char>>,
    words: Seq<char>,
    v: Seq<char>,
)
    ensures
        artifact::uri_view(Ok(Some(host)), id, version, None) == Ok::<UriView, PkgErrorView>(
            UriView { registry: host, path: id, version },
        ),
        artifact::uri_view(Ok(Some(host)), id, Some(v), Some(words)) == Err::<
            UriView,
            PkgErrorView,
        >(PkgErrorView::BadId("bad version `"@ + v + "`: "@ + words)),
        artifact::uri_view(Ok(None), id, version, None) == Err::<UriView, PkgErrorView>(
            PkgErrorView::Registry("registry url has no host"@),
        ),
        artifact::uri_view(Err(words), id, version, None) == Err::<UriView, PkgErrorView>(
            PkgErrorView::Registry("bad registry url: "@ + words),
        ),
{
}

// ---------------------------------------------------------------------------
// The course of an installation
// ---------------------------------------------------------------------------

proof fn lemma_dirs(plan: PlanView, r: ResolutionView)
    requires
        plan.apps_dir.len() > 0,
        plan.apps_dir.last() != '/',
    ensures
        plan.dir(r) == plan.apps_dir + seq!['/'] + path::component(
            plan.id + seq!['@'] + r.version,
        ),
        plan.staging(r) == plan.apps_dir + "/."@ + path::component(
            plan.id + seq!['@'] + r.version,
        ) + ".incoming"@,
        plan.dir(r).len() > 0,
        plan.dir(r).last() != '/',
        plan.registry_id(r) == plan.id + seq!['@'] + r.version,
{
    lemma_versioned(plan.id, r.version);
    let id = plan.id + seq!['@'] + r.version;
    let c = path::component(id);
    path::lemma_component(id);
    assert(c[0] != '/' && c[c.len() - 1] != '/');
    path::lemma_below(plan.apps_dir, c);
    reveal_strlit(".");
    reveal_strlit("/.");
    reveal_strlit(".incoming");
    let hidden = "."@ + c + ".incoming"@;
    path::lemma_below(plan.apps_dir, hidden);
    assert(hidden[0] == '.');
    assert(plan.apps_dir + seq!['/'] + hidden =~= plan.apps_dir + "/."@ + c + ".incoming"@);
}

/// An artifact that the registry has is downloaded by the address of its content, and then
/// unpacked beside the directory of its version and put there.
pub proof fn lemma_downloaded_and_checked_out(plan: PlanView, r: ResolutionView)
    requires
        plan.apps_dir.len() > 0,
        plan.apps_dir.last() != '/',
        r.content_addr.len() > 0,
        r.content_addr[0] != '/',
        plan.current matches Some(c) ==> c.version != r.version,
    ensures
        ({
            let blob = plan.apps_dir + "/.cache/"@ + r.content_addr + ".kiki"@;
            let name = path::component(plan.id + seq!['@'] + r.version);
            &&& install::install_step(plan, PhaseView::Resolving, InstallEventView::Resolved(r)) == (
                PhaseView::Downloading(r),
                InstallActionView::Download { content_addr: r.content_addr, to: blob },
            )
            &&& install::install_step(plan, PhaseView::Downloading(r), InstallEventView::Completed)
                == (
                PhaseView::CheckingOut(r),
                InstallActionView::CheckOut {
                    blob,
                    staging: plan.apps_dir + "/."@ + name + ".incoming"@,
                    dir: plan.apps_dir + seq!['/'] + name,
                },
            )
        }),
{
    lemma_dirs(plan, r);
    reveal_strlit(".cache");
    reveal_strlit("/.cache/");
    reveal_strlit(".kiki");
    path::lemma_below(plan.apps_dir, ".cache"@);
    let cache = plan.apps_dir + seq!['/'] + ".cache"@;
    assert(".cache"@[0] == '.' && ".cache"@.last() == 'e');
    assert(cache.last() == 'e');
    let file = r.content_addr + ".kiki"@;
    path::lemma_below(cache, file);
    assert(file[0] == r.content_addr[0]);
    assert(cache + seq!['/'] + file =~= plan.apps_dir + "/.cache/"@ + r.content_addr + ".kiki"@);
}

/// Once it is checked out the signed manifest is written into its directory, as it was signed;
/// a manifest that is not valid ends the installation.
pub proof fn lemma_manifest_is_written(plan: PlanView, r: ResolutionView)
    requires
        plan.apps_dir.len() > 0,
        plan.apps_dir.last() != '/',
    ensures
        install::install_step(plan, PhaseView::CheckingOut(r), InstallEventView::Completed) == (
        match (r.fault, r.manifest) {
            (Some(e), _) => (PhaseView::Over, InstallActionView::Fail(PkgErrorView::Manifest(e))),
            (None, Err(e)) => (
                PhaseView::Over,
                InstallActionView::Fail(
                    PkgErrorView::Manifest("serialize kiki.toml: "@ + e),
                ),
            ),
            (None, Ok(content)) => (
                PhaseView::WritingManifest(r),
                InstallActionView::WriteManifest {
                    file: plan.apps_dir + seq!['/'] + path::component(
                        plan.id + seq!['@'] + r.version,
                    ) + "/kiki.toml"@,
                    content,
                },
            ),
        }),
{
    lemma_dirs(plan, r);
    reveal_strlit("kiki.toml");
    reveal_strlit("/kiki.toml");
    path::lemma_below(plan.dir(r), "kiki.toml"@);
    assert("kiki.toml"@[0] == 'k');
    assert(plan.dir(r) + seq!['/'] + "kiki.toml"@ =~= plan.dir(r) + "/kiki.toml"@);
}

/// The rights that the manifest declares go into the ledger under the id of the version, those
/// of what is replaced go out of it, and all else in it stays.
pub proof fn lemma_rights_are_recorded(
    plan: PlanView,
    r: ResolutionView,
    content: Option<Seq<char>>,
    p: PolicyView,
)
    requires
        policy::loaded(content) == Ok::<PolicyView, PolicyErrorView>(p),
        sorted_map::ascending(p.grants),
    ensures
        install::install_step(
            plan,
            PhaseView::WritingManifest(r),
            InstallEventView::Completed,
        ) == (
            PhaseView::ReadingPolicy(r),
            InstallActionView::ReadPolicy { file: plan.policy_path },
        ),
        ({
            let (next, action) = install::install_step(
                plan,
                PhaseView::ReadingPolicy(r),
                InstallEventView::PolicyRead(content),
            );
            &&& next == PhaseView::SavingPolicy(r)
            &&& action matches InstallActionView::SavePolicy { file, policy: after } && {
                &&& file == plan.policy_path
                &&& after.granted == p.granted
                &&& sorted_map::as_map(after.grants) == (match plan.current {
                    Some(old) => sorted_map::as_map(p.grants).remove(old.id),
                    None => sorted_map::as_map(p.grants),
                }).insert(plan.id + seq!['@'] + r.version, r.capabilities)
            }
        }),
{
    lemma_versioned(plan.id, r.version);
    match plan.current {
        Some(old) => {
            sorted_map::lemma_without(p.grants, old.id);
            sorted_map::lemma_put(
                sorted_map::without(p.grants, old.id),
                plan.registry_id(r),
                r.capabilities,
            );
        },
        None => {
            sorted_map::lemma_put(p.grants, plan.registry_id(r), r.capabilities);
        },
    }
}

/// A new installation leaves a record in its directory; it is then installed under the id of
/// its version. The directory that an update replaced goes, unless it is the same one, and the
/// installation is reported where the node has an identity.
pub proof fn lemma_recorded_and_finished(plan: PlanView, r: ResolutionView)
    requires
        plan.apps_dir.len() > 0,
        plan.apps_dir.last() != '/',
    ensures
        ({
            let id = plan.id + seq!['@'] + r.version;
            let dir = plan.apps_dir + seq!['/'] + path::component(id);
            &&& install::install_step(plan, PhaseView::SavingPolicy(r), InstallEventView::Completed)
                == (
                PhaseView::Recording(r),
                InstallActionView::WriteRecord {
                    file: dir + "/.kiki-install.json"@,
                    record: RecordView { id, version: r.version, content_addr: r.content_addr },
                },
            )
            &&& install::install_step(plan, PhaseView::Recording(r), InstallEventView::Completed)
                == (
                PhaseView::Over,
                InstallActionView::Finish {
                    artifact: ArtifactView { id, version: r.version, path: dir },
                    stale: match plan.current {
                        Some(old) => if old.path == dir {
                            None
                        } else {
                            Some(old.path)
                        },
                        None => None,
                    },
                    report: plan.identity,
                },
            )
        }),
{
    lemma_dirs(plan, r);
    reveal_strlit(".kiki-install.json");
    reveal_strlit("/.kiki-install.json");
    path::lemma_below(plan.dir(r), ".kiki-install.json"@);
    assert(".kiki-install.json"@[0] == '.');
    assert(plan.dir(r) + seq!['/'] + ".kiki-install.json"@ =~= plan.dir(r)
        + "/.kiki-install.json"@);
}

/// An installation that cannot go on tells why, and is over.
pub proof fn lemma_failures(plan: PlanView, r: ResolutionView, e: Seq<char>, f: FaultView)
    ensures
        ({
            let fails = |phase: PhaseView, event: InstallEventView, why: PkgErrorView|
                install::install_step(plan, phase, event) == (
                    PhaseView::Over,
                    InstallActionView::Fail(why),
                );
            let why = match f {
                FaultView::NotFound(id) => PkgErrorView::NotFound(id),
                FaultView::HashMismatch(w) | FaultView::BadSignature(w) | FaultView::UntrustedKey(
                    w,
                ) => PkgErrorView::Verify(w),
                FaultView::Other(w) => PkgErrorView::Registry(w),
            };
            let io = InstallEventView::IoFailed(e);
            &&& error::fault_error(f) == why
            &&& fails(PhaseView::Resolving, InstallEventView::Refused(f), why)
            &&& fails(PhaseView::Downloading(r), InstallEventView::Refused(f), why)
            &&& fails(PhaseView::Downloading(r), io, PkgErrorView::Io(e))
            &&& fails(PhaseView::CheckingOut(r), io, PkgErrorView::Io(e))
            &&& fails(
                PhaseView::CheckingOut(r),
                InstallEventView::BadCompression(e),
                PkgErrorView::Checkout("zstd: "@ + e),
            )
            &&& fails(
                PhaseView::CheckingOut(r),
                InstallEventView::BadArchive(e),
                PkgErrorView::Checkout("tar: "@ + e),
            )
            &&& fails(PhaseView::WritingManifest(r), io, PkgErrorView::Io(e))
            &&& fails(
                PhaseView::ReadingPolicy(r),
                io,
                PkgErrorView::Grant("policy i/o: "@ + e),
            )
            &&& fails(
                PhaseView::SavingPolicy(r),
                io,
                PkgErrorView::Grant("policy i/o: "@ + e),
            )
            &&& fails(PhaseView::Recording(r), io, PkgErrorView::Io(e))
        }),
{
}

/// An installation goes by the directory, the ledger and the identity of the manager; the
/// identity counts only where it is complete.
pub proof fn lemma_planned(m: ManagerView, id: Seq<char>, current: Option<ArtifactView>)
    ensures
        ({
            let plan = install::plan_for(m, id, current);
            &&& plan.apps_dir == m.apps_dir
            &&& plan.policy_path == m.policy_path
            &&& plan.id == id
            &&& plan.current == current
            &&& m.node_id is Some && m.bearer is Some ==> plan.identity == Some(
                (m.node_id->0, m.bearer->0),
            )
            &&& m.node_id is None || m.bearer is None ==> plan.identity is None
        }),
{
}

/// An error says what failed and then the words for it.
pub proof fn lemma_errors_in_words(e: Seq<char>)
    ensures
        PkgErrorView::NotFound(e).message() == "artifact not found in registry: "@ + e,
        PkgErrorView::Registry(e).message() == "registry error: "@ + e,
        PkgErrorView::Verify(e).message() == "integrity/signature verification failed: "@ + e,
        PkgErrorView::Manifest(e).message() == "manifest invalid: "@ + e,
        PkgErrorView::Grant(e).message() == "capability grant denied: "@ + e,
        PkgErrorView::Checkout(e).message() == "checkout failed: "@ + e,
        PkgErrorView::BadId(e).message() == "invalid artifact id: "@ + e,
        PkgErrorView::NotInstalled(e).message() == "artifact not installed: "@ + e,
        PkgErrorView::Io(e).message() == "i/o: "@ + e,
{
}

// ---------------------------------------------------------------------------
// The command line
// ---------------------------------------------------------------------------

/// A layer is named by its own word, and any other word is refused.
pub proof fn lemma_words_for_layers(word: Seq<char>)
    ensures
        kpkg::layer_named("episodic"@) == Ok::<MemoryLayer, Seq<char>>(MemoryLayer::Episodic),
        kpkg::layer_named("semantic"@) == Ok::<MemoryLayer, Seq<char>>(MemoryLayer::Semantic),
        kpkg::layer_named("procedural"@) == Ok::<MemoryLayer, Seq<char>>(MemoryLayer::Procedural),
        kpkg::layer_named("identity"@) == Ok::<MemoryLayer, Seq<char>>(MemoryLayer::Identity),
        word != "episodic"@ && word != "semantic"@ && word != "procedural"@ && word != "identity"@
            ==> kpkg::layer_named(word) == Err::<MemoryLayer, Seq<char>>(
            "unknown layer '"@ + word + "' (episodic|semantic|procedural|identity)"@,
        ),
{
    reveal_strlit("episodic");
    reveal_strlit("semantic");
    reveal_strlit("procedural");
    reveal_strlit("identity");
    assert("episodic"@[0] == 'e' && "semantic"@[0] == 's' && "procedural"@[0] == 'p'
        && "identity"@[0] == 'i');
}

/// What is shown reaches so many days of twenty-four hours back, and to the beginning where no
/// number is given or time does not reach back so far. Without a layer all is shown, the profile too; the profile alone has no
/// entries; another layer is shown alone.
pub proof fn lemma_what_is_shown(days: u64, now_ms: u64)
    ensures
        ({
            let since = if days * 86400000 <= now_ms {
                (now_ms - days * 86400000) as u64
            } else {
                0
            };
            &&& kpkg::inspection(None, Some(days), now_ms) matches Ok(i) && i.identity && i.query
                == Some(QueryView::Recent { since_ms: since, layers: Seq::empty() })
            &&& kpkg::inspection(None, None, now_ms) matches Ok(i) && i.identity && i.query == Some(
                QueryView::Recent { since_ms: 0, layers: Seq::empty() },
            )
            &&& kpkg::inspection(Some("identity"@), Some(days), now_ms) matches Ok(i) && i.identity
                && i.query is None
            &&& kpkg::inspection(Some("semantic"@), Some(days), now_ms) matches Ok(i) && !i.identity
                && i.query == Some(
                QueryView::Recent { since_ms: since, layers: seq![MemoryLayer::Semantic] },
            )
            &&& kpkg::inspection(Some("episodic"@), Some(days), now_ms) matches Ok(i) && !i.identity
                && i.query == Some(
                QueryView::Recent { since_ms: since, layers: seq![MemoryLayer::Episodic] },
            )
            &&& kpkg::inspection(Some("procedural"@), Some(days), now_ms) matches Ok(i)
                && !i.identity && i.query == Some(
                QueryView::Recent { since_ms: since, layers: seq![MemoryLayer::Procedural] },
            )
        }),
{
    lemma_words_for_layers(Seq::empty());
}

/// A memory is shown on one line: its layer, its id and its content, of which only the line
/// breaks are changed, into spaces.
pub proof fn lemma_shown_on_one_line(hit: HitView)
    ensures
        ({
            let head = "["@ + (match hit.layer {
                MemoryLayer::Episodic => "Episodic"@,
                MemoryLayer::Semantic => "Semantic"@,
                MemoryLayer::Procedural => "Procedural"@,
                MemoryLayer::Identity => "Identity"@,
            }) + "] "@ + hit.id + "\t"@;
            let line = kpkg::shown_line(hit);
            &&& line.len() == head.len() + hit.content.len()
            &&& line.take(head.len() as int) == head
            &&& forall|i: int|
                #![trigger hit.content[i]]
                0 <= i < hit.content.len() ==> line[head.len() + i] == (if hit.content[i] == '\n' {
                    ' '
                } else {
                    hit.content[i]
                })
        }),
{
    laws::lemma_on_one_line(hit.content);
    let head = "["@ + hit.layer.title() + "] "@ + hit.id + "\t"@;
    let line = kpkg::shown_line(hit);
    assert(line.take(head.len() as int) =~= head);
    let flat = crate::daemon::recall::flat(hit.content);
    assert forall|i: int| #![trigger hit.content[i]] 0 <= i < hit.content.len() implies line[head.len()
        + i] == (if hit.content[i] == '\n' {
        ' '
    } else {
        hit.content[i]
    }) by {
        assert(line[head.len() + i] == flat[i]);
    }
}

/// Nothing is installed or updated without a trusted key, and the refusal says so. What is to
/// be installed is looked for under its id, in the version that is asked for; what is to be
/// updated under its name, in the latest version, and only where it is installed.
pub proof fn lemma_begun(
    m: ArtifactManager,
    req: InstallRequest,
    artifacts: Vec<InstalledArtifact>,
    id: &str,
    install: Result<(Install, ArtifactUri), PkgError>,
    update: Result<(Install, ArtifactUri), PkgError>,
)
    requires
        call_ensures(ArtifactManager::install, (&m, &req), install),
        call_ensures(ArtifactManager::update, (&m, &artifacts, id), update),
    ensures
        m@.trust.len() == 0 ==> (install matches Err(e) && e@ == PkgErrorView::Verify(
            "empty trust root — cannot verify artifact signatures (configure /etc/kiki/trust)"@,
        )),
        install matches Ok((i, uri)) ==> i.phase@ is Resolving && i.plan@.id == req.id@
            && i.plan@.current is None && i.plan@.apps_dir == m@.apps_dir && uri@.path == req.id@
            && uri@.version == text::opt_view(req.version),
        artifact::meant(artifact::artifacts_view(artifacts@), id@) is None ==> (
        update matches Err(e) && e@ == PkgErrorView::NotInstalled(id@)),
        update matches Ok((i, uri)) ==> m@.trust.len() > 0 && i.phase@ is Resolving && i.plan@.id
            == artifact::id_path(id@) && i.plan@.current == artifact::meant(
            artifact::artifacts_view(artifacts@),
            id@,
        ) && uri@.path == artifact::id_path(id@) && uri@.version is None,
{
}

/// A new manager keeps the ledger of rights in its usual place, trusts no key and reports to
/// nobody; each setting changes what it is for and nothing else.
pub proof fn lemma_manager(
    dir: &str,
    url: &str,
    path: &str,
    bearer: &str,
    keys: Vec<String>,
    fresh: ArtifactManager,
    trusting: ArtifactManager,
    elsewhere: ArtifactManager,
    known: ArtifactManager,
)
    requires
        call_ensures(ArtifactManager::new, (dir, url), fresh),
        call_ensures(ArtifactManager::with_trust, (fresh, keys), trusting),
        call_ensures(ArtifactManager::with_policy_path, (fresh, path), elsewhere),
        call_ensures(ArtifactManager::with_identity, (fresh, path, bearer), known),
    ensures
        fresh@.apps_dir == dir@ && fresh@.registry_url == url@,
        fresh@.policy_path == "/etc/kiki/policy.json"@,
        fresh@.trust.len() == 0 && fresh@.node_id is None && fresh@.bearer is None,
        trusting@ == (ManagerView { trust: text::views(keys@), ..fresh@ }),
        elsewhere@ == (ManagerView { policy_path: path@, ..fresh@ }),
        known@ == (ManagerView { node_id: Some(path@), bearer: Some(bearer@), ..fresh@ }),
{
}

/// Erasing all memory has to be confirmed; keys that cannot be read stop what needs them and
/// only that; and a deletion says whether there was anything to delete.
pub proof fn lemma_commands(
    yes: bool,
    read_only: bool,
    keys: Result<Vec<String>, String>,
    id: &str,
    removed: bool,
    cleared: Result<(), String>,
    trust: Result<Vec<String>, String>,
    words: String,
)
    requires
        call_ensures(kpkg::confirm_clear, (yes,), cleared),
        call_ensures(kpkg::trust_for, (read_only, keys), trust),
        call_ensures(kpkg::deletion_message, (id, removed), words),
    ensures
        cleared is Ok <==> yes,
        keys matches Ok(k) ==> (trust matches Ok(t) && t@ == k@),
        keys is Err && read_only ==> (trust matches Ok(t) && t@.len() == 0),
        keys matches Err(e) ==> (!read_only ==> (trust matches Err(f) && f@ == e@)),
        removed ==> words@ == "deleted "@ + id@,
        !removed ==> words@ == "no entry with id "@ + id@,
{
}

/// What is listed of the directory and then looked for is found where an entry has its id.
pub proof fn lemma_listed_is_found(
    m: ArtifactManager,
    entries: Vec<DirEntry>,
    artifacts: Vec<InstalledArtifact>,
    id: &str,
    found: Option<InstalledArtifact>,
    at: int,
)
    requires
        call_ensures(ArtifactManager::list, (&m, &entries), artifacts),
        call_ensures(artifact::find_installed, (&artifacts, id), found),
        0 <= at < entries@.len(),
    ensures
        artifact::artifact_at(m@.apps_dir, entries@[at]) matches Some(a) ==> (a.id == id@
            ==> found is Some),
        found matches Some(f) ==> exists|i: int|
            0 <= i < entries@.len() && artifact::artifact_at(
                m@.apps_dir,
                #[trigger] entries@[i],
            ) == Some(f@),
{
    let all = artifact::artifacts_view(artifacts@);
    lemma_found(all, id@);
    if let Some(a) = artifact::artifact_at(m@.apps_dir, entries@[at]) {
        lemma_all_listed(m@.apps_dir, entries@, a);
        assert(all.contains(a));
        let k = all.index_of(a);
        assert(all[k].id == a.id);
    }
    if found is Some {
        lemma_all_listed(m@.apps_dir, entries@, (found->0)@);
    }
}

} // verus!
