use kiki::agent::capability::{Capability, ManifestCapabilities};
use kiki::agent::policy::NodePolicy;
use kiki::memory::protocol::{MemoryHit, MemoryLayer, MemoryQuery, Score};
use kiki::pkg::artifact::{
    find_installed, sanitize_id, ArtifactManager, DirEntry, InstallRecord, InstallRequest,
    InstalledArtifact, VersionSpec,
};
use kiki::pkg::error::{PkgError, RegistryFault};
use kiki::pkg::install::{Install, InstallAction, InstallEvent, Resolution};
use kiki::pkg::kpkg::{
    confirm_clear, deletion_message, hit_line, inspect, parse_layer, trust_for,
};

#[test]
fn sanitizes_ids() {
    assert_eq!(sanitize_id("u1/notes@1.0.0"), "u1_notes_1.0.0");
    assert_eq!(sanitize_id("org/app@2.3.4-beta.1"), "org_app_2.3.4-beta.1");
}

#[test]
fn id_path_strips_version() {
    let mgr = ArtifactManager::new("/tmp/x", "https://r.test");
    assert_eq!(mgr.id_path("u1/notes@1.0.0"), "u1/notes");
    assert_eq!(mgr.id_path("u1/notes"), "u1/notes");
    assert_eq!(mgr.id_path("a@b@1"), "a@b");
}

fn manager() -> ArtifactManager {
    ArtifactManager::new("/apps", "https://r.test")
        .with_trust(vec!["k1".into()])
        .with_policy_path("/policy.json")
}

fn resolution(version: &str) -> Resolution {
    Resolution {
        version: version.into(),
        content_addr: "deadbeef".into(),
        capabilities: ManifestCapabilities {
            fs_read: vec!["/var/kiki/data".into()],
            fs_write: vec![],
            network: vec!["api.example.com:443".into()],
            programs: vec![],
            mcp_spawn: false,
            display: false,
            audio_in: false,
            vault_read: vec![],
        },
        fault: None,
        manifest: Ok("[artifact]\nname = \"notes\"\n".into()),
    }
}

fn begun(result: Result<(Install, kiki::pkg::artifact::ArtifactUri), PkgError>) -> Install {
    match result {
        Ok((install, _)) => install,
        Err(e) => panic!("{}", e.message()),
    }
}

fn request(id: &str) -> InstallRequest {
    InstallRequest { id: id.into(), version: None }
}

fn failure(action: InstallAction) -> String {
    match action {
        InstallAction::Fail(e) => e.message(),
        _ => panic!("the installation went on"),
    }
}

#[test]
fn checkout_validate_grant_list_remove() {
    let mgr = manager();
    let install = begun(mgr.install(&request("u1/notes")));
    let (install, action) = install.step(InstallEvent::Resolved(resolution("1.0.0")));
    match action {
        InstallAction::Download { content_addr, to } => {
            assert_eq!(content_addr, "deadbeef");
            assert_eq!(to, "/apps/.cache/deadbeef.kiki");
        }
        _ => panic!("download"),
    }
    let (install, action) = install.step(InstallEvent::Completed);
    match action {
        InstallAction::CheckOut { blob, staging, dir } => {
            assert_eq!(blob, "/apps/.cache/deadbeef.kiki");
            assert_eq!(staging, "/apps/.u1_notes_1.0.0.incoming");
            assert_eq!(dir, "/apps/u1_notes_1.0.0");
        }
        _ => panic!("checkout"),
    }
    let (install, action) = install.step(InstallEvent::Completed);
    match action {
        InstallAction::WriteManifest { file, content } => {
            assert_eq!(file, "/apps/u1_notes_1.0.0/kiki.toml");
            assert!(content.contains("notes"));
        }
        _ => panic!("manifest"),
    }
    let (install, action) = install.step(InstallEvent::Completed);
    assert!(matches!(action, InstallAction::ReadPolicy { file } if file == "/policy.json"));
    let (install, action) = install.step(InstallEvent::PolicyRead(None));
    let policy = match action {
        InstallAction::SavePolicy { file, content } => {
            assert_eq!(file, "/policy.json");
            content
        }
        _ => panic!("grant"),
    };
    let set = match NodePolicy::load(Some(&policy)) {
        Ok(p) => p.to_capability_set(),
        Err(e) => panic!("{}", e.message()),
    };
    assert!(set.contains(&Capability::NetworkOutbound));
    assert!(set.contains(&Capability::FsRead("/var/kiki/data".into())));
    let (install, action) = install.step(InstallEvent::Completed);
    let record = match action {
        InstallAction::WriteRecord { file, content } => {
            assert_eq!(file, "/apps/u1_notes_1.0.0/.kiki-install.json");
            content
        }
        _ => panic!("record"),
    };
    let (install, action) = install.step(InstallEvent::Completed);
    match action {
        InstallAction::Finish { artifact, stale, report } => {
            assert_eq!(artifact.id, "u1/notes@1.0.0");
            assert_eq!(artifact.version, "1.0.0");
            assert!(stale.is_none());
            assert!(report.is_none());
        }
        _ => panic!("finish"),
    }
    assert!(matches!(install.step(InstallEvent::Completed).1, InstallAction::Wait));

    let listed = mgr.list(&vec![
        DirEntry { name: ".cache".into(), has_manifest: true, record: None },
        DirEntry { name: "u1_notes_1.0.0".into(), has_manifest: true, record: Some(record) },
        DirEntry { name: "notes".into(), has_manifest: false, record: None },
    ]);
    assert_eq!(listed.len(), 1);
    assert_eq!(listed[0].id, "u1/notes@1.0.0");
    assert_eq!(listed[0].version, "1.0.0");
    assert_eq!(listed[0].path, "/apps/u1_notes_1.0.0");

    let removal = match mgr.remove(&listed, "u1/notes", Some(&policy)) {
        Ok(r) => r,
        Err(e) => panic!("{}", e.message()),
    };
    assert_eq!(removal.dir, "/apps/u1_notes_1.0.0");
    let left = match NodePolicy::load(removal.policy.as_deref()) {
        Ok(p) => p,
        Err(e) => panic!("{}", e.message()),
    };
    assert!(!left.to_capability_set().contains(&Capability::NetworkOutbound));
    assert!(mgr.list(&vec![]).is_empty());
}

/// Carries a checkout out on a listing of directories, each with the files in it.
fn check_out(apps: &mut std::collections::BTreeMap<String, Vec<&'static str>>) -> String {
    let install = begun(manager().install(&request("u1/notes")));
    let mut resolved = resolution("1.0.0");
    resolved.content_addr = "addr1".into();
    let (install, _) = install.step(InstallEvent::Resolved(resolved));
    match install.step(InstallEvent::Completed).1 {
        InstallAction::CheckOut { blob, staging, dir } => {
            assert_eq!(blob, "/apps/.cache/addr1.kiki");
            apps.remove(&staging);
            apps.insert(staging.clone(), vec!["run.sh"]);
            apps.remove(&dir);
            let files = apps.remove(&staging).unwrap();
            apps.insert(dir.clone(), files);
            dir
        }
        _ => panic!("checkout"),
    }
}

#[test]
fn checkout_is_idempotent_reinstall() {
    let mut apps = std::collections::BTreeMap::new();
    let dir1 = check_out(&mut apps);
    let dir2 = check_out(&mut apps);
    assert_eq!(dir1, dir2);
    assert_eq!(dir2, "/apps/u1_notes_1.0.0");
    assert_eq!(apps[&dir2], vec!["run.sh"]);
    assert!(!apps.contains_key("/apps/.u1_notes_1.0.0.incoming"));
    assert_eq!(apps.len(), 1);
}

#[test]
fn a_name_is_one_component_of_a_path() {
    assert_eq!(sanitize_id("."), "_");
    assert_eq!(sanitize_id(".."), "__");
    assert_eq!(sanitize_id("..."), "...");
    assert_eq!(sanitize_id("../x"), ".._x");
    assert_eq!(sanitize_id(&sanitize_id("a/b@1")), sanitize_id("a/b@1"));
}

#[test]
fn a_policy_that_cannot_be_read_is_not_written_over() {
    let install = begun(manager().install(&request("u1/notes")));
    let (install, _) = install.step(InstallEvent::Resolved(resolution("1.0.0")));
    let (install, _) = install.step(InstallEvent::Completed);
    let (install, _) = install.step(InstallEvent::Completed);
    let (install, action) = install.step(InstallEvent::Completed);
    assert!(matches!(action, InstallAction::ReadPolicy { .. }));
    let (_, action) = install.step(InstallEvent::IoFailed("denied".into()));
    assert!(failure(action).starts_with("capability grant denied: "));
}

#[test]
fn a_record_may_be_a_list() {
    let record = InstallRecord::read(&Some(r#"["a@1","1","x"]"#.into())).unwrap();
    assert_eq!((record.id.as_str(), record.version.as_str()), ("a@1", "1"));
    assert_eq!(record.content_addr, "x");
    assert!(InstallRecord::read(&Some(r#"["a@1","1"]"#.into())).is_none());
    assert!(InstallRecord::read(&Some(r#"["a@1","1","x","y"]"#.into())).is_none());
}

#[test]
fn nothing_is_installed_without_trust() {
    let mgr = ArtifactManager::new("/apps", "https://r.test");
    let e = match mgr.install(&request("a")) {
        Ok(_) => panic!("there is no trusted key"),
        Err(e) => e.message(),
    };
    assert!(e.starts_with("integrity/signature verification failed: empty trust root"), "{}", e);
}

#[test]
fn places_of_artifacts() {
    let uri = match manager()
        .artifact_uri(&InstallRequest { id: "a/b".into(), version: Some("1.2.3".into()) })
    {
        Ok(u) => u,
        Err(e) => panic!("{}", e.message()),
    };
    assert_eq!(uri.registry, "r.test");
    assert_eq!(uri.path, "a/b");
    assert!(matches!(uri.version, VersionSpec::Exact(v) if v == "1.2.3"));
    let bad = manager().artifact_uri(&InstallRequest { id: "a".into(), version: Some("x".into()) });
    let e = match bad {
        Ok(_) => panic!("no version"),
        Err(e) => e.message(),
    };
    assert!(e.starts_with("invalid artifact id: bad version `x`: unexpected character"), "{}", e);
    let nowhere = ArtifactManager::new("/a", "nowhere").artifact_uri(&request("a"));
    assert!(matches!(nowhere, Err(PkgError::Registry(w)) if w.starts_with("bad registry url: ")));
    let hostless = ArtifactManager::new("/a", "data:x").artifact_uri(&request("a"));
    assert!(matches!(hostless, Err(PkgError::Registry(w)) if w == "registry url has no host"));
}

#[test]
fn an_installation_fails_closed() {
    let start = || begun(manager().install(&request("u1/notes")));
    let refused = start().step(InstallEvent::Refused(RegistryFault::BadSignature("sig".into()))).1;
    assert_eq!(failure(refused), "integrity/signature verification failed: sig");
    let missing = start().step(InstallEvent::Refused(RegistryFault::NotFound("x".into()))).1;
    assert_eq!(failure(missing), "artifact not found in registry: x");

    let (install, _) = start().step(InstallEvent::Resolved(resolution("1.0.0")));
    let changed = install.step(InstallEvent::Refused(RegistryFault::HashMismatch("h".into()))).1;
    assert_eq!(failure(changed), "integrity/signature verification failed: h");

    let mut bad = resolution("1.0.0");
    bad.fault = Some("no name".into());
    let (install, _) = start().step(InstallEvent::Resolved(bad));
    let (install, _) = install.step(InstallEvent::Completed);
    assert_eq!(failure(install.step(InstallEvent::Completed).1), "manifest invalid: no name");

    let (install, _) = start().step(InstallEvent::Resolved(resolution("1.0.0")));
    let (install, _) = install.step(InstallEvent::Completed);
    assert_eq!(failure(install.step(InstallEvent::BadArchive("x".into())).1), "checkout failed: tar: x");

    let (install, _) = start().step(InstallEvent::Resolved(resolution("1.0.0")));
    let (install, _) = install.step(InstallEvent::Completed);
    let (install, _) = install.step(InstallEvent::Completed);
    let (install, _) = install.step(InstallEvent::Completed);
    let broken = install.step(InstallEvent::PolicyRead(Some("{".into()))).1;
    assert!(failure(broken).starts_with("capability grant denied: policy parse: "));
}

fn installed(version: &str) -> InstalledArtifact {
    InstalledArtifact {
        id: format!("u1/notes@{version}"),
        version: version.into(),
        path: format!("/apps/u1_notes_{version}"),
    }
}

#[test]
fn an_update_replaces_another_version_only() {
    let mgr = manager().with_identity("n1", "b1");
    let here = vec![installed("1.0.0")];
    assert!(matches!(mgr.update(&here, "u1/other"), Err(PkgError::NotInstalled(id)) if id == "u1/other"));

    let install = begun(mgr.update(&here, "u1/notes"));
    match install.step(InstallEvent::Resolved(resolution("1.0.0"))).1 {
        InstallAction::Finish { artifact, stale, report } => {
            assert_eq!(artifact.version, "1.0.0");
            assert!(stale.is_none() && report.is_none());
        }
        _ => panic!("it is up to date"),
    }

    let mut before = NodePolicy::default();
    before.set_artifact("u1/notes@1.0.0", vec![Capability::AudioInput]);
    before.set_artifact("u2/mail@1.0.0", vec![Capability::GpuCompute]);
    let install = begun(mgr.update(&here, "u1/notes@1.0.0"));
    let (install, _) = install.step(InstallEvent::Resolved(resolution("2.0.0")));
    let (install, _) = install.step(InstallEvent::Completed);
    let (install, _) = install.step(InstallEvent::Completed);
    let (install, _) = install.step(InstallEvent::Completed);
    let (install, action) = install.step(InstallEvent::PolicyRead(Some(before.save())));
    let after = match action {
        InstallAction::SavePolicy { content, .. } => match NodePolicy::load(Some(&content)) {
            Ok(p) => p.to_capability_set(),
            Err(e) => panic!("{}", e.message()),
        },
        _ => panic!("grant"),
    };
    assert!(!after.contains(&Capability::AudioInput));
    assert!(after.contains(&Capability::GpuCompute));
    assert!(after.contains(&Capability::NetworkOutbound));
    let (install, _) = install.step(InstallEvent::Completed);
    match install.step(InstallEvent::Completed).1 {
        InstallAction::Finish { artifact, stale, report } => {
            assert_eq!(artifact.id, "u1/notes@2.0.0");
            assert_eq!(stale.as_deref(), Some("/apps/u1_notes_1.0.0"));
            assert_eq!(report, Some(("n1".to_string(), "b1".to_string())));
        }
        _ => panic!("finish"),
    }
}

#[test]
fn artifacts_are_found_with_or_without_a_version() {
    let here = vec![installed("1.0.0")];
    assert!(find_installed(&here, "u1/notes").is_some());
    assert!(find_installed(&here, "u1/notes@9.9.9").is_some());
    assert!(find_installed(&here, "u1/note").is_none());
    let unknown = manager().list(&vec![DirEntry {
        name: "stray".into(),
        has_manifest: true,
        record: Some("broken".into()),
    }]);
    assert_eq!(unknown[0].id, "stray");
    assert_eq!(unknown[0].version, "unknown");
    assert!(manager().remove(&here, "nope", None).is_err());
}

#[test]
fn records_come_back() {
    let r = InstallRecord { id: "a@1".into(), version: "1".into(), content_addr: "c".into() };
    let back = InstallRecord::read(&Some(r.text())).unwrap();
    assert_eq!(back.id, "a@1");
    assert_eq!(back.content_addr, "c");
    assert!(InstallRecord::read(&None).is_none());
    assert!(InstallRecord::read(&Some(r#"{"id":"a"}"#.into())).is_none());
}

#[test]
fn errors_of_the_manager_in_words() {
    assert_eq!(PkgError::Io("x".into()).message(), "i/o: x");
    assert_eq!(PkgError::from_registry(RegistryFault::Other("x".into())).message(), "registry error: x");
}

// ── The command line ────────────────────────────────────────────────────────

#[test]
fn layers_are_named() {
    assert!(matches!(parse_layer("episodic"), Ok(MemoryLayer::Episodic)));
    assert_eq!(
        parse_layer("x").unwrap_err(),
        "unknown layer 'x' (episodic|semantic|procedural|identity)"
    );
}

#[test]
fn one_layer_or_all_are_inspected() {
    let all = inspect(None, None, 5).ok().unwrap();
    assert!(all.identity);
    assert!(matches!(all.query, Some(MemoryQuery::Recent { since_ms: 0, layers }) if layers.is_empty()));
    let identity = inspect(Some("identity"), None, 5).ok().unwrap();
    assert!(identity.identity && identity.query.is_none());
    let one = inspect(Some("semantic"), Some(1), 86_400_007).ok().unwrap();
    assert!(!one.identity);
    assert!(matches!(one.query, Some(MemoryQuery::Recent { since_ms: 7, layers })
        if layers == vec![MemoryLayer::Semantic]));
    let ages = inspect(Some("semantic"), Some(u64::MAX), 9).ok().unwrap();
    assert!(matches!(ages.query, Some(MemoryQuery::Recent { since_ms: 0, .. })));
    assert!(inspect(Some("x"), None, 5).is_err());
}

#[test]
fn memories_are_shown_on_one_line() {
    let hit = MemoryHit {
        layer: MemoryLayer::Semantic,
        id: "f1".into(),
        score: Score::Full,
        content: "a\nb".into(),
        ts_ms: 0,
    };
    assert_eq!(hit_line(&hit), "[Semantic] f1\ta b");
    assert_eq!(deletion_message("x", true), "deleted x");
    assert_eq!(deletion_message("x", false), "no entry with id x");
    assert!(confirm_clear(true).is_ok());
    assert_eq!(confirm_clear(false).unwrap_err(), "refusing to erase all memory without --yes");
}

#[test]
fn commands_that_only_read_need_no_trust() {
    assert_eq!(trust_for(true, Err("gone".into())).unwrap().len(), 0);
    assert_eq!(trust_for(false, Err("gone".into())).unwrap_err(), "gone");
    assert_eq!(trust_for(false, Ok(vec!["k".into()])).unwrap(), vec!["k"]);
}
