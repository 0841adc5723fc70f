use kiki::json;
use kiki::memory::protocol::{
    EpisodeEvent, MemoryLayer, MemoryQuery, MemoryResult, MemoryWrite, Score, UserProfile,
};
use kiki::memory::store::{day_file_name, nonblank_lines, MemoryStore};

const DAY: u64 = 86_400_000;

fn ep(id: &str, kind: &str, summary: &str, ts_ms: u64, important: bool) -> EpisodeEvent {
    EpisodeEvent {
        id: id.into(),
        kind: kind.into(),
        session_id: "s1".into(),
        summary: summary.into(),
        outcome: "ok".into(),
        ts_ms,
        important,
    }
}

#[test]
fn episodes_persist_and_recent_filters_by_time() {
    let mut s = MemoryStore::empty();
    s.append_episode(&ep("e1", "session_done", "built the OS", 1_000, false));
    s.append_episode(&ep("e2", "tool_error", "network timeout", 90_000_000, false));

    let MemoryResult::Hits { hits } =
        s.query(MemoryQuery::Recent { since_ms: 50_000_000, layers: vec![] })
    else {
        panic!("expected hits");
    };
    assert_eq!(hits.len(), 1);
    assert_eq!(hits[0].id, "e2");
}

#[test]
fn search_ranks_and_scopes_layers() {
    let mut s = MemoryStore::empty();
    s.append_episode(&ep("e1", "tool_error", "network timeout on upload", 1_000, false));
    s.put_fact("f1", "network", "the user is on a flaky network", 2_000);
    s.put_procedural("p1", "retry uploads on network failure", 0.8f32.to_bits(), false, 3_000);

    let MemoryResult::Hits { hits } =
        s.query(MemoryQuery::Search { query: "network".into(), layers: vec![], limit: 10 })
    else {
        panic!("hits");
    };
    assert_eq!(hits.len(), 3, "all three layers match 'network'");

    let MemoryResult::Hits { hits } = s.query(MemoryQuery::Search {
        query: "network".into(),
        layers: vec![MemoryLayer::Episodic],
        limit: 10,
    }) else {
        panic!("hits");
    };
    assert_eq!(hits.len(), 1);
    assert_eq!(hits[0].layer, MemoryLayer::Episodic);
}

#[test]
fn corrections_are_high_priority_and_listed() {
    let mut s = MemoryStore::empty();
    s.write(MemoryWrite::UserCorrection {
        correction: "don't force push to main".into(),
        context: "git".into(),
        ts_ms: 5_000,
    });
    s.write(MemoryWrite::UserCorrection {
        correction: "prefer concise replies".into(),
        context: String::new(),
        ts_ms: 9_000,
    });

    let MemoryResult::Hits { hits } = s.query(MemoryQuery::Corrections { limit: 10 }) else {
        panic!("hits");
    };
    assert_eq!(hits.len(), 2);
    assert!(hits[0].content.contains("concise"));
    let score = match hits[0].score {
        Score::Full => 1.0,
        Score::Confidence(bits) => f32::from_bits(bits),
        Score::Share { .. } => panic!("a correction is not scored by its share"),
    };
    assert_eq!(score, 1.0, "corrections stored at full confidence");

    let MemoryResult::Hits { hits } = s.query(MemoryQuery::Search {
        query: "force push".into(),
        layers: vec![MemoryLayer::Procedural],
        limit: 5,
    }) else {
        panic!("hits");
    };
    assert_eq!(hits.len(), 1);
    assert!(hits[0].content.contains("force push"));
}

#[test]
fn profile_roundtrips_with_safe_privacy_defaults() {
    let mut s = MemoryStore::empty();
    let MemoryResult::Profile { profile } = s.query(MemoryQuery::UserProfile) else {
        panic!("profile");
    };
    assert!(!profile.privacy.sync_to_cloud);
    assert_eq!(profile.privacy.memory_retention_days, 90);

    let mut p = UserProfile { display_name: "Diana".into(), ..Default::default() };
    p.expertise.push("rust".into());
    s.write(MemoryWrite::Profile { profile: p.copy() });

    let MemoryResult::Profile { profile } = s.query(MemoryQuery::UserProfile) else {
        panic!("profile");
    };
    assert_eq!(profile.display_name, "Diana");
    assert_eq!(profile.expertise, vec!["rust".to_string()]);
}

#[test]
fn expire_drops_old_unimportant_keeps_important() {
    let mut s = MemoryStore::empty();
    let now = 100 * 86_400_000;
    s.append_episode(&ep("old", "x", "old event", 1 * 86_400_000, false));
    s.append_episode(&ep("milestone", "x", "kept", 1 * 86_400_000, true));
    s.append_episode(&ep("fresh", "x", "recent", 99 * 86_400_000, false));

    let expired = s.expire(90, now);
    assert_eq!(expired, 1, "only the old non-important event expires");

    let MemoryResult::Hits { hits } =
        s.query(MemoryQuery::Recent { since_ms: 0, layers: vec![MemoryLayer::Episodic] })
    else {
        panic!("hits");
    };
    let ids: Vec<&str> = hits.iter().map(|h| h.id.as_str()).collect();
    assert!(ids.contains(&"milestone"));
    assert!(ids.contains(&"fresh"));
    assert!(!ids.contains(&"old"));
}

#[test]
fn delete_removes_across_layers() {
    let mut s = MemoryStore::empty();
    s.append_episode(&ep("e1", "x", "an episode", 1_000, false));
    s.put_fact("f1", "topic", "a fact", 2_000);
    s.put_procedural("p1", "a recipe", 0.5f32.to_bits(), false, 3_000);

    assert!(s.delete("e1"));
    assert!(s.delete("f1"));
    assert!(s.delete("p1"));
    assert!(!s.delete("nope"));

    let MemoryResult::Hits { hits } = s.query(MemoryQuery::Recent { since_ms: 0, layers: vec![] })
    else {
        panic!("hits")
    };
    assert!(hits.is_empty(), "all entries deleted");
}

#[test]
fn clear_wipes_everything() {
    let mut s = MemoryStore::empty();
    s.append_episode(&ep("e1", "x", "y", 1_000, false));
    s.put_fact("f1", "t", "c", 2_000);
    s.clear();
    let MemoryResult::Hits { hits } = s.query(MemoryQuery::Recent { since_ms: 0, layers: vec![] })
    else {
        panic!("hits")
    };
    assert!(hits.is_empty());
}

#[test]
fn export_import_roundtrips() {
    let mut a = MemoryStore::empty();
    a.append_episode(&ep("e1", "x", "remember this", 1_000, true));
    a.put_fact("f1", "user", "likes rust", 2_000);
    a.write(MemoryWrite::UserCorrection {
        correction: "be concise".into(),
        context: String::new(),
        ts_ms: 3_000,
    });
    let mut p = UserProfile::default();
    p.display_name = "Diana".into();
    a.put_profile(&p);

    let snap = a.export_snapshot();
    let mut b = MemoryStore::empty();
    b.import_snapshot(&snap);

    let back = b.export_snapshot();
    assert_eq!(back.profile.display_name, snap.profile.display_name);
    assert_eq!(back.episodes.len(), snap.episodes.len());
    assert_eq!(back.episodes[0].line(), snap.episodes[0].line());
    assert_eq!(back.facts.len(), snap.facts.len());
    assert_eq!(back.facts[0].id, snap.facts[0].id);
    assert_eq!(back.facts[0].content, snap.facts[0].content);
    assert_eq!(back.facts[0].updated_ms, snap.facts[0].updated_ms);
    assert_eq!(back.procedural.len(), snap.procedural.len());
    assert_eq!(back.procedural[0].key, snap.procedural[0].key);
    assert_eq!(back.procedural[0].content, snap.procedural[0].content);
    assert_eq!(back.procedural[0].confidence, snap.procedural[0].confidence);
    assert_eq!(back.procedural[0].correction, snap.procedural[0].correction);
    b.import_snapshot(&snap);
    assert_eq!(b.export_snapshot().episodes.len(), 1);
}

#[test]
fn protocol_json_is_stable() {
    let q = MemoryQuery::Search {
        query: "x".into(),
        layers: vec![MemoryLayer::Procedural],
        limit: 3,
    };
    let v = q.to_json();
    assert_eq!(v.at("op").as_str(), Some("search"));
    assert_eq!(v.get_list("layers").unwrap()[0].as_str(), Some("procedural"));

    let w = MemoryWrite::UserCorrection { correction: "c".into(), context: "ctx".into(), ts_ms: 1 };
    assert_eq!(w.op_name(), "user_correction");

    let r = MemoryResult::Done;
    assert_eq!(r.kind_name(), "ok");
}

#[test]
fn queries_come_back_from_the_wire() {
    let q = MemoryQuery::Recent { since_ms: 9, layers: MemoryLayer::all() };
    let back = MemoryQuery::from_json(&json::parse(&q.to_json().to_text()).unwrap()).unwrap();
    assert!(matches!(back, MemoryQuery::Recent { since_ms: 9, layers } if layers.len() == 4));
    assert!(MemoryQuery::from_json(&json::parse(r#"{"op":"nonsense"}"#).unwrap()).is_none());
    assert!(matches!(
        MemoryQuery::from_json(&json::parse(r#"{"op":"user_profile"}"#).unwrap()),
        Some(MemoryQuery::UserProfile)
    ));
}

/// A query as it goes over the wire and comes out on the other side.
fn over_the_wire(q: MemoryQuery) -> MemoryQuery {
    MemoryQuery::from_json(&json::parse(&q.to_json().to_text()).unwrap()).unwrap()
}

#[test]
fn write_then_search_over_socket() {
    let mut s = MemoryStore::empty();
    let ack = s.write(MemoryWrite::Episode {
        event: EpisodeEvent {
            id: "e1".into(),
            kind: "session_done".into(),
            session_id: "s1".into(),
            summary: "compiled the kernel successfully".into(),
            outcome: "ok".into(),
            ts_ms: 1_000,
            important: false,
        },
    });
    assert!(matches!(ack, MemoryResult::Done));
    let asked = over_the_wire(MemoryQuery::Search {
        query: "kernel".into(),
        layers: vec![MemoryLayer::Episodic],
        limit: 5,
    });
    let hits = match s.query(asked) {
        MemoryResult::Hits { hits } => hits,
        _ => panic!("expected hits"),
    };
    assert_eq!(hits.len(), 1);
    assert_eq!(hits[0].id, "e1");
    assert!(hits[0].content.contains("kernel"));
}

#[test]
fn correction_write_and_profile_query_over_socket() {
    let mut s = MemoryStore::empty();
    s.write(MemoryWrite::UserCorrection {
        correction: "never force push to main".into(),
        context: "git".into(),
        ts_ms: 42,
    });
    let hits = match s.query(over_the_wire(MemoryQuery::Corrections { limit: 10 })) {
        MemoryResult::Hits { hits } => hits,
        _ => panic!("expected hits"),
    };
    assert_eq!(hits.len(), 1);
    assert!(hits[0].content.contains("force push"));
    let profile = match s.query(over_the_wire(MemoryQuery::UserProfile)) {
        MemoryResult::Profile { profile } => profile,
        _ => panic!("expected profile"),
    };
    assert!(!profile.privacy.sync_to_cloud);
}

#[test]
fn a_file_per_day() {
    assert_eq!(day_file_name(0), "day-0.jsonl");
    assert_eq!(day_file_name(3 * DAY + 5), "day-3.jsonl");
    assert_eq!(nonblank_lines("a\n\n  \nb\r\n"), vec!["a", "b"]);
    let line = ep("e\"1", "k", "s", 5, true).line();
    assert_eq!(
        line,
        r#"{"id":"e\"1","kind":"k","session_id":"s1","summary":"s","outcome":"ok","ts_ms":5,"important":true}"#
    );
}

#[test]
fn a_write_in_place_replaces() {
    let mut s = MemoryStore::empty();
    s.put_fact("f", "a", "one", 1);
    s.put_fact("f", "a", "two", 2);
    assert_eq!(s.load_facts().len(), 1);
    assert_eq!(s.load_facts()[0].content, "two");
    s.put_procedural("p", "c", 7.5f32.to_bits(), false, 0);
    assert_eq!(s.load_procedural()[0].confidence, 1.0f32.to_bits());
    s.put_procedural("p", "c", (-1.0f32).to_bits(), false, 0);
    assert_eq!(f32::from_bits(s.load_procedural()[0].confidence), 0.0);
}
