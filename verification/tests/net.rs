use kiki::net::{EgressBroker, EgressError, FetchRequest, HostPort, Outgoing};

fn req(url: &str) -> FetchRequest {
    FetchRequest { method: "GET".into(), url: url.into(), headers: vec![], body: None }
}

fn vetted(broker: &EgressBroker, app: &str, url: &str) -> Outgoing {
    match broker.vet(app, req(url)) {
        Ok(out) => out,
        Err(e) => panic!("{}", e.message()),
    }
}

fn refused(broker: &EgressBroker, app: &str, r: FetchRequest) -> EgressError {
    match broker.vet(app, r) {
        Ok(_) => panic!("the request passed"),
        Err(e) => e,
    }
}

#[test]
fn deny_by_default_and_allowlist() {
    let mut b = EgressBroker::new();
    b.allow("io.kiki.weather", vec![HostPort { host: "api.open-meteo.com".into(), port: 443 }]);

    assert!(b.check("io.kiki.weather", "api.open-meteo.com", 443).is_ok());
    assert!(b.check("io.kiki.weather", "evil.example", 443).is_err());
    assert!(b.check("io.kiki.unknown", "api.open-meteo.com", 443).is_err());
    assert!(b.check("io.kiki.weather", "api.open-meteo.com", 80).is_err());
}

#[test]
fn dynamic_egress_allows_any_host() {
    let mut b = EgressBroker::new();
    b.allow("io.kiki.web-fetch", vec![HostPort { host: "*".into(), port: 0 }]);
    assert!(b.check("io.kiki.web-fetch", "anything.example", 443).is_ok());
}

#[test]
fn hostport_parse() {
    let hp = HostPort::parse("api.open-meteo.com:443").unwrap();
    assert_eq!(hp.host, "api.open-meteo.com");
    assert_eq!(hp.port, 443);
    assert!(HostPort::parse("no-port").is_none());
}

#[test]
fn ports_are_read_in_full() {
    assert!(HostPort::parse("h:65536").is_none());
    assert!(HostPort::parse("h:").is_none());
    assert!(HostPort::parse("h:-1").is_none());
    assert_eq!(HostPort::parse("a:b:80").unwrap().host, "a:b");
    assert_eq!(HostPort::parse("h:+80").unwrap().port, 80);
}

#[test]
fn fetch_denied_when_host_not_allowed() {
    let broker = EgressBroker::new();
    let r = broker.vet("io.kiki.weather", req("https://evil.example/x"));
    assert!(matches!(r, Err(EgressError::Denied { .. })));
}

#[test]
fn fetch_allowed_host_injects_creds_and_audits() {
    let mut broker = EgressBroker::new();
    broker.allow("io.kiki.weather", vec![HostPort { host: "127.0.0.1".into(), port: 4000 }]);
    let out = vetted(&broker, "io.kiki.weather", "http://127.0.0.1:4000/weather");
    assert_eq!(out.host, "127.0.0.1");
    assert_eq!(out.port, 4000);
    let sent = out.with_credentials(vec![(
        "authorization".into(),
        "Bearer secret-not-seen-by-app".into(),
    )]);
    assert_eq!(
        sent.headers,
        vec![("authorization".to_string(), "Bearer secret-not-seen-by-app".to_string())]
    );
    let mut incoming = broker.incoming();
    assert!(incoming.push(&b"{\"te".to_vec()).is_ok());
    assert!(incoming.push(&b"mp\":21}".to_vec()).is_ok());
    let (resp, audit) = incoming.conclude(&out, 200, &vec![("a".into(), "b".into())], 99);
    assert_eq!(resp.status, 200);
    assert!(resp.body.contains("temp"));
    assert_eq!(resp.headers.len(), 1);
    assert_eq!(audit.app, "io.kiki.weather");
    assert_eq!(audit.status, 200);
    assert_eq!(audit.bytes, 11);
    assert_eq!(audit.ts_ms, 99);
    assert_eq!(resp.to_json().to_text(), r#"{"body":"{\"temp\":21}","headers":[["a","b"]],"status":200}"#);
}

#[test]
fn fetch_enforces_body_size_ceiling() {
    let mut broker = EgressBroker::new().with_max_body_bytes(1024);
    broker.allow("app", vec![HostPort { host: "127.0.0.1".into(), port: 80 }]);
    let mut incoming = broker.incoming();
    let r = incoming.push(&vec![b'x'; 10_000]);
    assert!(matches!(r, Err(EgressError::TooLarge { max: 1024 })));
    let mut incoming = broker.incoming();
    assert!(incoming.push(&vec![b'x'; 1024]).is_ok());
    assert!(incoming.push(&vec![b'x'; 1]).is_err());
}

#[test]
fn known_schemes_stand_for_their_ports() {
    let mut broker = EgressBroker::default();
    broker.allow("app", vec![HostPort { host: "api.x.com".into(), port: 443 }]);
    assert_eq!(vetted(&broker, "app", "https://api.x.com/a?b#c").port, 443);
    assert!(matches!(
        refused(&broker, "app", req("http://api.x.com/")),
        EgressError::Denied { port: 80, .. }
    ));
}

#[test]
fn what_is_no_address_or_method_is_refused() {
    let mut broker = EgressBroker::new();
    broker.allow("app", vec![HostPort { host: "*".into(), port: 0 }]);
    let e = refused(&broker, "app", req("not an address"));
    assert!(matches!(e, EgressError::BadUrl(_)));
    assert!(e.message().contains("relative URL without a base"), "{}", e.message());
    assert!(matches!(refused(&broker, "app", req("mailto:a@b.c")), EgressError::BadUrl(_)));
    let mut r = req("https://x/");
    r.method = "NO METHOD".into();
    let e = refused(&broker, "app", r);
    assert!(e.message().contains("invalid HTTP method"), "{}", e.message());
}

#[test]
fn refusals_in_words() {
    assert_eq!(
        EgressError::Denied { app: "a".into(), host: "h".into(), port: 1 }.message(),
        "egress denied for a: h:1 not in allowlist"
    );
}
