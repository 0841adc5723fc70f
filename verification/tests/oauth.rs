use kiki::config::crypto::MasterKey;
use kiki::json;
use kiki::oauth::flow::{
    read_grant, AccessStep, Consent, ConsentStep, DeviceAuth, OAuthFlow, ProviderConfig,
    TokenResponse, TokenSet,
};
use kiki::oauth::handle::{OAuthError, Provider, SecretHandle};
use kiki::oauth::injector::{token_headers, SecretsCredentialInjector};
use kiki::oauth::store::{MemorySecretStore, SealedFileSecretStore, SecretStore};

fn flow_with_token_url(url: &str) -> OAuthFlow<MemorySecretStore> {
    OAuthFlow::new(MemorySecretStore::new()).with_provider(
        Provider::Google,
        ProviderConfig {
            token_url: url.into(),
            device_authorization_url: None,
            client_id: "client-1".into(),
            client_secret: None,
            scopes: vec!["mail".into()],
        },
    )
}

#[test]
fn handle_roundtrips_provider() {
    let h = SecretHandle::new("io.kiki.mail", Provider::Google, "me@example.com");
    assert_eq!(h.0, "secrets://app/io.kiki.mail/google/me@example.com");
    assert!(matches!(h.provider(), Ok(Provider::Google)));
}

#[test]
fn what_is_no_handle_has_no_provider() {
    assert!(matches!(SecretHandle("nonsense".into()).provider(), Err(OAuthError::BadHandle(_))));
    assert!(SecretHandle("secrets://app/x/unknown/y".into()).provider().is_err());
    for p in [Provider::Google, Provider::Microsoft, Provider::GenericPkce, Provider::AppPassword] {
        assert_eq!(Provider::parse(p.as_str()).unwrap().as_str(), p.as_str());
    }
    assert!(Provider::parse("GOOGLE").is_none());
}

fn token(flow: &OAuthFlow<MemorySecretStore>, h: &SecretHandle, now_ms: u64) -> AccessStep {
    let tokens = match flow.load_tokens(h) {
        Ok(t) => t,
        Err(e) => panic!("{}", e.message()),
    };
    match flow.access_step(&tokens, h, now_ms) {
        Ok(s) => s,
        Err(e) => panic!("{}", e.message()),
    }
}

#[test]
fn access_token_returns_valid_without_refresh() {
    let mut flow = flow_with_token_url("http://unused");
    let h = SecretHandle::new("app", Provider::Google, "acct");
    let kept = TokenSet { access: "live".into(), refresh: Some("r".into()), expires_at_ms: u64::MAX };
    assert!(flow.store_tokens(&h, &kept).is_ok());
    assert!(matches!(token(&flow, &h, 1_000_000), AccessStep::Token(t) if t == "live"));
}

#[test]
fn access_token_refreshes_when_expired() {
    let mut flow = flow_with_token_url("http://127.0.0.1/token");
    let h = SecretHandle::new("app", Provider::Google, "acct");
    let kept = TokenSet { access: "stale".into(), refresh: Some("r1".into()), expires_at_ms: 0 };
    assert!(flow.store_tokens(&h, &kept).is_ok());
    let now = 1_000_000;
    let (form, refresh) = match token(&flow, &h, now) {
        AccessStep::Renew { form, refresh_token } => (form, refresh_token),
        AccessStep::Token(t) => panic!("{} is stale", t),
    };
    assert_eq!(form.url, "http://127.0.0.1/token");
    assert!(form.fields.contains(&("grant_type".into(), "refresh_token".into())));
    assert!(form.fields.contains(&("refresh_token".into(), "r1".into())));
    assert!(form.fields.contains(&("client_id".into(), "client-1".into())));
    let body = TokenResponse {
        access_token: "fresh".into(),
        expires_in: 3600,
        refresh_token: Some("r2".into()),
        error: None,
    };
    match flow.finish_renewal(&h, body, &refresh, now) {
        Ok(t) => assert_eq!(t, "fresh"),
        Err(e) => panic!("{}", e.message()),
    }
    assert!(matches!(token(&flow, &h, now), AccessStep::Token(t) if t == "fresh"));
    assert!(matches!(
        token(&flow, &h, now + 3_600_000),
        AccessStep::Renew { refresh_token, .. } if refresh_token == "r2"
    ));
}

#[test]
fn a_renewal_without_a_new_refresh_token_keeps_the_old_one() {
    let mut flow = flow_with_token_url("u");
    let h = SecretHandle::new("app", Provider::Google, "acct");
    let body = TokenResponse {
        access_token: "a".into(),
        expires_in: 60,
        refresh_token: None,
        error: None,
    };
    assert!(flow.finish_renewal(&h, body, "r1", 0).is_ok());
    match flow.load_tokens(&h) {
        Ok(t) => {
            assert_eq!(t.refresh.as_deref(), Some("r1"));
            assert_eq!(t.expires_at_ms, 60_000);
        }
        Err(e) => panic!("{}", e.message()),
    }
    assert!(flow.revoke(&h).is_ok());
    assert!(matches!(flow.load_tokens(&h), Err(OAuthError::NotFound(_))));
}

#[test]
fn an_expired_token_without_a_refresh_token_is_an_error() {
    let flow = flow_with_token_url("u");
    let h = SecretHandle::new("app", Provider::Google, "acct");
    let stale = TokenSet { access: "a".into(), refresh: None, expires_at_ms: 0 };
    assert!(matches!(flow.access_step(&stale, &h, 1), Err(OAuthError::Refresh(_))));
    let other = SecretHandle::new("app", Provider::Microsoft, "acct");
    let old = TokenSet { access: "a".into(), refresh: Some("r".into()), expires_at_ms: 0 };
    assert!(matches!(flow.access_step(&old, &other, 1), Err(OAuthError::Provider(_))));
    assert!(flow.device_request(Provider::Google).is_err());
    assert!(matches!(flow.token_request(Provider::Google, "dc"), Ok(f) if f.url == "u"));
}

#[test]
fn tokens_go_through_json() {
    let t = TokenSet { access: "a".into(), refresh: None, expires_at_ms: 5 };
    let list = TokenSet::from_json(&json::parse(r#"["a",null,7]"#).unwrap()).unwrap();
    assert_eq!((list.access.as_str(), list.refresh, list.expires_at_ms), ("a", None, 7));
    assert!(TokenSet::from_json(&json::parse(r#"["a",null]"#).unwrap()).is_none());
    let back = TokenSet::from_json(&json::parse(&t.to_json().to_text()).unwrap()).unwrap();
    assert_eq!(back.access, "a");
    assert!(back.refresh.is_none());
    assert_eq!(back.expires_at_ms, 5);
}

#[test]
fn injector_adds_bearer_only_for_mapped_app_host() {
    let mut flow = flow_with_token_url("http://unused");
    let h = SecretHandle::new("io.kiki.mail", Provider::Google, "me");
    let kept = TokenSet { access: "tok".into(), refresh: None, expires_at_ms: u64::MAX };
    assert!(flow.store_tokens(&h, &kept).is_ok());
    let mut inj = SecretsCredentialInjector::new();
    inj.map("io.kiki.mail", "imap.gmail.com", h);

    let found = inj.handle_for("io.kiki.mail", "imap.gmail.com").unwrap();
    let hdrs = match token(&flow, &found, 1) {
        AccessStep::Token(t) => token_headers(Some(&t)),
        AccessStep::Renew { .. } => panic!("the token is valid"),
    };
    assert_eq!(hdrs, vec![("authorization".to_string(), "Bearer tok".to_string())]);
    assert!(inj.handle_for("io.kiki.mail", "evil.example").is_none());
    assert!(inj.handle_for("io.kiki.other", "imap.gmail.com").is_none());
    assert!(token_headers(None).is_empty());
}

#[test]
fn consent_is_awaited_until_the_deadline() {
    let device = DeviceAuth {
        device_code: "dc".into(),
        user_code: "uc".into(),
        verification_uri: "v".into(),
        verification_uri_complete: None,
        interval: 5,
        expires_in: 10,
    };
    let consent = Consent::begin(&device, 1_000);
    assert!(matches!(consent.pause(1_000), ConsentStep::Wait { seconds: 5 }));
    assert!(matches!(
        consent.answer(Err(OAuthError::AuthorizationPending), 2_000),
        ConsentStep::Wait { .. }
    ));
    assert!(matches!(consent.pause(12_000), ConsentStep::Failed { .. }));
    let pending = TokenResponse {
        access_token: "".into(),
        expires_in: 0,
        refresh_token: None,
        error: Some("authorization_pending".into()),
    };
    assert!(matches!(read_grant(pending, 0), Err(OAuthError::AuthorizationPending)));
    let granted = TokenResponse {
        access_token: "a".into(),
        expires_in: 1,
        refresh_token: None,
        error: None,
    };
    let tokens = match read_grant(granted, 0) {
        Ok(t) => t,
        Err(e) => panic!("{}", e.message()),
    };
    assert!(matches!(consent.answer(Ok(tokens), 3_000), ConsentStep::Done { tokens } if tokens.access == "a"));
}

#[test]
fn secrets_are_kept_until_deleted() {
    let mut store = MemorySecretStore::default();
    assert!(store.put("k", &b"v".to_vec()).is_ok());
    assert!(matches!(store.get("k"), Ok(Some(v)) if v == b"v"));
    assert!(store.delete("k").is_ok());
    assert!(matches!(store.get("k"), Ok(None)));
    assert!(store.delete("k").is_ok());
}

#[test]
fn sealed_file_store_roundtrips_and_rejects_tamper() {
    let handle = "secrets://app/io.kiki.mail/google/me";
    let store = SealedFileSecretStore::new(MasterKey::from_bytes([7u8; 32]), "/var/secrets");
    assert_eq!(
        store.path(handle),
        "/var/secrets/secrets%3A%2F%2Fapp%2Fio.kiki.mail%2Fgoogle%2Fme.json"
    );
    assert_ne!(store.path("a/b"), store.path("a_b"));
    assert_ne!(store.path("me@x.org"), store.path("me_x.org"));
    let file = match store.seal(handle, &b"token-bytes".to_vec()) {
        Ok(f) => f,
        Err(e) => panic!("{}", e.message()),
    };
    let raw = file.into_bytes();
    assert!(matches!(store.open(handle, &raw), Ok(v) if v == b"token-bytes"));

    let other = SealedFileSecretStore::new(MasterKey::from_bytes([9u8; 32]), "/var/secrets");
    assert!(other.open(handle, &raw).is_err());
    assert!(store.open("secrets://app/other", &raw).is_err());
    assert!(store.open(handle, &vec![0xff]).is_err());
    assert!(store.open(handle, &b"{}".to_vec()).is_err());
}
