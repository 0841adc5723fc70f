use base64::Engine;
use kiki::config::crypto::{
    derive_master_key, keys_equal, open_secret, seal_secret, seal_with_nonce, CryptoError,
    KdfParams, MasterKey, Sealed, KEY_LEN,
};
use kiki::config::keystore::{key_of_buffer, Keychain, Keystore, KeystoreError};
use kiki::config::recovery::{
    generate_recovery_code, recover_master_key, RecoveryCode, RecoveryError,
};
use kiki::config::scope::{Revision, Scope};
use kiki::config::sync::{
    delete_outcome, if_match, kdf_outcome, list_outcome, secret_body, url_escape, write_body,
    write_outcome, ConfigEndpoint, SyncError,
};
use kiki::json;

fn b64(bytes: &[u8]) -> String {
    base64::engine::general_purpose::STANDARD.encode(bytes)
}

fn unb64(text: &str) -> Vec<u8> {
    base64::engine::general_purpose::STANDARD.decode(text).unwrap()
}

fn test_params() -> KdfParams {
    KdfParams { salt_b64: b64(b"0123456789ABCDEF"), m_cost_kib: 8, t_cost: 1, parallelism: 1 }
}

fn derived(password: &str) -> MasterKey {
    match derive_master_key(password, &test_params()) {
        Ok(k) => k,
        Err(e) => panic!("{}", e.message()),
    }
}

fn sealed(key: &MasterKey, scope: &str, id: &str, plain: &[u8]) -> Sealed {
    match seal_secret(key, scope, id, &plain.to_vec()) {
        Ok(s) => s,
        Err(e) => panic!("{}", e.message()),
    }
}

fn opened(key: &MasterKey, scope: &str, id: &str, s: &Sealed) -> Result<Vec<u8>, String> {
    open_secret(key, scope, id, s).map_err(|e| e.message())
}

#[test]
fn roundtrip() {
    let key = derived("correct horse battery staple");
    let pt = b"the password is hunter2";
    let sealed = sealed(&key, "secrets", "openai.api_key", pt);
    let out = opened(&key, "secrets", "openai.api_key", &sealed).unwrap();
    assert_eq!(out, pt);
}

#[test]
fn wrong_key_fails() {
    let k1 = derived("alpha");
    let k2 = derived("beta");
    let sealed = sealed(&k1, "secrets", "key", b"data");
    assert!(opened(&k2, "secrets", "key", &sealed).is_err());
}

#[test]
fn tampered_ciphertext_fails() {
    let k = derived("alpha");
    let mut sealed = sealed(&k, "secrets", "key", b"data");
    let mut ct = unb64(&sealed.ciphertext_b64);
    ct[0] ^= 0x01;
    sealed.ciphertext_b64 = b64(&ct);
    assert!(opened(&k, "secrets", "key", &sealed).is_err());
}

#[test]
fn wrong_scope_fails() {
    let k = derived("alpha");
    let sealed = sealed(&k, "secrets", "k", b"data");
    assert!(opened(&k, "preferences", "k", &sealed).is_err());
}

#[test]
fn wrong_key_id_fails() {
    let k = derived("alpha");
    let sealed = sealed(&k, "secrets", "openai.api_key", b"data");
    assert!(opened(&k, "secrets", "anthropic.api_key", &sealed).is_err());
}

#[test]
fn nonces_are_unique_per_seal() {
    let k = derived("alpha");
    let a = sealed(&k, "secrets", "k", b"x");
    let b = sealed(&k, "secrets", "k", b"x");
    assert_ne!(a.nonce_b64, b.nonce_b64);
    assert_ne!(a.ciphertext_b64, b.ciphertext_b64);
}

#[test]
fn keys_equal_constant_time() {
    let k1 = derived("p");
    let k2 = derived("p");
    let k3 = derived("q");
    assert!(keys_equal(&k1, &k2));
    assert!(!keys_equal(&k1, &k3));
}

#[test]
fn master_key_wipes_on_drop() {
    let mut k = derived("p");
    k.wipe();
    assert_eq!(k.as_bytes(), &[0u8; KEY_LEN]);
}

#[test]
fn a_nonce_decides_the_ciphertext() {
    let k = MasterKey::from_bytes([1; 32]);
    let seal = |nonce: u8| match seal_with_nonce(&k, "s", "i", &b"x".to_vec(), &[nonce; 24]) {
        Ok(s) => s,
        Err(e) => panic!("{}", e.message()),
    };
    assert_eq!(seal(1).ciphertext_b64, seal(1).ciphertext_b64);
    assert_ne!(seal(1).ciphertext_b64, seal(2).ciphertext_b64);
    assert_eq!(unb64(&seal(2).nonce_b64), vec![2u8; 24]);
    assert_eq!(unb64(&seal(2).ciphertext_b64).len(), 17);
}

#[test]
fn a_sealed_secret_goes_through_json() {
    let k = derived("p");
    let s = sealed(&k, "a", "b", b"c");
    let v = json::parse(&s.to_json().to_text()).unwrap();
    let back = Sealed::from_json(&v).unwrap();
    assert_eq!(opened(&k, "a", "b", &back).unwrap(), b"c");
    assert!(Sealed::from_json(&json::parse("{}").unwrap()).is_none());
    let list = Sealed::from_json(&json::parse(r#"["c","n"]"#).unwrap()).unwrap();
    assert_eq!((list.ciphertext_b64.as_str(), list.nonce_b64.as_str()), ("c", "n"));
    assert!(Sealed::from_json(&json::parse(r#"["c","n","x"]"#).unwrap()).is_none());
}

#[test]
fn bad_inputs_to_the_cipher() {
    let k = derived("p");
    let mut s = sealed(&k, "a", "b", b"c");
    s.nonce_b64 = b64(b"short");
    assert!(matches!(open_secret(&k, "a", "b", &s), Err(CryptoError::BadNonce)));
    s.nonce_b64 = "???".into();
    assert!(matches!(open_secret(&k, "a", "b", &s), Err(CryptoError::Base64(_))));
    let mut params = test_params();
    params.m_cost_kib = 0;
    assert!(matches!(derive_master_key("p", &params), Err(CryptoError::Kdf(_))));
    params = test_params();
    params.salt_b64 = "???".into();
    assert!(matches!(derive_master_key("p", &params), Err(CryptoError::Base64(_))));
}

#[test]
fn parameters_have_fresh_salts() {
    let a = KdfParams::default_desktop();
    let b = KdfParams::default_desktop();
    assert_ne!(a.salt_b64, b.salt_b64);
    assert_eq!(unb64(&a.salt_b64).len(), 16);
    let s = KdfParams::sensor_class();
    assert!(s.m_cost_kib < a.m_cost_kib);
    assert_eq!(KdfParams::desktop_with(&[0; 16]).salt_b64, "AAAAAAAAAAAAAAAAAAAAAA==");
}

#[test]
fn memory_roundtrip() {
    let mut ks = Keystore::memory();
    let k = derived("pw");
    assert!(ks.put("user-1", &k).is_ok());
    let k2 = match ks.get("user-1") {
        Ok(k) => k,
        Err(e) => panic!("{}", e.message()),
    };
    assert_eq!(k.as_bytes(), k2.as_bytes());
    assert!(ks.forget("user-1").is_ok());
    assert!(matches!(ks.get("user-1"), Err(KeystoreError::NotFound(_))));
}

#[test]
fn keys_of_the_wrong_length_are_refused() {
    assert!(key_of_buffer(vec![3; 32]).is_ok());
    assert!(key_of_buffer(vec![3; 31]).is_err());
}

#[test]
fn the_platform_falls_back_to_memory() {
    let mut ks = Keystore::platform();
    assert!(ks.put("a", &MasterKey::from_bytes([5; 32])).is_ok());
    assert!(matches!(ks.get("a"), Ok(k) if k.as_bytes() == &[5; 32]));
    assert!(matches!(Keystore::Secret.get("a"), Err(KeystoreError::Unavailable)));
}

#[test]
fn a_keychain_that_has_no_entry() {
    assert!(Keychain::put(Ok(())).is_ok());
    let e = Keychain::put(Err((-1, "locked".into())));
    assert!(matches!(e, Err(KeystoreError::Backend(w)) if w == "locked"));
    assert!(matches!(Keychain::get("a", Ok(vec![1; 32])), Ok(k) if k.as_bytes() == &[1; 32]));
    let e = Keychain::get("a", Ok(vec![1; 3]));
    assert!(matches!(e, Err(KeystoreError::Backend(w)) if w == "bad key length"));
    let e = Keychain::get("a", Err((-25300, "none".into())));
    assert!(matches!(e, Err(KeystoreError::NotFound(a)) if a == "a"));
    let e = Keychain::get("a", Err((-1, "locked".into())));
    assert!(matches!(e, Err(KeystoreError::Backend(_))));
    assert!(Keychain::forget(Err((-25300, "none".into()))).is_ok());
    assert!(Keychain::forget(Err((-1, "locked".into()))).is_err());
}

#[test]
fn too_many_lanes_are_refused() {
    for lanes in [0x0100_0000, 0x2000_0000, u32::MAX] {
        let params = KdfParams {
            salt_b64: "AAAAAAAAAAAAAAAAAAAAAA==".into(),
            m_cost_kib: 8,
            t_cost: 1,
            parallelism: lanes,
        };
        assert!(matches!(derive_master_key("pw", &params), Err(CryptoError::Kdf(_))));
    }
}

#[test]
fn recovery_code_roundtrip() {
    let code = match RecoveryCode::generate() {
        Ok(c) => c,
        Err(e) => panic!("{}", e.message()),
    };
    let phrase = code.phrase();
    let parsed = match RecoveryCode::parse(&phrase) {
        Ok(c) => c,
        Err(e) => panic!("{}", e.message()),
    };
    assert_eq!(code.phrase(), parsed.phrase());
    assert_eq!(phrase.split_whitespace().count(), 24);
}

fn new_code() -> RecoveryCode {
    match generate_recovery_code() {
        Ok(c) => c,
        Err(e) => panic!("{}", e.message()),
    }
}

fn recovered(code: &RecoveryCode) -> MasterKey {
    match recover_master_key(code, &test_params()) {
        Ok(k) => k,
        Err(e) => panic!("{}", e.message()),
    }
}

#[test]
fn recovered_key_decrypts_blobs_sealed_by_same_code() {
    let code = new_code();
    let k1 = recovered(&code);
    let sealed = sealed(&k1, "secrets", "k", b"data");
    let code2 = match RecoveryCode::parse(&code.phrase()) {
        Ok(c) => c,
        Err(e) => panic!("{}", e.message()),
    };
    let k2 = recovered(&code2);
    let pt = opened(&k2, "secrets", "k", &sealed).unwrap();
    assert_eq!(pt, b"data");
}

#[test]
fn different_codes_produce_different_keys() {
    let c1 = new_code();
    let c2 = new_code();
    let k1 = recovered(&c1);
    let k2 = recovered(&c2);
    assert_ne!(k1.as_bytes(), k2.as_bytes());
}

/// A phrase whose last word is among the first 256 of the list. The last word holds three
/// bits of the entropy and then the checksum, so that every other word of those 256 stands
/// for the same entropy with another checksum.
fn phrase_with_an_early_last_word() -> String {
    loop {
        let phrase = new_code().phrase();
        let last = phrase.split_whitespace().last().unwrap();
        if bip39::Language::English.find_word(last).unwrap() < 256 {
            return phrase;
        }
    }
}

#[test]
fn rejects_invalid_checksum() {
    let phrase = phrase_with_an_early_last_word();
    let mut words: Vec<&str> = phrase.split_whitespace().collect();
    let new_last = if words[23] == "abandon" { "ability" } else { "abandon" };
    words[23] = new_last;
    let tampered = words.join(" ");
    assert!(RecoveryCode::parse(&tampered).is_err());
}

#[test]
fn one_last_word_holds_the_checksum() {
    let first = "abandon ".repeat(23);
    let phrase = format!("{first}art");
    assert!(matches!(RecoveryCode::parse(&phrase), Ok(c) if c.phrase() == phrase));
    for last in ["abandon", "ability", "zoo"] {
        let e = RecoveryCode::parse(&format!("{first}{last}"));
        assert!(matches!(e, Err(RecoveryError::Bip39(_))));
    }
}

#[test]
fn a_recovery_code_has_all_its_words() {
    let short =
        "abandon abandon abandon abandon abandon abandon abandon abandon abandon abandon abandon about";
    assert!(matches!(RecoveryCode::parse(short), Err(RecoveryError::BadEntropyLength)));
    assert!(matches!(RecoveryCode::parse("nonsense"), Err(RecoveryError::Bip39(_))));
}

#[test]
fn url_escape_passes_safe_chars() {
    assert_eq!(url_escape("openai.api_key"), "openai.api_key");
    assert_eq!(url_escape("a/b"), "a%2Fb");
    assert_eq!(url_escape("hello world"), "hello%20world");
    assert_eq!(url_escape("é"), "%C3%A9");
}

#[test]
fn addresses_of_values() {
    let e = ConfigEndpoint { base_url: "https://c".into(), bearer_token: "t".into() };
    assert_eq!(e.value_url(Scope::Secrets, "a/b"), "https://c/v1/config/secrets/a%2Fb");
    assert_ne!(e.value_url(Scope::Secrets, "a"), e.value_url(Scope::Preferences, "a"));
    assert!(e.list_url(Scope::Capabilities, Revision(7)).contains("7"));
    assert!(e.kdf_url().starts_with("https://c/"));
    assert_eq!(Revision::zero().0, 0);
    assert_eq!(Revision(4).next().0, 5);
    assert!(if_match(Revision(3)).contains("3"));
    let body = write_body(&json::parse(r#"{"a":1}"#).unwrap()).to_text();
    assert!(body.contains(r#"{"a":1}"#), "{}", body);
    let s = Sealed { ciphertext_b64: "c".into(), nonce_b64: "n".into() };
    assert!(secret_body(&s).to_text().contains("\"c\""));
}

#[test]
fn answers_of_the_cloud() {
    assert!(kdf_outcome(200).is_ok());
    assert!(list_outcome(204).is_ok());
    assert!(matches!(list_outcome(500), Err(SyncError::Status(500))));
    assert!(matches!(write_outcome(200, Ok(9)), Ok(Revision(9))));
    assert!(matches!(
        write_outcome(409, Ok(12)),
        Err(SyncError::Conflict { current: Revision(12) })
    ));
    assert!(matches!(write_outcome(403, Ok(1)), Err(SyncError::Status(403))));
    assert!(delete_outcome(204, "k", Err("none".into())).is_ok());
    assert!(matches!(delete_outcome(404, "k", Ok(0)), Err(SyncError::NotFound(k)) if k == "k"));
    assert!(SyncError::Status(404).message().contains("404 Not Found"));
}
