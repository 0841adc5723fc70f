//! What the settings, their secrets and their keys promise across calls.

use vstd::prelude::*;
use crate::config::crypto;
use crate::config::crypto::CryptoError;
use crate::config::crypto::CryptoErrorView;
use crate::config::crypto::KdfParams;
use crate::config::crypto::KdfView;
use crate::config::crypto::MasterKey;
use crate::config::crypto::Sealed;
use crate::config::crypto::SealedView;
use crate::config::keystore;
use crate::config::keystore::Keystore;
use crate::config::keystore::KeystoreError;
use crate::config::keystore::KeystoreErrorView;
use crate::config::keystore::KeystoreView;
use crate::config::recovery;
use crate::config::recovery::RecoveryCode;
use crate::config::recovery::RecoveryError;
use crate::config::scope::Revision;
use crate::config::scope::Scope;
use crate::config::sync;
use crate::config::sync::SyncError;
use crate::config::sync::SyncErrorView;
use crate::json::JsonView;
use crate::text;

verus! {

// ---------------------------------------------------------------------------
// The keystore
// ---------------------------------------------------------------------------

/// A key that is put into memory is the one that is got for its account, and what is got for
/// other accounts is as before.
pub proof fn lemma_put_then_get(
    store: &mut Keystore,
    account: &str,
    key: MasterKey,
    put: Result<(), KeystoreError>,
    got: Result<MasterKey, KeystoreError>,
    other: &str,
    earlier: Result<MasterKey, KeystoreError>,
    later: Result<MasterKey, KeystoreError>,
)
    requires
        *store is Memory,
        call_ensures(Keystore::get, (&*store, other), earlier),
        call_ensures(Keystore::put, (store, account, &key), put),
        call_ensures(Keystore::get, (final(store), account), got),
        call_ensures(Keystore::get, (final(store), other), later),
    ensures
        put is Ok,
        got matches Ok(k) && k@ == key@,
        other@ != account@ ==> (earlier is Ok <==> later is Ok),
        other@ != account@ && earlier is Ok ==> earlier->Ok_0@ == later->Ok_0@,
{
}

/// A key that is forgotten is not found any more, and other accounts keep theirs.
pub proof fn lemma_forget_then_get(
    store: &mut Keystore,
    account: &str,
    forgot: Result<(), KeystoreError>,
    got: Result<MasterKey, KeystoreError>,
    other: &str,
    earlier: Result<MasterKey, KeystoreError>,
    later: Result<MasterKey, KeystoreError>,
)
    requires
        *store is Memory,
        call_ensures(Keystore::get, (&*store, other), earlier),
        call_ensures(Keystore::forget, (store, account), forgot),
        call_ensures(Keystore::get, (final(store), account), got),
        call_ensures(Keystore::get, (final(store), other), later),
    ensures
        forgot is Ok,
        got matches Err(e) && e@ == KeystoreErrorView::NotFound(account@),
        other@ != account@ ==> (earlier is Ok <==> later is Ok),
        other@ != account@ && earlier is Ok ==> earlier->Ok_0@ == later->Ok_0@,
{
}

/// The store of a platform is empty at first, and takes keys.
pub proof fn lemma_platform_takes_keys(
    store: Keystore,
    memory: Keystore,
    account: &str,
    got: Result<MasterKey, KeystoreError>,
)
    requires
        call_ensures(Keystore::platform, (), store),
        call_ensures(Keystore::memory, (), memory),
        call_ensures(Keystore::get, (&store, account), got),
    ensures
        store@ is Memory,
        store@ == memory@,
        got matches Err(e) && e@ == KeystoreErrorView::NotFound(account@),
{
}

// ---------------------------------------------------------------------------
// Keys and secrets
// ---------------------------------------------------------------------------

/// A secret that was sealed opens under the same key, scope and name as it was, and each
/// secret that is not too long can be sealed.
pub proof fn lemma_seal_then_open(
    key: MasterKey,
    scope: &str,
    key_id: &str,
    plaintext: Vec<u8>,
    sealed: Result<Sealed, CryptoError>,
    opened: Result<Vec<u8>, CryptoError>,
)
    requires
        plaintext@.len() < 274877906880,
        call_ensures(crypto::seal_secret, (&key, scope, key_id, &plaintext), sealed),
        sealed matches Ok(s) ==> call_ensures(
            crypto::open_secret,
            (&key, scope, key_id, &s),
            opened,
        ),
    ensures
        sealed is Ok,
        opened matches Ok(p) && p@ == plaintext@,
{
}

/// A secret is sealed together with the version of the format, its scope and its name, and
/// what is kept of it is the sealed bytes and the nonce, both in Base64.
pub proof fn lemma_sealed_with_its_name(
    key: MasterKey,
    scope: &str,
    key_id: &str,
    plaintext: Vec<u8>,
    nonce: [u8; 24],
    sealed: Result<Sealed, CryptoError>,
)
    requires
        call_ensures(
            crypto::seal_with_nonce,
            (&key, scope, key_id, &plaintext, &nonce),
            sealed,
        ),
    ensures
        ({
            let bound = vstd::utf8::encode_utf8(
                "kiki-config/v1"@ + "|"@ + scope@ + "|"@ + key_id@,
            );
            match crypto::aead_sealed(key@, nonce@, bound, plaintext@) {
                Some(bytes) => sealed matches Ok(s) && s.ciphertext_b64@ == crypto::b64_text(bytes)
                    && s.nonce_b64@ == crypto::b64_text(nonce@),
                None => sealed matches Err(e) && e@ == CryptoErrorView::Aead(
                    "encryption failed"@,
                ),
            }
        }),
{
}

/// A sealed secret opens where its nonce and its bytes are Base64, the nonce has its length of
/// twenty-four, and the cipher accepts them with the scope and the name. Else the first that
/// fails is told.
pub proof fn lemma_what_opens(
    key: MasterKey,
    scope: &str,
    key_id: &str,
    sealed: Sealed,
    opened: Result<Vec<u8>, CryptoError>,
)
    requires
        call_ensures(crypto::open_secret, (&key, scope, key_id, &sealed), opened),
    ensures
        ({
            let bound = vstd::utf8::encode_utf8(
                "kiki-config/v1"@ + "|"@ + scope@ + "|"@ + key_id@,
            );
            match (crypto::b64_bytes(sealed.nonce_b64@), crypto::b64_bytes(
                sealed.ciphertext_b64@,
            )) {
                (Err(e), _) => opened matches Err(f) && f@ == CryptoErrorView::Base64(e),
                (Ok(nonce), bytes) => if nonce.len() != 24 {
                    opened matches Err(f) && f@ == CryptoErrorView::BadNonce
                } else {
                    match bytes {
                        Err(e) => opened matches Err(f) && f@ == CryptoErrorView::Base64(e),
                        Ok(b) => match crypto::aead_opened(key@, nonce, bound, b) {
                            Some(p) => opened matches Ok(o) && o@ == p,
                            None => opened matches Err(f) && f@ is Aead,
                        },
                    }
                },
            }
        }),
{
}

/// A key is derived from the password and the salt with the costs that the parameters give.
pub proof fn lemma_key_is_derived(
    password: &str,
    params: KdfParams,
    key: Result<MasterKey, CryptoError>,
)
    requires
        call_ensures(crypto::derive_master_key, (password, &params), key),
        params.parallelism <= 0x1fff_ffff,
    ensures
        match crypto::b64_bytes(params.salt_b64@) {
            Err(e) => key matches Err(f) && f@ == CryptoErrorView::Base64(e),
            Ok(salt) => match crypto::argon_key(
                password@,
                salt,
                params.m_cost_kib,
                params.t_cost,
                params.parallelism,
            ) {
                Ok(bytes) => key matches Ok(k) && k@ == bytes && k@.len() == 32,
                Err(e) => key matches Err(f) && f@ == CryptoErrorView::Kdf(e),
            },
        },
{
}

/// Desktops derive keys with 64 mebibytes, three passes and four lanes, and devices with little
/// memory with 19, two and one. The salt is kept in Base64.
pub proof fn lemma_costs(salt: Seq<u8>)
    ensures
        crypto::desktop(salt) == (KdfView {
            salt_b64: crypto::b64_text(salt),
            m_cost_kib: 65536,
            t_cost: 3,
            parallelism: 4,
        }),
        crypto::sensor(salt) == (KdfView {
            salt_b64: crypto::b64_text(salt),
            m_cost_kib: 19456,
            t_cost: 2,
            parallelism: 1,
        }),
{
}

/// Two keys are equal exactly where their bytes are, and a wiped key is all zeros.
pub proof fn lemma_keys(
    a: MasterKey,
    b: MasterKey,
    bytes: [u8; 32],
    made: MasterKey,
    same: bool,
    wiped: &mut MasterKey,
)
    requires
        call_ensures(crypto::keys_equal, (&a, &b), same),
        call_ensures(MasterKey::from_bytes, (bytes,), made),
        call_ensures(MasterKey::wipe, (wiped,), ()),
    ensures
        same <==> a@ == b@,
        made@ == bytes@,
        forall|i: int| 0 <= i < 32 ==> #[trigger] final(wiped)@[i] == 0,
        final(wiped)@.len() == 32,
{
}

// ---------------------------------------------------------------------------
// Recovery
// ---------------------------------------------------------------------------

/// The key of a recovery code is derived from the seed of its words, as text in hexadecimal.
pub proof fn lemma_recovered(
    code: RecoveryCode,
    params: KdfParams,
    recovered: Result<MasterKey, CryptoError>,
    hex: &str,
    derived: Result<MasterKey, CryptoError>,
)
    requires
        call_ensures(recovery::recover_master_key, (&code, &params), recovered),
        hex@ == recovery::hex_text(recovery::seed_of(code@)),
        call_ensures(crypto::derive_master_key, (hex, &params), derived),
    ensures
        recovered is Ok <==> derived is Ok,
        recovered is Ok ==> recovered->Ok_0@ == derived->Ok_0@,
        recovered is Err ==> recovered->Err_0@ == derived->Err_0@,
{
}

/// In hexadecimal each byte is two digits, the higher one first, in lower case.
pub proof fn lemma_hexadecimal(bytes: Seq<u8>, i: int)
    requires
        0 <= i < bytes.len(),
    ensures
        recovery::hex_text(bytes).len() == 2 * bytes.len(),
        recovery::hex_text(bytes)[2 * i] == "0123456789abcdef"@[bytes[i] as int / 16],
        recovery::hex_text(bytes)[2 * i + 1] == "0123456789abcdef"@[bytes[i] as int % 16],
{
    reveal_strlit("0123456789abcdef");
    assert((2 * i) / 2 == i);
    assert((2 * i + 1) / 2 == i);
    assert((2 * i + 1) % 2 == 1);
}

/// A code that was made can be typed in again and is the same code. A phrase with a wrong word
/// or checksum is refused with the reason, and one of another length is refused.
pub proof fn lemma_code_is_read(
    made: Result<RecoveryCode, RecoveryError>,
    phrase: String,
    written: &str,
    again: Result<RecoveryCode, RecoveryError>,
    typed: &str,
    read: Result<RecoveryCode, RecoveryError>,
)
    requires
        call_ensures(recovery::generate_recovery_code, (), made),
        made matches Ok(c) ==> call_ensures(RecoveryCode::phrase, (&c,), phrase),
        written@ == phrase@,
        call_ensures(RecoveryCode::parse, (written,), again),
        call_ensures(RecoveryCode::parse, (typed,), read),
    ensures
        made is Ok,
        again matches Ok(c) && c@ == made->Ok_0@,
        match recovery::mnemonic(typed@) {
            Err(words) => read matches Err(e) && e@ == recovery::RecoveryErrorView::Bip39(words),
            Ok(plain) => if text::words(plain).len() == 24 {
                read matches Ok(c) && c@ == plain
            } else {
                read matches Err(e) && e@ == recovery::RecoveryErrorView::BadEntropyLength
            },
        },
{
}

// ---------------------------------------------------------------------------
// The service
// ---------------------------------------------------------------------------

/// Where the settings are kept: each tier under its own name, each key escaped, and a list
/// from a revision on.
pub proof fn lemma_addresses(base: Seq<char>, key: Seq<char>, since: u64)
    ensures
        sync::kdf_address(base) == base + "/v1/config/secrets/_kdf"@,
        sync::value_address(base, Scope::Secrets, key) == base + "/v1/config/"@ + "secrets"@ + "/"@
            + sync::url_escaped(key),
        sync::value_address(base, Scope::Preferences, key) == base + "/v1/config/"@
            + "preferences"@ + "/"@ + sync::url_escaped(key),
        sync::value_address(base, Scope::Capabilities, key) == base + "/v1/config/"@
            + "capabilities"@ + "/"@ + sync::url_escaped(key),
        sync::list_address(base, Scope::Secrets, Revision(since)) == base + "/v1/config/"@
            + "secrets"@ + "?since="@ + text::decimal(since as nat),
        sync::list_address(base, Scope::Preferences, Revision(since)) == base + "/v1/config/"@
            + "preferences"@ + "?since="@ + text::decimal(since as nat),
        sync::list_address(base, Scope::Capabilities, Revision(since)) == base + "/v1/config/"@
            + "capabilities"@ + "?since="@ + text::decimal(since as nat),
{
}

/// Letters, digits, hyphen, underscore, dot and tilde stand for themselves in an address, and
/// every other byte is a per cent sign and its two hexadecimal digits in upper case.
pub proof fn lemma_escaping(bytes: Seq<u8>, b: u8)
    ensures
        sync::escaped(Seq::empty()) == Seq::<char>::empty(),
        ({
            let plain = ('a' as u8 <= b <= 'z' as u8) || ('A' as u8 <= b <= 'Z' as u8) || ('0' as u8
                <= b <= '9' as u8) || b == '-' as u8 || b == '_' as u8 || b == '.' as u8 || b
                == '~' as u8;
            sync::escaped(seq![b] + bytes) == (if plain {
                seq![b as char]
            } else {
                seq![
                    '%',
                    "0123456789ABCDEF"@[b as int / 16],
                    "0123456789ABCDEF"@[b as int % 16],
                ]
            }) + sync::escaped(bytes)
        }),
{
    reveal_strlit("0123456789ABCDEF");
    assert((seq![b] + bytes).drop_first() =~= bytes);
    assert((seq![b] + bytes)[0] == b);
}

/// A write that succeeds gives the new revision. Where another write came first the conflict
/// tells the current revision, or none where that cannot be read. Any other answer is an
/// error that tells its status.
pub proof fn lemma_write_answers(
    status: u16,
    revision: Result<u64, String>,
    result: Result<Revision, SyncError>,
)
    requires
        call_ensures(sync::write_outcome, (status, revision), result),
    ensures
        200 <= status <= 299 ==> match revision {
            Ok(r) => result matches Ok(n) && n.0 == r,
            Err(words) => result matches Err(e) && e@ == SyncErrorView::Http(words@),
        },
        status == 409 || status == 412 ==> (result matches Err(e) && e@ == (
        SyncErrorView::Conflict {
            current: match revision {
                Ok(r) => Revision(r),
                Err(_) => Revision(0),
            },
        })),
        !(200 <= status <= 299) && status != 409 && status != 412 ==> (result matches Err(e) && e@
            == SyncErrorView::Status(status)),
{
}

/// A deletion succeeds, or tells of a conflict, that there is no such key, or its status.
pub proof fn lemma_delete_answers(
    status: u16,
    key: &str,
    revision: Result<u64, String>,
    result: Result<(), SyncError>,
)
    requires
        call_ensures(sync::delete_outcome, (status, key, revision), result),
    ensures
        200 <= status <= 299 ==> result is Ok,
        status == 409 || status == 412 ==> (result matches Err(e) && e@ == (
        SyncErrorView::Conflict {
            current: match revision {
                Ok(r) => Revision(r),
                Err(_) => Revision(0),
            },
        })),
        status == 404 ==> (result matches Err(e) && e@ == SyncErrorView::NotFound(key@)),
        !(200 <= status <= 299) && status != 404 && status != 409 && status != 412 ==> (
        result matches Err(e) && e@ == SyncErrorView::Status(status)),
{
}

/// Reading succeeds with a status of success, and else tells the status; where no parameters
/// are kept yet that is told apart.
pub proof fn lemma_read_answers(
    status: u16,
    listed: Result<(), SyncError>,
    params: Result<(), SyncError>,
)
    requires
        call_ensures(sync::list_outcome, (status,), listed),
        call_ensures(sync::kdf_outcome, (status,), params),
    ensures
        200 <= status <= 299 <==> listed is Ok,
        200 <= status <= 299 <==> params is Ok,
        listed matches Err(e) ==> e@ == SyncErrorView::Status(status),
        status == 404 ==> (params matches Err(e) && e@ == SyncErrorView::NotFound("_kdf"@)),
        params is Err && status != 404 ==> params->Err_0@ == SyncErrorView::Status(status),
{
}

/// A value travels under `payload`, and a secret as the object of its sealed bytes and nonce.
pub proof fn lemma_bodies(payload: JsonView, s: SealedView)
    ensures
        sync::write_json(payload) == JsonView::Object(Map::empty().insert("payload"@, payload)),
        crypto::sealed_json(s) matches JsonView::Object(m) && m.dom() == set![
            "ciphertext_b64"@,
            "nonce_b64"@,
        ] && m["ciphertext_b64"@] == JsonView::Text(s.ciphertext_b64) && m["nonce_b64"@]
            == JsonView::Text(s.nonce_b64),
{
    reveal_strlit("ciphertext_b64");
    reveal_strlit("nonce_b64");
    assert("ciphertext_b64"@.len() == 14 && "nonce_b64"@.len() == 9);
    assert(crypto::sealed_json(s)->Object_0.dom() =~= set!["ciphertext_b64"@, "nonce_b64"@]);
}

/// The next revision is one more, as far as revisions go.
pub proof fn lemma_revisions(r: Revision, next: Revision, zero: Revision)
    requires
        call_ensures(Revision::next, (r,), next),
        call_ensures(Revision::zero, (), zero),
    ensures
        zero.0 == 0,
        r.0 < u64::MAX ==> next.0 == r.0 + 1,
        r.0 == u64::MAX ==> next == r,
{
}

/// A failure says what failed and then the words for it.
pub proof fn lemma_failures_in_words(t: Seq<char>, n: u64)
    ensures
        CryptoErrorView::Kdf(t).message() == "kdf error: "@ + t,
        CryptoErrorView::Aead(t).message() == "aead error: "@ + t,
        CryptoErrorView::BadNonce.message() == "nonce wrong length"@,
        CryptoErrorView::Base64(t).message() == "base64 decode error: "@ + t,
        KeystoreErrorView::Unavailable.message()
            == "keystore not available on this platform; use Keystore::memory()"@,
        KeystoreErrorView::NotFound(t).message() == "entry not found for account `"@ + t
            + "`"@,
        KeystoreErrorView::Backend(t).message() == "backend error: "@ + t,
        recovery::RecoveryErrorView::Bip39(t).message() == "bip39 error: "@ + t,
        recovery::RecoveryErrorView::BadEntropyLength.message()
            == "recovery code did not produce a key of length 32"@,
        SyncErrorView::Http(t).message() == "http: "@ + t,
        SyncErrorView::NotFound(t).message() == "not found: "@ + t,
        SyncErrorView::Json(t).message() == "json: "@ + t,
        (SyncErrorView::Conflict { current: Revision(n) }).message()
            == "CAS conflict: current revision is Revision("@ + text::decimal(n as nat) + ")"@,
{
}

/// A key is made of exactly as many bytes as a key has, and of those bytes.
pub proof fn lemma_key_of_bytes(
    bytes: Vec<u8>,
    key: Result<MasterKey, KeystoreError>,
)
    requires
        call_ensures(keystore::key_of_buffer, (bytes,), key),
    ensures
        key is Ok <==> bytes@.len() == 32,
        key matches Ok(k) ==> k@ == bytes@,
{
}

} // verus!
