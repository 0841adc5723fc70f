//! Keys from passwords, and secrets sealed under a key.
//!
//! A master key is derived from a password with Argon2id. A secret is sealed with
//! XChaCha20-Poly1305 under the key and a fresh nonce, and is bound to its scope and
//! name, so that what was sealed as one secret is not opened as another.

use vstd::prelude::*;
use argon2::{Algorithm, Argon2, Params, Version};
use base64::Engine;
use chacha20poly1305::aead::{Aead, KeyInit, Payload};
use chacha20poly1305::{XChaCha20Poly1305, XNonce};
use rand::RngCore;
use subtle::ConstantTimeEq;
use zeroize::Zeroize;
use crate::json;
use crate::json::Json;
use crate::json::JsonView;

verus! {

/// The length of a key in bytes.
pub const KEY_LEN: usize = 32;

/// The length of a salt in bytes.
pub const SALT_LEN: usize = 16;

/// The length of a nonce in bytes.
pub const NONCE_LEN: usize = 24;

/// Why a key or a secret could not be had.
pub enum CryptoError {
    Kdf(String),
    Aead(String),
    BadNonce,
    Base64(String),
}

/// What such a failure is.
#[verifier::ext_equal]
pub enum CryptoErrorView {
    Kdf(Seq<char>),
    Aead(Seq<char>),
    BadNonce,
    Base64(Seq<char>),
}

impl View for CryptoError {
    type V = CryptoErrorView;

    open spec fn view(&self) -> CryptoErrorView {
        match self {
            CryptoError::Kdf(t) => CryptoErrorView::Kdf(t@),
            CryptoError::Aead(t) => CryptoErrorView::Aead(t@),
            CryptoError::BadNonce => CryptoErrorView::BadNonce,
            CryptoError::Base64(t) => CryptoErrorView::Base64(t@),
        }
    }
}

impl CryptoErrorView {
    /// The failure in words.
    pub open spec fn message(self) -> Seq<char> {
        match self {
            CryptoErrorView::Kdf(t) => "kdf error: "@ + t,
            CryptoErrorView::Aead(t) => "aead error: "@ + t,
            CryptoErrorView::BadNonce => "nonce wrong length"@,
            CryptoErrorView::Base64(t) => "base64 decode error: "@ + t,
        }
    }
}

impl CryptoError {
    /// The failure in words.
    pub fn message(&self) -> (words: String)
        ensures
            words@ == self@.message(),
    {
        match self {
            CryptoError::Kdf(t) => "kdf error: ".to_string().concat(t.as_str()),
            CryptoError::Aead(t) => "aead error: ".to_string().concat(t.as_str()),
            CryptoError::BadNonce => "nonce wrong length".to_string(),
            CryptoError::Base64(t) => "base64 decode error: ".to_string().concat(t.as_str()),
        }
    }
}

// ---------------------------------------------------------------------------
// Outside functions
// ---------------------------------------------------------------------------

/// Bytes in Base64.
pub uninterp spec fn b64_text(bytes: Seq<u8>) -> Seq<char>;

/// The bytes that a Base64 text stands for, or why it stands for none.
pub uninterp spec fn b64_bytes(text: Seq<char>) -> Result<Seq<u8>, Seq<char>>;

/// More lanes than these are refused before they are multiplied.
pub const MAX_LANES: u32 = 0x1fff_ffff;

/// The key of Argon2id for a password, a salt and the costs in memory, time and
/// lanes, or why there is none.
pub uninterp spec fn argon_key(
    password: Seq<char>,
    salt: Seq<u8>,
    m_cost: u32,
    t_cost: u32,
    lanes: u32,
) -> Result<Seq<u8>, Seq<char>>;

/// A message sealed under a key and nonce and bound to other bytes.
pub uninterp spec fn aead_sealed(
    key: Seq<u8>,
    nonce: Seq<u8>,
    bound: Seq<u8>,
    message: Seq<u8>,
) -> Option<Seq<u8>>;

/// The message that was sealed under a key and nonce and bound to other bytes.
pub uninterp spec fn aead_opened(
    key: Seq<u8>,
    nonce: Seq<u8>,
    bound: Seq<u8>,
    sealed: Seq<u8>,
) -> Option<Seq<u8>>;

/// What an attempt to get bytes gave.
pub open spec fn bytes_result(r: Result<Vec<u8>, String>) -> Result<Seq<u8>, Seq<char>> {
    match r {
        Ok(b) => Ok(b@),
        Err(e) => Err(e@),
    }
}

/// The result of decoding into these bytes.
pub open spec fn decoded(bytes: Seq<u8>) -> Result<Seq<u8>, Seq<char>> {
    Ok(bytes)
}

/// What optional bytes are.
pub open spec fn opt_bytes(b: Option<Vec<u8>>) -> Option<Seq<u8>> {
    match b {
        Some(v) => Some(v@),
        None => None,
    }
}

/// `base64::Engine::encode` of the standard engine: the Base64 text of the bytes. The
/// bytes alone decide, and decoding the text gives them back.
#[verifier::external_body]
pub(crate) fn to_b64(bytes: &Vec<u8>) -> (text: String)
    ensures
        text@ == b64_text(bytes@),
        b64_bytes(text@) == decoded(bytes@),
{
    base64::engine::general_purpose::STANDARD.encode(bytes)
}

/// `base64::Engine::decode` of the standard engine: the bytes that the text stands
/// for, or the words of the error. The text alone decides.
#[verifier::external_body]
pub(crate) fn from_b64(text: &str) -> (bytes: Result<Vec<u8>, String>)
    ensures
        bytes_result(bytes) == b64_bytes(text@),
{
    base64::engine::general_purpose::STANDARD.decode(text.as_bytes()).map_err(|e| e.to_string())
}

/// `argon2::Argon2::hash_password_into` with Argon2id, version 0x13, and the costs as
/// `argon2::Params::new` takes them: a key of 32 bytes, or the words of the error
/// where a cost or the salt is out of bounds. The arguments alone decide. It needs
/// memory as the cost asks for. Eight times the lanes must fit in 32 bits, as
/// `argon2::Params::new` multiplies before it looks at them.
#[verifier::external_body]
fn argon2id(password: &str, salt: &Vec<u8>, m_cost: u32, t_cost: u32, lanes: u32) -> (key: Result<
    [u8; 32],
    String,
>)
    requires
        lanes <= MAX_LANES,
    ensures
        (match key {
            Ok(k) => Ok(k@),
            Err(e) => Err(e@),
        }) == argon_key(password@, salt@, m_cost, t_cost, lanes),
{
    let params = Params::new(m_cost, t_cost, lanes, Some(32)).map_err(|e| e.to_string())?;
    let argon = Argon2::new(Algorithm::Argon2id, Version::V0x13, params);
    let mut out = [0u8; 32];
    match argon.hash_password_into(password.as_bytes(), salt, &mut out) {
        Ok(()) => Ok(out),
        Err(e) => Err(e.to_string()),
    }
}

/// `Aead::encrypt` of `chacha20poly1305::XChaCha20Poly1305`: the message sealed, with
/// a tag of 16 bytes. It fails for messages of 64 times 4294967295 bytes and more.
/// The arguments alone decide, and opening with the same key, nonce and bound bytes
/// gives the message back.
#[verifier::external_body]
fn aead_seal(key: &[u8; 32], nonce: &[u8; 24], bound: &Vec<u8>, message: &Vec<u8>) -> (sealed:
    Option<Vec<u8>>)
    ensures
        opt_bytes(sealed) == aead_sealed(key@, nonce@, bound@, message@),
        sealed is Some <==> message@.len() < 274877906880,
        sealed matches Some(s) ==> s@.len() == message@.len() + 16 && aead_opened(
            key@,
            nonce@,
            bound@,
            s@,
        ) == Some(message@),
{
    let cipher = XChaCha20Poly1305::new(key.into());
    cipher.encrypt(XNonce::from_slice(nonce), Payload { msg: message, aad: bound }).ok()
}

/// `Aead::decrypt` of `chacha20poly1305::XChaCha20Poly1305`: the message, where the
/// tag shows that these are the bytes sealed under this key and nonce and bound to
/// these bytes. The arguments alone decide, and what is opened would be sealed into
/// the same bytes again. That other keys and other bytes do not open them is a matter
/// of computing power and is not said.
#[verifier::external_body]
fn aead_open(key: &[u8; 32], nonce: &[u8; 24], bound: &Vec<u8>, sealed: &Vec<u8>) -> (message:
    Option<Vec<u8>>)
    ensures
        opt_bytes(message) == aead_opened(key@, nonce@, bound@, sealed@),
        message matches Some(m) ==> sealed@.len() == m@.len() + 16 && aead_sealed(
            key@,
            nonce@,
            bound@,
            m@,
        ) == Some(sealed@),
{
    let cipher = XChaCha20Poly1305::new(key.into());
    cipher.decrypt(XNonce::from_slice(nonce), Payload { msg: sealed, aad: bound }).ok()
}

/// `rand::RngCore::fill_bytes` of the thread's generator, on a salt. Nothing is
/// claimed of the bytes.
#[verifier::external_body]
fn random_salt() -> (salt: [u8; 16]) {
    let mut salt = [0u8; 16];
    rand::thread_rng().fill_bytes(&mut salt);
    salt
}

/// `rand::RngCore::fill_bytes` of the thread's generator, on a nonce. Nothing is
/// claimed of the bytes.
#[verifier::external_body]
fn random_nonce() -> (nonce: [u8; 24]) {
    let mut nonce = [0u8; 24];
    rand::thread_rng().fill_bytes(&mut nonce);
    nonce
}

/// `subtle::ConstantTimeEq::ct_eq`: whether the bytes are the same.
#[verifier::external_body]
fn same_bytes(a: &[u8; 32], b: &[u8; 32]) -> (same: bool)
    ensures
        same == (a@ == b@),
{
    a.ct_eq(b).into()
}

/// `zeroize::Zeroize::zeroize` on an array: every byte becomes zero.
#[verifier::external_body]
fn zero_bytes(bytes: &mut [u8; 32])
    ensures
        final(bytes)@ == Seq::new(32, |i: int| 0u8),
{
    bytes.zeroize();
}

// ---------------------------------------------------------------------------
// Keys
// ---------------------------------------------------------------------------

/// How a key is derived from a password.
pub struct KdfParams {
    /// The salt in Base64.
    pub salt_b64: String,
    /// The cost in memory, in kibibytes.
    pub m_cost_kib: u32,
    /// The cost in time.
    pub t_cost: u32,
    /// The number of lanes.
    pub parallelism: u32,
}

/// What the parameters are.
#[verifier::ext_equal]
pub struct KdfView {
    pub salt_b64: Seq<char>,
    pub m_cost_kib: u32,
    pub t_cost: u32,
    pub parallelism: u32,
}

impl View for KdfParams {
    type V = KdfView;

    open spec fn view(&self) -> KdfView {
        KdfView {
            salt_b64: self.salt_b64@,
            m_cost_kib: self.m_cost_kib,
            t_cost: self.t_cost,
            parallelism: self.parallelism,
        }
    }
}

/// The parameters for desktop and mobile devices with a salt.
pub open spec fn desktop(salt: Seq<u8>) -> KdfView {
    KdfView { salt_b64: b64_text(salt), m_cost_kib: 65536, t_cost: 3, parallelism: 4 }
}

/// The parameters for devices with little memory with a salt.
pub open spec fn sensor(salt: Seq<u8>) -> KdfView {
    KdfView { salt_b64: b64_text(salt), m_cost_kib: 19456, t_cost: 2, parallelism: 1 }
}

fn bytes_of_salt(salt: &[u8; 16]) -> (bytes: Vec<u8>)
    ensures
        bytes@ == salt@,
{
    let mut bytes: Vec<u8> = Vec::new();
    let mut i: usize = 0;
    while i < 16
        invariant
            i <= 16,
            bytes@ == salt@.take(i as int),
        decreases 16 - i,
    {
        bytes.push(salt[i]);
        i += 1;
        assert(bytes@ =~= salt@.take(i as int));
    }
    assert(salt@.take(16) =~= salt@);
    bytes
}

impl KdfParams {
    /// The parameters for desktop and mobile devices with this salt.
    pub fn desktop_with(salt: &[u8; 16]) -> (params: Self)
        ensures
            params@ == desktop(salt@),
    {
        KdfParams {
            salt_b64: to_b64(&bytes_of_salt(salt)),
            m_cost_kib: 65536,
            t_cost: 3,
            parallelism: 4,
        }
    }

    /// The parameters for devices with little memory with this salt.
    pub fn sensor_with(salt: &[u8; 16]) -> (params: Self)
        ensures
            params@ == sensor(salt@),
    {
        KdfParams {
            salt_b64: to_b64(&bytes_of_salt(salt)),
            m_cost_kib: 19456,
            t_cost: 2,
            parallelism: 1,
        }
    }

    /// The parameters for desktop and mobile devices with a fresh salt.
    pub fn default_desktop() -> (params: Self)
        ensures
            exists|salt: Seq<u8>| salt.len() == SALT_LEN && params@ == #[trigger] desktop(salt),
    {
        let salt = random_salt();
        assert(salt@.len() == SALT_LEN);
        KdfParams::desktop_with(&salt)
    }

    /// The parameters for devices with little memory with a fresh salt.
    pub fn sensor_class() -> (params: Self)
        ensures
            exists|salt: Seq<u8>| salt.len() == SALT_LEN && params@ == #[trigger] sensor(salt),
    {
        let salt = random_salt();
        assert(salt@.len() == SALT_LEN);
        KdfParams::sensor_with(&salt)
    }
}

/// A key.
pub struct MasterKey {
    bytes: [u8; 32],
}

impl View for MasterKey {
    type V = Seq<u8>;

    closed spec fn view(&self) -> Seq<u8> {
        self.bytes@
    }
}

impl MasterKey {
    /// The key with these bytes.
    pub fn from_bytes(bytes: [u8; 32]) -> (key: Self)
        ensures
            key@ == bytes@,
            key@.len() == KEY_LEN,
    {
        MasterKey { bytes }
    }

    /// The bytes of the key.
    pub fn as_bytes(&self) -> (bytes: &[u8; 32])
        ensures
            bytes@ == self@,
            self@.len() == KEY_LEN,
    {
        &self.bytes
    }

    /// Makes every byte of the key zero.
    pub fn wipe(&mut self)
        ensures
            final(self)@ == Seq::new(KEY_LEN as nat, |i: int| 0u8),
    {
        zero_bytes(&mut self.bytes);
    }
}

/// The key that a password and parameters give, or why they give none.
pub open spec fn derived_key(password: Seq<char>, params: KdfView) -> Result<
    Seq<u8>,
    CryptoErrorView,
> {
    match b64_bytes(params.salt_b64) {
        Err(e) => Err(CryptoErrorView::Base64(e)),
        Ok(salt) => if params.parallelism > MAX_LANES {
            Err(CryptoErrorView::Kdf("too many threads"@))
        } else {
            match argon_key(
                password,
                salt,
                params.m_cost_kib,
                params.t_cost,
                params.parallelism,
            ) {
                Err(e) => Err(CryptoErrorView::Kdf(e)),
                Ok(key) => Ok(key),
            }
        },
    }
}

/// What an attempt to get a key gave.
pub open spec fn key_result(r: Result<MasterKey, CryptoError>) -> Result<
    Seq<u8>,
    CryptoErrorView,
> {
    match r {
        Ok(k) => Ok(k@),
        Err(e) => Err(e@),
    }
}

/// Derives a key from a password.
pub fn derive_master_key(password: &str, params: &KdfParams) -> (key: Result<
    MasterKey,
    CryptoError,
>)
    ensures
        key_result(key) == derived_key(password@, params@),
        key matches Ok(k) ==> k@.len() == KEY_LEN,
{
    match from_b64(params.salt_b64.as_str()) {
        Err(e) => Err(CryptoError::Base64(e)),
        Ok(salt) => if params.parallelism > MAX_LANES {
            Err(CryptoError::Kdf("too many threads".to_string()))
        } else {
            match argon2id(
                password,
                &salt,
                params.m_cost_kib,
                params.t_cost,
                params.parallelism,
            ) {
                Err(e) => Err(CryptoError::Kdf(e)),
                Ok(bytes) => Ok(MasterKey::from_bytes(bytes)),
            }
        },
    }
}

/// Whether two keys are the same, in a time that does not tell where they differ.
pub fn keys_equal(a: &MasterKey, b: &MasterKey) -> (same: bool)
    ensures
        same == (a@ == b@),
{
    same_bytes(&a.bytes, &b.bytes)
}

// ---------------------------------------------------------------------------
// Secrets
// ---------------------------------------------------------------------------

/// A sealed secret.
pub struct Sealed {
    pub ciphertext_b64: String,
    pub nonce_b64: String,
}

/// What a sealed secret is.
#[verifier::ext_equal]
pub struct SealedView {
    pub ciphertext_b64: Seq<char>,
    pub nonce_b64: Seq<char>,
}

impl View for Sealed {
    type V = SealedView;

    open spec fn view(&self) -> SealedView {
        SealedView { ciphertext_b64: self.ciphertext_b64@, nonce_b64: self.nonce_b64@ }
    }
}

/// The words that a secret is bound to: a version, its scope and its name.
pub open spec fn binding(scope: Seq<char>, key_id: Seq<char>) -> Seq<char> {
    "kiki-config/v1"@ + "|"@ + scope + "|"@ + key_id
}

/// The bytes that a secret is bound to.
pub open spec fn bound_bytes(scope: Seq<char>, key_id: Seq<char>) -> Seq<u8> {
    vstd::utf8::encode_utf8(binding(scope, key_id))
}

/// A secret sealed under a key with a nonce, where it is not too long.
pub open spec fn seal_view(
    key: Seq<u8>,
    scope: Seq<char>,
    key_id: Seq<char>,
    plaintext: Seq<u8>,
    nonce: Seq<u8>,
) -> Result<SealedView, CryptoErrorView> {
    match aead_sealed(key, nonce, bound_bytes(scope, key_id), plaintext) {
        Some(ct) => Ok(SealedView { ciphertext_b64: b64_text(ct), nonce_b64: b64_text(nonce) }),
        None => Err(CryptoErrorView::Aead("encryption failed"@)),
    }
}

/// What opening a sealed secret under a key gives, or why it gives nothing. The nonce
/// is looked at first.
pub open spec fn open_view(
    key: Seq<u8>,
    scope: Seq<char>,
    key_id: Seq<char>,
    sealed: SealedView,
) -> Result<Seq<u8>, CryptoErrorView> {
    match b64_bytes(sealed.nonce_b64) {
        Err(e) => Err(CryptoErrorView::Base64(e)),
        Ok(nonce) => if nonce.len() != NONCE_LEN {
            Err(CryptoErrorView::BadNonce)
        } else {
            match b64_bytes(sealed.ciphertext_b64) {
                Err(e) => Err(CryptoErrorView::Base64(e)),
                Ok(ct) => match aead_opened(key, nonce, bound_bytes(scope, key_id), ct) {
                    Some(plaintext) => Ok(plaintext),
                    None => Err(
                        CryptoErrorView::Aead(
                            "decryption failed (wrong key, tampered, or wrong scope/key_id)"@,
                        ),
                    ),
                },
            }
        },
    }
}

fn build_aad(scope: &str, key_id: &str) -> (bytes: Vec<u8>)
    ensures
        bytes@ == bound_bytes(scope@, key_id@),
{
    let mut words = "kiki-config/v1".to_string();
    words.append("|");
    words.append(scope);
    words.append("|");
    words.append(key_id);
    words.as_str().as_bytes_vec()
}

/// What an attempt to seal gave.
pub open spec fn sealed_result(r: Result<Sealed, CryptoError>) -> Result<
    SealedView,
    CryptoErrorView,
> {
    match r {
        Ok(s) => Ok(s@),
        Err(e) => Err(e@),
    }
}

/// What an attempt to open gave.
pub open spec fn opened_result(r: Result<Vec<u8>, CryptoError>) -> Result<
    Seq<u8>,
    CryptoErrorView,
> {
    match r {
        Ok(b) => Ok(b@),
        Err(e) => Err(e@),
    }
}

fn nonce_bytes(nonce: &[u8; 24]) -> (bytes: Vec<u8>)
    ensures
        bytes@ == nonce@,
{
    let mut bytes: Vec<u8> = Vec::new();
    let mut i: usize = 0;
    while i < 24
        invariant
            i <= 24,
            bytes@ == nonce@.take(i as int),
        decreases 24 - i,
    {
        bytes.push(nonce[i]);
        i += 1;
        assert(bytes@ =~= nonce@.take(i as int));
    }
    assert(nonce@.take(24) =~= nonce@);
    bytes
}

fn nonce_of(bytes: &Vec<u8>) -> (nonce: [u8; 24])
    requires
        bytes@.len() == 24,
    ensures
        nonce@ == bytes@,
{
    let mut nonce: [u8; 24] = [0; 24];
    let mut i: usize = 0;
    while i < 24
        invariant
            i <= 24,
            bytes@.len() == 24,
            nonce@.len() == 24,
            forall|k: int| 0 <= k < i ==> nonce@[k] == bytes@[k],
        decreases 24 - i,
    {
        nonce[i] = bytes[i];
        i += 1;
    }
    assert(nonce@ =~= bytes@);
    nonce
}

/// Seals a secret under a key with this nonce.
pub fn seal_with_nonce(
    key: &MasterKey,
    scope: &str,
    key_id: &str,
    plaintext: &Vec<u8>,
    nonce: &[u8; 24],
) -> (sealed: Result<Sealed, CryptoError>)
    ensures
        sealed_result(sealed) == seal_view(key@, scope@, key_id@, plaintext@, nonce@),
        sealed is Ok <==> plaintext@.len() < 274877906880,
        sealed matches Ok(s) ==> open_view(key@, scope@, key_id@, s@) == Ok::<
            Seq<u8>,
            CryptoErrorView,
        >(plaintext@),
{
    let bound = build_aad(scope, key_id);
    match aead_seal(&key.bytes, nonce, &bound, plaintext) {
        Some(ct) => Ok(
            Sealed { ciphertext_b64: to_b64(&ct), nonce_b64: to_b64(&nonce_bytes(nonce)) },
        ),
        None => Err(CryptoError::Aead("encryption failed".to_string())),
    }
}

/// Seals a secret under a key with a fresh nonce. Opening it under the same key, scope
/// and name gives the secret back.
pub fn seal_secret(key: &MasterKey, scope: &str, key_id: &str, plaintext: &Vec<u8>) -> (sealed:
    Result<Sealed, CryptoError>)
    ensures
        exists|nonce: Seq<u8>|
            nonce.len() == NONCE_LEN && sealed_result(sealed) == #[trigger] seal_view(
                key@,
                scope@,
                key_id@,
                plaintext@,
                nonce,
            ),
        sealed is Ok <==> plaintext@.len() < 274877906880,
        sealed matches Ok(s) ==> open_view(key@, scope@, key_id@, s@) == Ok::<
            Seq<u8>,
            CryptoErrorView,
        >(plaintext@),
{
    let nonce = random_nonce();
    assert(nonce@.len() == NONCE_LEN);
    seal_with_nonce(key, scope, key_id, plaintext, &nonce)
}

/// Opens a sealed secret under a key.
pub fn open_secret(key: &MasterKey, scope: &str, key_id: &str, sealed: &Sealed) -> (plaintext:
    Result<Vec<u8>, CryptoError>)
    ensures
        opened_result(plaintext) == open_view(key@, scope@, key_id@, sealed@),
        plaintext matches Ok(p) ==> aead_sealed(
            key@,
            b64_bytes(sealed.nonce_b64@)->Ok_0,
            bound_bytes(scope@, key_id@),
            p@,
        ) == Some(b64_bytes(sealed.ciphertext_b64@)->Ok_0),
{
    let nonce = match from_b64(sealed.nonce_b64.as_str()) {
        Ok(nonce) => nonce,
        Err(e) => {
            return Err(CryptoError::Base64(e));
        },
    };
    if nonce.len() != NONCE_LEN {
        return Err(CryptoError::BadNonce);
    }
    let ct = match from_b64(sealed.ciphertext_b64.as_str()) {
        Ok(ct) => ct,
        Err(e) => {
            return Err(CryptoError::Base64(e));
        },
    };
    let bound = build_aad(scope, key_id);
    match aead_open(&key.bytes, &nonce_of(&nonce), &bound, &ct) {
        Some(plaintext) => Ok(plaintext),
        None => Err(
            CryptoError::Aead(
                "decryption failed (wrong key, tampered, or wrong scope/key_id)".to_string(),
            ),
        ),
    }
}

/// The document of a sealed secret.
pub open spec fn sealed_json(s: SealedView) -> JsonView {
    JsonView::Object(
        Map::empty().insert("ciphertext_b64"@, JsonView::Text(s.ciphertext_b64)).insert(
            "nonce_b64"@,
            JsonView::Text(s.nonce_b64),
        ),
    )
}

/// The members of the document of a sealed secret.
pub open spec fn sealed_fields() -> Seq<&'static str> {
    seq!["ciphertext_b64", "nonce_b64"]
}

/// The sealed secret that a document holds, by the names of its members or by their places.
pub open spec fn sealed_of_json(v: JsonView) -> Option<SealedView> {
    let v = json::named(v, sealed_fields());
    match (v.text_field("ciphertext_b64"@), v.text_field("nonce_b64"@)) {
        (Some(ciphertext_b64), Some(nonce_b64)) => Some(SealedView { ciphertext_b64, nonce_b64 }),
        _ => None,
    }
}

impl Sealed {
    /// The document of the sealed secret.
    pub fn to_json(&self) -> (v: Json)
        ensures
            v@ == sealed_json(self@),
    {
        Json::object().with("ciphertext_b64", Json::of_text(self.ciphertext_b64.as_str())).with(
            "nonce_b64",
            Json::of_text(self.nonce_b64.as_str()),
        )
    }

    /// The sealed secret that a document holds.
    pub fn from_json(v: &Json) -> (sealed: Option<Sealed>)
        ensures
            (match sealed {
                Some(s) => Some(s@),
                None => None,
            }) == sealed_of_json(v@),
    {
        let names: Vec<&'static str> = vec!["ciphertext_b64", "nonce_b64"];
        assert(names@ =~= sealed_fields());
        let v = v.with_names(&names);
        match (v.get_text("ciphertext_b64"), v.get_text("nonce_b64")) {
            (Some(ciphertext_b64), Some(nonce_b64)) => Some(Sealed { ciphertext_b64, nonce_b64 }),
            _ => None,
        }
    }
}

// ---------------------------------------------------------------------------
// What sealing promises
// ---------------------------------------------------------------------------

/// A sealed secret that was written is read back.
pub proof fn lemma_sealed_comes_back(s: SealedView)
    ensures
        sealed_of_json(sealed_json(s)) == Some(s),
{
    reveal_strlit("ciphertext_b64");
    reveal_strlit("nonce_b64");
    assert("ciphertext_b64"@.len() != "nonce_b64"@.len());
}

proof fn lemma_cut(a: Seq<char>, x: Seq<char>, b: Seq<char>, y: Seq<char>)
    requires
        !a.contains('|'),
        !b.contains('|'),
        a + "|"@ + x == b + "|"@ + y,
    ensures
        a == b,
        x == y,
{
    reveal_strlit("|");
    let left = a + "|"@ + x;
    let right = b + "|"@ + y;
    assert(left[a.len() as int] == '|');
    assert(right[b.len() as int] == '|');
    if a.len() < b.len() {
        assert(right[a.len() as int] == b[a.len() as int]);
        assert(b.contains('|'));
    }
    if b.len() < a.len() {
        assert(left[b.len() as int] == a[b.len() as int]);
        assert(a.contains('|'));
    }
    assert(a =~= left.take(a.len() as int));
    assert(b =~= right.take(b.len() as int));
    assert(x =~= left.skip(a.len() as int + 1));
    assert(y =~= right.skip(b.len() as int + 1));
}

/// Secrets of different scopes or names are bound to different bytes, where no scope
/// has a bar in it.
pub proof fn lemma_domains_are_apart(
    scope: Seq<char>,
    key_id: Seq<char>,
    other_scope: Seq<char>,
    other_id: Seq<char>,
)
    requires
        !scope.contains('|'),
        !other_scope.contains('|'),
        bound_bytes(scope, key_id) == bound_bytes(other_scope, other_id),
    ensures
        scope == other_scope,
        key_id == other_id,
{
    let a = binding(scope, key_id);
    let b = binding(other_scope, other_id);
    vstd::utf8::encode_utf8_decode_utf8(a);
    vstd::utf8::encode_utf8_decode_utf8(b);
    assert(a == b);
    let head = "kiki-config/v1"@ + "|"@;
    assert(a =~= head + (scope + "|"@ + key_id));
    assert(b =~= head + (other_scope + "|"@ + other_id));
    assert(a.skip(head.len() as int) =~= scope + "|"@ + key_id);
    assert(b.skip(head.len() as int) =~= other_scope + "|"@ + other_id);
    lemma_cut(scope, key_id, other_scope, other_id);
}

} // verus!
