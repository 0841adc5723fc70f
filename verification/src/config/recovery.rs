//! Recovery codes: twenty-four words that give a key where the password is lost.

use vstd::prelude::*;
use bip39::{Language, Mnemonic};
use crate::config::crypto;
use crate::config::crypto::CryptoError;
use crate::config::crypto::CryptoErrorView;
use crate::config::crypto::KdfParams;
use crate::config::crypto::KdfView;
use crate::config::crypto::MasterKey;
use crate::config::keystore;
use crate::text;

verus! {

/// Why a phrase is no recovery code.
pub enum RecoveryError {
    Bip39(String),
    /// The phrase holds less than a key needs.
    BadEntropyLength,
}

/// What such a failure is.
#[verifier::ext_equal]
pub enum RecoveryErrorView {
    Bip39(Seq<char>),
    BadEntropyLength,
}

impl View for RecoveryError {
    type V = RecoveryErrorView;

    open spec fn view(&self) -> RecoveryErrorView {
        match self {
            RecoveryError::Bip39(t) => RecoveryErrorView::Bip39(t@),
            RecoveryError::BadEntropyLength => RecoveryErrorView::BadEntropyLength,
        }
    }
}

impl RecoveryErrorView {
    /// The failure in words.
    pub open spec fn message(self) -> Seq<char> {
        match self {
            RecoveryErrorView::Bip39(t) => "bip39 error: "@ + t,
            RecoveryErrorView::BadEntropyLength =>
                "recovery code did not produce a key of length 32"@,
        }
    }
}

impl RecoveryError {
    /// The failure in words.
    pub fn message(&self) -> (words: String)
        ensures
            words@ == self@.message(),
    {
        match self {
            RecoveryError::Bip39(t) => "bip39 error: ".to_string().concat(t.as_str()),
            RecoveryError::BadEntropyLength =>
                "recovery code did not produce a key of length 32".to_string(),
        }
    }
}

// ---------------------------------------------------------------------------
// Outside functions
// ---------------------------------------------------------------------------

/// The mnemonic that a phrase holds, in its plain form, or why it holds none.
pub uninterp spec fn mnemonic(phrase: Seq<char>) -> Result<Seq<char>, Seq<char>>;

/// The seed of a mnemonic.
pub uninterp spec fn seed_of(phrase: Seq<char>) -> Seq<u8>;

/// Whether a phrase is a mnemonic in its plain form.
pub open spec fn is_mnemonic(phrase: Seq<char>) -> bool {
    mnemonic(phrase) matches Ok(p) && p == phrase
}

/// What an attempt to read a phrase gave.
pub open spec fn phrase_result(r: Result<String, String>) -> Result<Seq<char>, Seq<char>> {
    match r {
        Ok(p) => Ok(p@),
        Err(e) => Err(e@),
    }
}

/// `bip39::Mnemonic::generate` of twenty-four words, printed: a mnemonic in its plain
/// form with that many words. It refuses no more than a wrong number of words, so that
/// it gives one. Which one is a matter of chance.
#[verifier::external_body]
fn generate_phrase() -> (phrase: Result<String, String>)
    ensures
        phrase is Ok,
        phrase matches Ok(p) ==> is_mnemonic(p@) && text::words(p@).len() == 24,
{
    Mnemonic::generate(24).map(|m| m.to_string()).map_err(|e| e.to_string())
}

/// `bip39::Mnemonic::parse_in` in English, printed: the mnemonic in its plain form, or
/// the words of the error where a word is not known, their number is wrong or the
/// checksum does not hold. The phrase alone decides, and the plain form holds itself.
#[verifier::external_body]
fn read_phrase(phrase: &str) -> (plain: Result<String, String>)
    ensures
        phrase_result(plain) == mnemonic(phrase@),
        plain matches Ok(p) ==> is_mnemonic(p@),
{
    Mnemonic::parse_in(Language::English, phrase).map(|m| m.to_string()).map_err(|e| e.to_string())
}

/// `bip39::Mnemonic::to_seed` without a passphrase, of the mnemonic that the phrase
/// holds: 64 bytes that the phrase alone decides.
#[verifier::external_body]
fn phrase_seed(phrase: &str) -> (seed: Vec<u8>)
    requires
        is_mnemonic(phrase@),
    ensures
        seed@ == seed_of(phrase@),
        seed@.len() == 64,
{
    Mnemonic::parse_in(Language::English, phrase).unwrap().to_seed("").to_vec()
}

/// The digit of a number below sixteen.
pub open spec fn hex_digit(n: int) -> char {
    if n < 10 {
        (48 + n) as char
    } else {
        (87 + n) as char
    }
}

/// Bytes as two digits each.
pub open spec fn hex_text(bytes: Seq<u8>) -> Seq<char> {
    Seq::new(
        2 * bytes.len(),
        |i: int|
            if i % 2 == 0 {
                hex_digit(bytes[i / 2] as int / 16)
            } else {
                hex_digit(bytes[i / 2] as int % 16)
            },
    )
}

/// `hex::encode`: each byte as two lower-case digits, the higher one first.
#[verifier::external_body]
fn to_hex(bytes: &Vec<u8>) -> (text: String)
    ensures
        text@ == hex_text(bytes@),
{
    hex::encode(bytes)
}

// ---------------------------------------------------------------------------
// Codes
// ---------------------------------------------------------------------------

/// Whether a phrase is a recovery code in its plain form.
pub open spec fn is_code(phrase: Seq<char>) -> bool {
    is_mnemonic(phrase) && text::words(phrase).len() == 24
}

/// The recovery code that a phrase holds, or why it holds none.
pub open spec fn code_of(phrase: Seq<char>) -> Result<Seq<char>, RecoveryErrorView> {
    match mnemonic(phrase) {
        Err(e) => Err(RecoveryErrorView::Bip39(e)),
        Ok(plain) => if text::words(plain).len() == 24 {
            Ok(plain)
        } else {
            Err(RecoveryErrorView::BadEntropyLength)
        },
    }
}

/// A recovery code.
pub struct RecoveryCode {
    phrase: String,
}

impl View for RecoveryCode {
    type V = Seq<char>;

    closed spec fn view(&self) -> Seq<char> {
        self.phrase@
    }
}

impl RecoveryCode {
    #[verifier::type_invariant]
    spec fn is_valid(self) -> bool {
        is_code(self.phrase@)
    }

    /// A fresh code.
    pub fn generate() -> (code: Result<RecoveryCode, RecoveryError>)
        ensures
            code matches Ok(c) && is_code(c@) && code_of(c@) == Ok::<
                Seq<char>,
                RecoveryErrorView,
            >(c@),
    {
        match generate_phrase() {
            Ok(phrase) => Ok(RecoveryCode { phrase }),
            Err(e) => Err(RecoveryError::Bip39(e)),
        }
    }

    /// The code that a phrase of twenty-four words holds.
    pub fn parse(phrase: &str) -> (code: Result<RecoveryCode, RecoveryError>)
        ensures
            (match code {
                Ok(c) => Ok(c@),
                Err(e) => Err(e@),
            }) == code_of(phrase@),
            code matches Ok(c) ==> is_code(c@),
    {
        match read_phrase(phrase) {
            Err(e) => Err(RecoveryError::Bip39(e)),
            Ok(plain) => {
                let words = text::split_words(plain.as_str());
                assert(words@.len() == text::words(plain@).len());
                if words.len() == 24 {
                    Ok(RecoveryCode { phrase: plain })
                } else {
                    Err(RecoveryError::BadEntropyLength)
                }
            },
        }
    }

    /// The phrase to show to the user.
    pub fn phrase(&self) -> (phrase: String)
        ensures
            phrase@ == self@,
            is_code(phrase@),
    {
        proof {
            use_type_invariant(self);
        }
        self.phrase.clone()
    }
}

/// A fresh code.
pub fn generate_recovery_code() -> (code: Result<RecoveryCode, RecoveryError>)
    ensures
        code matches Ok(c) && is_code(c@) && code_of(c@) == Ok::<
            Seq<char>,
            RecoveryErrorView,
        >(c@),
{
    RecoveryCode::generate()
}

/// The key that a recovery code and the parameters of its owner give: the one for the
/// seed of the code as a password.
pub open spec fn recovered_key(code: Seq<char>, params: KdfView) -> Result<
    Seq<u8>,
    CryptoErrorView,
> {
    crypto::derived_key(hex_text(seed_of(code)), params)
}

/// Derives the key of a recovery code.
pub fn recover_master_key(code: &RecoveryCode, params: &KdfParams) -> (key: Result<
    MasterKey,
    CryptoError,
>)
    ensures
        crypto::key_result(key) == recovered_key(code@, params@),
        key matches Ok(k) ==> k@.len() == crypto::KEY_LEN,
{
    proof {
        use_type_invariant(code);
    }
    let mut seed = phrase_seed(code.phrase.as_str());
    let password = to_hex(&seed);
    let key = crypto::derive_master_key(password.as_str(), params);
    keystore::zero_buffer(&mut seed);
    key
}

/// The phrase of a code, written down and read again, is the same code, and so gives the
/// same key.
pub proof fn lemma_code_comes_back(code: Seq<char>, params: KdfView)
    requires
        is_code(code),
    ensures
        code_of(code) matches Ok(c) && c == code && recovered_key(c, params) == recovered_key(
            code,
            params,
        ),
{
}

} // verus!
