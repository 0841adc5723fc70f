//! Where credentials are kept.

use vstd::prelude::*;
use crate::config::crypto;
use crate::config::crypto::MasterKey;
use crate::config::crypto::Sealed;
use crate::config::sync;
use crate::json;
use crate::oauth::handle::OAuthError;
use crate::oauth::handle::OAuthErrorView;
use crate::path;
use crate::sorted_map;
use crate::sorted_map::SortedMap;
use crate::text;

verus! {

/// A store of secrets by their handles.
pub trait SecretStore: Sized {
    /// What the store holds.
    spec fn secrets(&self) -> Map<Seq<char>, Seq<u8>>;

    /// Whether the store takes and gives every secret. One that can fail on its own, such
    /// as a store on a disk, does not say so.
    spec fn takes_all(&self) -> bool;

    /// Keeps a secret.
    fn put(&mut self, key: &str, plaintext: &Vec<u8>) -> (result: Result<(), OAuthError>)
        ensures
            old(self).takes_all() ==> result is Ok && final(self).takes_all(),
            result is Ok ==> final(self).secrets() == old(self).secrets().insert(
                key@,
                plaintext@,
            ),
    ;

    /// The secret of a handle.
    fn get(&self, key: &str) -> (secret: Result<Option<Vec<u8>>, OAuthError>)
        ensures
            self.takes_all() ==> secret is Ok,
            secret matches Ok(s) ==> crypto::opt_bytes(s) == kept(self.secrets(), key@),
    ;

    /// Removes a secret.
    fn delete(&mut self, key: &str) -> (result: Result<(), OAuthError>)
        ensures
            old(self).takes_all() ==> result is Ok && final(self).takes_all(),
            result is Ok ==> final(self).secrets() == old(self).secrets().remove(key@),
    ;
}

/// The secret of a handle, if there is one.
pub open spec fn kept(secrets: Map<Seq<char>, Seq<u8>>, key: Seq<char>) -> Option<Seq<u8>> {
    if secrets.dom().contains(key) {
        Some(secrets[key])
    } else {
        None
    }
}

/// A store in memory, where nothing is sealed.
pub struct MemorySecretStore {
    map: SortedMap<Vec<u8>>,
}

impl Default for MemorySecretStore {
    fn default() -> (store: Self)
        ensures
            store.secrets() == Map::<Seq<char>, Seq<u8>>::empty(),
    {
        MemorySecretStore::new()
    }
}

impl MemorySecretStore {
    /// An empty store.
    pub fn new() -> (store: Self)
        ensures
            store.secrets() == Map::<Seq<char>, Seq<u8>>::empty(),
    {
        let store = MemorySecretStore { map: SortedMap::new() };
        assert(store.secrets() =~= Map::<Seq<char>, Seq<u8>>::empty());
        store
    }
}

fn copy_bytes(bytes: &Vec<u8>) -> (copy: Vec<u8>)
    ensures
        copy@ == bytes@,
{
    let mut copy: Vec<u8> = Vec::new();
    let mut i: usize = 0;
    while i < bytes.len()
        invariant
            i <= bytes.len(),
            copy@ == bytes@.take(i as int),
        decreases bytes.len() - i,
    {
        copy.push(bytes[i]);
        i += 1;
        assert(copy@ =~= bytes@.take(i as int));
    }
    assert(bytes@.take(i as int) =~= bytes@);
    copy
}

impl SecretStore for MemorySecretStore {
    closed spec fn secrets(&self) -> Map<Seq<char>, Seq<u8>> {
        sorted_map::as_map(sorted_map::deep(self.map@))
    }

    open spec fn takes_all(&self) -> bool {
        true
    }

    fn put(&mut self, key: &str, plaintext: &Vec<u8>) -> (result: Result<(), OAuthError>)
        ensures
            result is Ok,
    {
        let copy = copy_bytes(plaintext);
        let ghost before = self.map@;
        self.map.insert(key, copy);
        proof {
            sorted_map::lemma_deep_put(before, key@, copy);
            sorted_map::lemma_deep_map(before);
            sorted_map::lemma_put(sorted_map::deep(before), key@, copy@);
        }
        Ok(())
    }

    fn get(&self, key: &str) -> (secret: Result<Option<Vec<u8>>, OAuthError>)
        ensures
            secret is Ok,
    {
        proof {
            sorted_map::lemma_deep_map(self.map@);
        }
        match self.map.get(key) {
            Some(bytes) => Ok(Some(copy_bytes(bytes))),
            None => Ok(None),
        }
    }

    fn delete(&mut self, key: &str) -> (result: Result<(), OAuthError>)
        ensures
            result is Ok,
    {
        let ghost before = self.map@;
        let _ = self.map.remove(key);
        proof {
            sorted_map::lemma_deep_without(before, key@);
            sorted_map::lemma_deep_map(before);
            sorted_map::lemma_without(sorted_map::deep(before), key@);
        }
        Ok(())
    }
}

// ---------------------------------------------------------------------------
// Sealed files
// ---------------------------------------------------------------------------

/// What a file holds that was written for a secret: the document of the sealed secret.
pub open spec fn opened_file(key: Seq<u8>, handle: Seq<char>, raw: Seq<u8>) -> Result<
    Seq<u8>,
    OAuthErrorView,
> {
    match text::utf8_text(raw) {
        None => Err(OAuthErrorView::Secret("invalid utf-8"@)),
        Some(t) => match json::reading(t) {
            Err(e) => Err(OAuthErrorView::Secret(e)),
            Ok(v) => match crypto::sealed_of_json(v) {
                None => Err(OAuthErrorView::Secret("not a sealed secret"@)),
                Some(s) => match crypto::open_view(key, "oauth"@, handle, s) {
                    Ok(p) => Ok(p),
                    Err(e) => Err(OAuthErrorView::Secret(e.message())),
                },
            },
        },
    }
}

/// The name of the file of a secret: the handle, with all but letters, digits, hyphen,
/// underscore, dot and tilde escaped.
pub open spec fn file_name(key: Seq<char>) -> Seq<char> {
    sync::url_escaped(key) + ".json"@
}

/// The file of a secret in a directory.
pub open spec fn secret_file(dir: Seq<char>, key: Seq<char>) -> Seq<char> {
    path::below(dir, file_name(key))
}

/// A store that keeps each secret sealed in a file of its own.
pub struct SealedFileSecretStore {
    key: MasterKey,
    dir: String,
}

impl SealedFileSecretStore {
    /// The key that secrets are sealed under.
    pub closed spec fn key(&self) -> Seq<u8> {
        self.key@
    }

    /// The directory of the files.
    pub closed spec fn dir(&self) -> Seq<char> {
        self.dir@
    }

    /// The store with this key in this directory.
    pub fn new(key: MasterKey, dir: &str) -> (store: Self)
        ensures
            store.key() == key@,
            store.dir() == dir@,
    {
        SealedFileSecretStore { key, dir: dir.to_string() }
    }

    /// The file of a secret, which no other secret has.
    pub fn path(&self, key: &str) -> (file: String)
        ensures
            file@ == secret_file(self.dir(), key@),
    {
        let mut name = sync::url_escape(key);
        name.append(".json");
        path::path_below(self.dir.as_str(), name.as_str())
    }

    /// What is written into the file of a secret. Opening it gives the secret back.
    pub fn seal(&self, key: &str, plaintext: &Vec<u8>) -> (file: Result<String, OAuthError>)
        ensures
            match file {
                Ok(t) => opened_file(self.key(), key@, vstd::utf8::encode_utf8(t@)) == Ok::<
                    Seq<u8>,
                    OAuthErrorView,
                >(plaintext@) && exists|nonce: Seq<u8>|
                    nonce.len() == crypto::NONCE_LEN && t@ == json::written(
                        crypto::sealed_json(
                            #[trigger] crypto::seal_view(
                                self.key(),
                                "oauth"@,
                                key@,
                                plaintext@,
                                nonce,
                            )->Ok_0,
                        ),
                    ),
                Err(e) => plaintext@.len() >= 274877906880 && e@ == OAuthErrorView::Secret(
                    crypto::CryptoErrorView::Aead("encryption failed"@).message(),
                ),
            },
    {
        match crypto::seal_secret(&self.key, "oauth", key, plaintext) {
            Ok(sealed) => {
                let v = sealed.to_json();
                let t = json::write(&v);
                proof {
                    text::lemma_utf8_text(t@);
                    crypto::lemma_sealed_comes_back(sealed@);
                    let members = v@->Object_0;
                    assert forall|k: Seq<char>| members.dom().contains(k) implies json::plain(
                        #[trigger] members[k],
                        126,
                    ) by {
                        if k != "nonce_b64"@ {
                            assert(k == "ciphertext_b64"@);
                        }
                    }
                    assert(json::plain(v@, 127));
                }
                Ok(t)
            },
            Err(e) => Err(OAuthError::Secret(e.message())),
        }
    }

    /// The secret in what a file holds.
    pub fn open(&self, key: &str, raw: &Vec<u8>) -> (secret: Result<Vec<u8>, OAuthError>)
        ensures
            (match secret {
                Ok(s) => Ok(s@),
                Err(e) => Err(e@),
            }) == opened_file(self.key(), key@, raw@),
    {
        match text::text_of_bytes(raw) {
            None => Err(OAuthError::Secret("invalid utf-8".to_string())),
            Some(t) => match json::read(t.as_str()) {
                Err(e) => Err(OAuthError::Secret(e)),
                Ok(v) => match Sealed::from_json(&v) {
                    None => Err(OAuthError::Secret("not a sealed secret".to_string())),
                    Some(sealed) => match crypto::open_secret(&self.key, "oauth", key, &sealed) {
                        Ok(p) => Ok(p),
                        Err(e) => Err(OAuthError::Secret(e.message())),
                    },
                },
            },
        }
    }
}

/// The name of a file has no slash in it, so that no handle leads out of the directory.
pub proof fn lemma_file_stays_in_its_directory(key: Seq<char>)
    ensures
        !file_name(key).contains('/'),
{
    reveal_strlit(".json");
    let name = file_name(key);
    assert forall|i: int| 0 <= i < name.len() implies #[trigger] name[i] != '/' by {
        if i < sync::url_escaped(key).len() {
            sync::lemma_escaped_is_safe(key, i);
        }
    }
}

/// Two handles never share a file, so that writing or removing one secret leaves every
/// other one alone.
pub proof fn lemma_files_are_apart(dir: Seq<char>, a: Seq<char>, b: Seq<char>)
    ensures
        secret_file(dir, a) == secret_file(dir, b) <==> a == b,
{
    if secret_file(dir, a) == secret_file(dir, b) {
        lemma_below_dir(dir, a);
        lemma_below_dir(dir, b);
        let x = secret_file(dir, a);
        let n = before_name(dir).len();
        assert(x.skip(n as int) =~= file_name(a));
        assert(x.skip(n as int) =~= file_name(b));
        let end = ".json"@.len();
        let y = file_name(a);
        assert(y.take(y.len() - end) =~= sync::url_escaped(a));
        assert(y.take(y.len() - end) =~= sync::url_escaped(b));
        sync::lemma_addresses_are_apart(a, b);
    }
}

/// What stands before the name of a file in a directory.
spec fn before_name(dir: Seq<char>) -> Seq<char> {
    if dir.len() == 0 || dir.last() == '/' {
        dir
    } else {
        dir + "/"@
    }
}

proof fn lemma_below_dir(dir: Seq<char>, key: Seq<char>)
    ensures
        secret_file(dir, key) == before_name(dir) + file_name(key),
{
    lemma_file_stays_in_its_directory(key);
    reveal_strlit("/");
    let name = file_name(key);
    if text::begins(name, "/"@) {
        assert(name.take(1) == "/"@);
        assert(name[0] == name.take(1)[0]);
        assert(name.contains('/'));
    }
}

} // verus!
