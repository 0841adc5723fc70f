//! Where an unlocked key is kept between boots.

use vstd::prelude::*;
use zeroize::Zeroize;
use crate::config::crypto;
use crate::config::crypto::MasterKey;
use crate::sorted_map;
use crate::sorted_map::SortedMap;

verus! {

/// Why a key could not be kept or found.
pub enum KeystoreError {
    /// The platform has no store.
    Unavailable,
    NotFound(String),
    Backend(String),
}

/// What such a failure is.
#[verifier::ext_equal]
pub enum KeystoreErrorView {
    Unavailable,
    NotFound(Seq<char>),
    Backend(Seq<char>),
}

impl View for KeystoreError {
    type V = KeystoreErrorView;

    open spec fn view(&self) -> KeystoreErrorView {
        match self {
            KeystoreError::Unavailable => KeystoreErrorView::Unavailable,
            KeystoreError::NotFound(t) => KeystoreErrorView::NotFound(t@),
            KeystoreError::Backend(t) => KeystoreErrorView::Backend(t@),
        }
    }
}

impl KeystoreErrorView {
    /// The failure in words.
    pub open spec fn message(self) -> Seq<char> {
        match self {
            KeystoreErrorView::Unavailable =>
                "keystore not available on this platform; use Keystore::memory()"@,
            KeystoreErrorView::NotFound(t) => "entry not found for account `"@ + t + "`"@,
            KeystoreErrorView::Backend(t) => "backend error: "@ + t,
        }
    }
}

impl KeystoreError {
    /// The failure in words.
    pub fn message(&self) -> (words: String)
        ensures
            words@ == self@.message(),
    {
        match self {
            KeystoreError::Unavailable =>
                "keystore not available on this platform; use Keystore::memory()".to_string(),
            KeystoreError::NotFound(t) => {
                let mut words = "entry not found for account `".to_string();
                words.append(t.as_str());
                words.append("`");
                words
            },
            KeystoreError::Backend(t) => "backend error: ".to_string().concat(t.as_str()),
        }
    }
}

/// A store of keys by account.
pub enum Keystore {
    /// In memory: gone when the process ends.
    Memory(SortedMap<MasterKey>),
    /// The secret service of the desktop, which is not connected.
    Secret,
}

/// What a store is: the keys of the accounts, or a store that cannot be reached.
#[verifier::ext_equal]
pub enum KeystoreView {
    Memory(Map<Seq<char>, Seq<u8>>),
    Secret,
}

impl View for Keystore {
    type V = KeystoreView;

    open spec fn view(&self) -> KeystoreView {
        match self {
            Keystore::Memory(m) => KeystoreView::Memory(
                sorted_map::as_map(sorted_map::deep(m@)),
            ),
            Keystore::Secret => KeystoreView::Secret,
        }
    }
}

/// `zeroize::Zeroize::zeroize` on a vector: its bytes are made zero, and it is left
/// empty.
#[verifier::external_body]
pub(crate) fn zero_buffer(buffer: &mut Vec<u8>)
    ensures
        final(buffer)@ == Seq::<u8>::empty(),
{
    buffer.zeroize();
}

/// The key in a buffer that a store gave, which must be as long as a key is. The
/// buffer is wiped.
pub fn key_of_buffer(buffer: Vec<u8>) -> (key: Result<MasterKey, KeystoreError>)
    ensures
        match key {
            Ok(k) => buffer@.len() == crypto::KEY_LEN && k@ == buffer@,
            Err(e) => buffer@.len() != crypto::KEY_LEN && e@ == KeystoreErrorView::Backend(
                "bad key length"@,
            ),
        },
{
    let mut buffer = buffer;
    if buffer.len() != crypto::KEY_LEN {
        zero_buffer(&mut buffer);
        return Err(KeystoreError::Backend("bad key length".to_string()));
    }
    let mut bytes: [u8; 32] = [0; 32];
    let mut i: usize = 0;
    while i < 32
        invariant
            i <= 32,
            buffer@.len() == 32,
            bytes@.len() == 32,
            forall|k: int| 0 <= k < i ==> bytes@[k] == buffer@[k],
        decreases 32 - i,
    {
        bytes[i] = buffer[i];
        i += 1;
    }
    assert(bytes@ =~= buffer@);
    zero_buffer(&mut buffer);
    Ok(MasterKey::from_bytes(bytes))
}

fn copy_key(key: &MasterKey) -> (copy: MasterKey)
    ensures
        copy@ == key@,
{
    MasterKey::from_bytes(*key.as_bytes())
}

impl Keystore {
    /// An empty store in memory.
    pub fn memory() -> (store: Self)
        ensures
            store@ == KeystoreView::Memory(Map::empty()),
    {
        let store = Keystore::Memory(SortedMap::new());
        assert(store@->Memory_0 =~= Map::<Seq<char>, Seq<u8>>::empty());
        store
    }

    /// The store to use where no store of the platform is connected: an empty one in
    /// memory.
    pub fn platform() -> (store: Self)
        ensures
            store@ == KeystoreView::Memory(Map::empty()),
    {
        Keystore::memory()
    }

    /// Keeps the key of an account.
    pub fn put(&mut self, account: &str, key: &MasterKey) -> (result: Result<(), KeystoreError>)
        ensures
            match old(self)@ {
                KeystoreView::Memory(keys) => result is Ok && final(self)@
                    == KeystoreView::Memory(keys.insert(account@, key@)),
                KeystoreView::Secret => final(self)@ == old(self)@ && (result matches Err(e)
                    && e@ == KeystoreErrorView::Unavailable),
            },
    {
        match self {
            Keystore::Memory(keys) => {
                let ghost before = keys@;
                let copy = copy_key(key);
                keys.insert(account, copy);
                proof {
                    sorted_map::lemma_deep_put(before, account@, copy);
                    sorted_map::lemma_deep_map(before);
                    sorted_map::lemma_put(sorted_map::deep(before), account@, copy@);
                }
                Ok(())
            },
            Keystore::Secret => Err(KeystoreError::Unavailable),
        }
    }

    /// The key of an account.
    pub fn get(&self, account: &str) -> (key: Result<MasterKey, KeystoreError>)
        ensures
            match self@ {
                KeystoreView::Memory(keys) => match key {
                    Ok(k) => keys.dom().contains(account@) && k@ == keys[account@],
                    Err(e) => !keys.dom().contains(account@) && e@ == KeystoreErrorView::NotFound(
                        account@,
                    ),
                },
                KeystoreView::Secret => key matches Err(e) && e@ == KeystoreErrorView::Unavailable,
            },
    {
        match self {
            Keystore::Memory(keys) => {
                proof {
                    sorted_map::lemma_deep_map(keys@);
                }
                match keys.get(account) {
                    Some(key) => Ok(copy_key(key)),
                    None => Err(KeystoreError::NotFound(account.to_string())),
                }
            },
            Keystore::Secret => Err(KeystoreError::Unavailable),
        }
    }

    /// Forgets the key of an account.
    pub fn forget(&mut self, account: &str) -> (result: Result<(), KeystoreError>)
        ensures
            match old(self)@ {
                KeystoreView::Memory(keys) => result is Ok && final(self)@
                    == KeystoreView::Memory(keys.remove(account@)),
                KeystoreView::Secret => final(self)@ == old(self)@ && (result matches Err(e)
                    && e@ == KeystoreErrorView::Unavailable),
            },
    {
        match self {
            Keystore::Memory(keys) => {
                let ghost before = keys@;
                let removed = keys.remove(account);
                proof {
                    sorted_map::lemma_deep_without(before, account@);
                    sorted_map::lemma_deep_map(before);
                    sorted_map::lemma_without(sorted_map::deep(before), account@);
                }
                if let Some(key) = removed {
                    let mut key = key;
                    key.wipe();
                }
                Ok(())
            },
            Keystore::Secret => Err(KeystoreError::Unavailable),
        }
    }
}

// ---------------------------------------------------------------------------
// The keychain
// ---------------------------------------------------------------------------

/// The code by which a keychain says that it has no such entry.
pub const NO_SUCH_ENTRY: i32 = -25300;

/// The keychain under which keys are kept as passwords of accounts. Each function takes
/// what the keychain gave: the code of its error with its words, where it failed.
pub struct Keychain;

impl Keychain {
    /// What came of keeping a key.
    pub fn put(outcome: Result<(), (i32, String)>) -> (result: Result<(), KeystoreError>)
        ensures
            match outcome {
                Ok(_) => result is Ok,
                Err((code, words)) => result matches Err(e) && e@ == KeystoreErrorView::Backend(
                    words@,
                ),
            },
    {
        match outcome {
            Ok(()) => Ok(()),
            Err((_, words)) => Err(KeystoreError::Backend(words)),
        }
    }

    /// The key of an account, in what the keychain gave for it.
    pub fn get(account: &str, outcome: Result<Vec<u8>, (i32, String)>) -> (key: Result<
        MasterKey,
        KeystoreError,
    >)
        ensures
            match outcome {
                Ok(bytes) => match key {
                    Ok(k) => bytes@.len() == crypto::KEY_LEN && k@ == bytes@,
                    Err(e) => bytes@.len() != crypto::KEY_LEN && e@
                        == KeystoreErrorView::Backend("bad key length"@),
                },
                Err((code, words)) => key matches Err(e) && e@ == (if code == NO_SUCH_ENTRY {
                    KeystoreErrorView::NotFound(account@)
                } else {
                    KeystoreErrorView::Backend(words@)
                }),
            },
    {
        match outcome {
            Ok(bytes) => key_of_buffer(bytes),
            Err((code, words)) => if code == NO_SUCH_ENTRY {
                Err(KeystoreError::NotFound(account.to_string()))
            } else {
                Err(KeystoreError::Backend(words))
            },
        }
    }

    /// What came of forgetting a key. One that is gone already is forgotten.
    pub fn forget(outcome: Result<(), (i32, String)>) -> (result: Result<(), KeystoreError>)
        ensures
            match outcome {
                Ok(_) => result is Ok,
                Err((code, words)) => if code == NO_SUCH_ENTRY {
                    result is Ok
                } else {
                    result matches Err(e) && e@ == KeystoreErrorView::Backend(words@)
                },
            },
    {
        match outcome {
            Ok(()) => Ok(()),
            Err((code, words)) => if code == NO_SUCH_ENTRY {
                Ok(())
            } else {
                Err(KeystoreError::Backend(words))
            },
        }
    }
}

/// What is kept is found, what is forgotten is not, and other accounts are left alone.
pub proof fn lemma_kept_until_forgotten(
    keys: Map<Seq<char>, Seq<u8>>,
    account: Seq<char>,
    key: Seq<u8>,
    other: Seq<char>,
)
    ensures
        keys.insert(account, key).dom().contains(account),
        keys.insert(account, key)[account] == key,
        !keys.insert(account, key).remove(account).dom().contains(account),
        other != account ==> (keys.insert(account, key).dom().contains(other)
            <==> keys.dom().contains(other)) && keys.insert(account, key)[other] == keys[other]
            && keys.remove(account)[other] == keys[other],
{
}

} // verus!
