//! The secret store behind `KeychainStorage`: an operating-system credential
//! vault, or an in-memory map.
use vstd::prelude::*;
use vstd::hash_map::StringHashMap;

verus! {

/// How a vault operation failed.
#[derive(Debug, Clone, Copy, PartialEq, Eq)]
pub enum VaultError {
    /// No secret is stored under the key.
    NoEntry,
    /// The vault could not be used (locked, unavailable, rejected the value...).
    Failed,
}

/// A key-value store for secrets.
///
/// A vault is *faithful* when its answers agree with the map `entries()`: a
/// successful `store` inserts the pair, a successful `delete` removes the key,
/// `get` gives the stored secret or `NoEntry` when there is none, and a call
/// that fails with `Failed` changes nothing. A faithful vault may still fail
/// any call.
///
/// A faithful vault is moreover *steady* when its failures are fixed by three
/// predicates that its own calls do not change: when it is not `available`
/// every call fails; otherwise `get` never fails but with `NoEntry`, `store`
/// succeeds exactly when the vault `accepts` the pair, and `delete` exactly
/// when it `releases` the key.
///
/// The operating-system vault is claimed neither: other programs share it.
pub trait Vault: Sized {
    /// The secrets held, by key.
    open spec fn entries(&self) -> Map<Seq<char>, Seq<char>> {
        Map::empty()
    }

    /// Whether the vault's answers agree with `entries()`. A vault is not
    /// claimed faithful unless its implementation says so.
    open spec fn faithful(&self) -> bool {
        false
    }

    /// Whether the vault's failures are fixed by `available`, `accepts` and
    /// `releases`.
    open spec fn steady(&self) -> bool {
        false
    }

    /// Whether the vault answers at all.
    open spec fn available(&self) -> bool {
        false
    }

    /// Whether the vault takes `value` under `key`.
    open spec fn accepts(&self, key: Seq<char>, value: Seq<char>) -> bool {
        false
    }

    /// Whether the vault lets `key` be deleted.
    open spec fn releases(&self, key: Seq<char>) -> bool {
        false
    }

    fn store(&mut self, key: &str, secret: &str) -> (r: Result<(), VaultError>)
        ensures
            final(self).faithful() == old(self).faithful(),
            final(self).steady() == old(self).steady(),
            old(self).faithful() ==> match r {
                Ok(()) => final(self).entries() == old(self).entries().insert(key@, secret@),
                Err(e) => e == VaultError::Failed && final(self).entries() == old(self).entries(),
            },
            old(self).faithful() && old(self).steady() ==> final(self).available() == old(self).available(),
            old(self).faithful() && old(self).steady() ==> forall|k: Seq<char>, v: Seq<char>| #[trigger] final(self).accepts(k, v) == old(self).accepts(k, v),
            old(self).faithful() && old(self).steady() ==> forall|k: Seq<char>| #[trigger] final(self).releases(k) == old(self).releases(k),
            old(self).faithful() && old(self).steady() ==> (r is Ok <==> old(self).available() && old(self).accepts(key@, secret@)),
    ;

    fn get(&self, key: &str) -> (r: Result<String, VaultError>)
        ensures
            self.faithful() ==> match r {
                Ok(v) => self.entries().contains_key(key@) && self.entries()[key@] == v@,
                Err(e) => e == VaultError::NoEntry ==> !self.entries().contains_key(key@),
            },
            self.faithful() && self.steady() && self.available() ==> r is Ok || r == Err::<String, VaultError>(VaultError::NoEntry),
            self.faithful() && self.steady() && !self.available() ==> r == Err::<String, VaultError>(VaultError::Failed),
    ;

    fn delete(&mut self, key: &str) -> (r: Result<(), VaultError>)
        ensures
            final(self).faithful() == old(self).faithful(),
            final(self).steady() == old(self).steady(),
            old(self).faithful() ==> match r {
                Ok(()) => final(self).entries() == old(self).entries().remove(key@),
                Err(e) => final(self).entries() == old(self).entries() && (e == VaultError::NoEntry
                    ==> !old(self).entries().contains_key(key@)),
            },
            old(self).faithful() && old(self).steady() ==> final(self).available() == old(self).available(),
            old(self).faithful() && old(self).steady() ==> forall|k: Seq<char>, v: Seq<char>| #[trigger] final(self).accepts(k, v) == old(self).accepts(k, v),
            old(self).faithful() && old(self).steady() ==> forall|k: Seq<char>| #[trigger] final(self).releases(k) == old(self).releases(k),
            old(self).faithful() && old(self).steady() ==> r == if old(self).available() && old(self).releases(key@) {
                Ok::<(), VaultError>(())
            } else {
                Err::<(), VaultError>(VaultError::Failed)
            },
    ;
}

/// Two states of a steady faithful vault answer alike: same availability, same
/// accepted pairs, same released keys.
pub open spec fn same_terms<V: Vault>(a: V, b: V) -> bool {
    &&& a.faithful() == b.faithful()
    &&& a.steady() == b.steady()
    &&& a.available() == b.available()
    &&& forall|k: Seq<char>, v: Seq<char>| #[trigger] b.accepts(k, v) == a.accepts(k, v)
    &&& forall|k: Seq<char>| #[trigger] b.releases(k) == a.releases(k)
}

/// Answering alike is transitive.
pub proof fn lemma_same_terms_trans<V: Vault>(a: V, b: V, c: V)
    requires
        same_terms(a, b),
        same_terms(b, c),
    ensures
        same_terms(a, c),
{
    assert forall|k: Seq<char>, v: Seq<char>| #[trigger] c.accepts(k, v) == a.accepts(k, v) by {
        assert(b.accepts(k, v) == a.accepts(k, v));
    }
    assert forall|k: Seq<char>| #[trigger] c.releases(k) == a.releases(k) by {
        assert(b.releases(k) == a.releases(k));
    }
}

/// A vault that keeps its secrets in process memory.
pub struct MemoryVault {
    items: StringHashMap<String>,
}

impl MemoryVault {
    /// An empty in-memory vault.
    pub fn new() -> (v: Self)
        ensures
            v.entries() == Map::<Seq<char>, Seq<char>>::empty(),
            v.faithful(),
            v.steady(),
            v.available(),
            forall|k: Seq<char>, s: Seq<char>| #[trigger] v.accepts(k, s),
            forall|k: Seq<char>| #[trigger] v.releases(k),
    {
        let v = MemoryVault { items: StringHashMap::new() };
        assert(v.entries() =~= Map::<Seq<char>, Seq<char>>::empty());
        v
    }
}

impl Vault for MemoryVault {
    closed spec fn entries(&self) -> Map<Seq<char>, Seq<char>> {
        self.items@.map_values(|v: String| v@)
    }

    open spec fn faithful(&self) -> bool {
        true
    }

    open spec fn steady(&self) -> bool {
        true
    }

    open spec fn available(&self) -> bool {
        true
    }

    open spec fn accepts(&self, key: Seq<char>, value: Seq<char>) -> bool {
        true
    }

    open spec fn releases(&self, key: Seq<char>) -> bool {
        true
    }

    /// An in-memory vault never refuses a secret.
    fn store(&mut self, key: &str, secret: &str) -> (r: Result<(), VaultError>)
        ensures
            r is Ok,
    {
        self.items.insert(key.to_owned(), secret.to_owned());
        assert(self.entries() =~= old(self).entries().insert(key@, secret@));
        Ok(())
    }

    fn get(&self, key: &str) -> (r: Result<String, VaultError>) {
        match self.items.get(key) {
            Some(v) => Ok(v.clone()),
            None => Err(VaultError::NoEntry),
        }
    }

    fn delete(&mut self, key: &str) -> (r: Result<(), VaultError>) {
        self.items.remove(key);
        assert(self.entries() =~= old(self).entries().remove(key@));
        Ok(())
    }
}

/// A request made of the operating-system vault: the credential it addresses
/// (the service name and, as the user, the key) and, for a write, the password.
pub enum KeyringCall {
    Store { service: Seq<char>, user: Seq<char>, password: Seq<char> },
    Delete { service: Seq<char>, user: Seq<char> },
}

/// The operating-system credential vault (Keychain, Credential Manager, kernel
/// keyring), under the service name `service`. `requests` records, in order,
/// the writes and deletes handed to it.
pub struct NativeVault {
    pub service: String,
    pub requests: Ghost<Seq<KeyringCall>>,
}

impl NativeVault {
    /// The operating-system vault under the service name `service`, with no
    /// request made yet.
    pub fn new(service: String) -> (v: Self)
        ensures
            v.service == service,
            v.requests@ == Seq::<KeyringCall>::empty(),
    {
        NativeVault { service, requests: Ghost(Seq::empty()) }
    }
}

impl Vault for NativeVault {
    /// Saves `secret` as the password of the credential (`service`, `key`).
    fn store(&mut self, key: &str, secret: &str) -> (r: Result<(), VaultError>)
        ensures
            final(self).service == old(self).service,
            final(self).requests@ == old(self).requests@.push(
                KeyringCall::Store { service: old(self).service@, user: key@, password: secret@ },
            ),
    {
        let entry = match keyring_entry(self.service.as_str(), key) {
            Ok(e) => e,
            Err(e) => {
                self.requests = Ghost(self.requests@.push(
                    KeyringCall::Store { service: self.service@, user: key@, password: secret@ },
                ));
                return Err(e);
            },
        };
        self.requests = Ghost(self.requests@.push(
            KeyringCall::Store { service: entry.service@, user: entry.user@, password: secret@ },
        ));
        keyring_set_password(&entry, secret)
    }

    /// Reads the password of the credential (`service`, `key`). A read is not
    /// recorded in `requests`: the vault is taken by shared reference.
    fn get(&self, key: &str) -> (r: Result<String, VaultError>) {
        let entry = keyring_entry(self.service.as_str(), key)?;
        keyring_get_password(&entry)
    }

    /// Deletes the credential (`service`, `key`).
    fn delete(&mut self, key: &str) -> (r: Result<(), VaultError>)
        ensures
            final(self).service == old(self).service,
            final(self).requests@ == old(self).requests@.push(
                KeyringCall::Delete { service: old(self).service@, user: key@ },
            ),
    {
        let entry = match keyring_entry(self.service.as_str(), key) {
            Ok(e) => e,
            Err(e) => {
                self.requests = Ghost(self.requests@.push(KeyringCall::Delete { service: self.service@, user: key@ }));
                return Err(e);
            },
        };
        self.requests = Ghost(self.requests@.push(KeyringCall::Delete { service: entry.service@, user: entry.user@ }));
        keyring_delete_credential(&entry)
    }
}

#[verifier::external_type_specification]
#[verifier::external_body]
pub struct ExKeyringEntry(keyring::Entry);

/// A platform credential with the service name and user it was made for.
pub struct KeyringEntry {
    entry: keyring::Entry,
    pub service: String,
    pub user: String,
}

/// `keyring::Entry::new`: the platform credential for `service` and `user`,
/// kept with the two names it was made for. Whether it can be made is not
/// stated: it depends on the platform store. `keyring::Error::NoEntry` becomes
/// `NoEntry`, every other error `Failed`.
#[verifier::external_body]
fn keyring_entry(service: &str, user: &str) -> (r: Result<KeyringEntry, VaultError>)
    ensures
        r matches Ok(e) ==> e.service@ == service@ && e.user@ == user@,
{
    match keyring::Entry::new(service, user) {
        Ok(entry) => Ok(KeyringEntry { entry, service: service.to_owned(), user: user.to_owned() }),
        Err(keyring::Error::NoEntry) => Err(VaultError::NoEntry),
        Err(_) => Err(VaultError::Failed),
    }
}

/// `keyring::Entry::set_password`: saves `password` in the platform store.
/// Nothing is stated of the outcome: it depends on the platform store.
#[verifier::external_body]
fn keyring_set_password(entry: &KeyringEntry, password: &str) -> (r: Result<(), VaultError>) {
    match entry.entry.set_password(password) {
        Ok(()) => Ok(()),
        Err(keyring::Error::NoEntry) => Err(VaultError::NoEntry),
        Err(_) => Err(VaultError::Failed),
    }
}

/// `keyring::Entry::get_password`: reads the saved password from the platform store.
/// Nothing is stated of the outcome: it depends on the platform store.
#[verifier::external_body]
fn keyring_get_password(entry: &KeyringEntry) -> (r: Result<String, VaultError>) {
    match entry.entry.get_password() {
        Ok(password) => Ok(password),
        Err(keyring::Error::NoEntry) => Err(VaultError::NoEntry),
        Err(_) => Err(VaultError::Failed),
    }
}

/// `keyring::Entry::delete_credential`: removes the credential from the platform store.
/// Nothing is stated of the outcome: it depends on the platform store.
#[verifier::external_body]
fn keyring_delete_credential(entry: &KeyringEntry) -> (r: Result<(), VaultError>) {
    match entry.entry.delete_credential() {
        Ok(()) => Ok(()),
        Err(keyring::Error::NoEntry) => Err(VaultError::NoEntry),
        Err(_) => Err(VaultError::Failed),
    }
}

} // verus!
