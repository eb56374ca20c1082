//! Where the API keys are kept: the system key store, one account for the
//! instance key and one for the AI server key, and an in-memory store.
use vstd::prelude::*;
use crate::error::AppError;

verus! {

/// A place that holds one secret.
pub trait KeyStore {
    /// The stored secret, if any.
    fn get(&self) -> Result<Option<String>, AppError>;
    /// Stores the secret.
    fn set(&mut self, key: &str) -> Result<(), AppError>;
    /// Forgets the secret (no error when there was none).
    fn delete(&mut self) -> Result<(), AppError>;
}

/// A key store that keeps the secret in memory.
#[derive(Debug)]
pub struct MockKeyStore(pub Option<String>);

impl MockKeyStore {
    /// An empty store.
    pub fn new() -> (r: Self)
        ensures
            r.0 is None,
    {
        MockKeyStore(None)
    }
}

impl Default for MockKeyStore {
    fn default() -> (r: Self)
        ensures
            r.0 is None,
    {
        MockKeyStore(None)
    }
}

impl KeyStore for MockKeyStore {
    fn get(&self) -> (r: Result<Option<String>, AppError>)
        ensures
            r == Ok::<Option<String>, AppError>(self.0),
    {
        match &self.0 {
            Some(k) => Ok(Some(k.clone())),
            None => Ok(None),
        }
    }

    fn set(&mut self, key: &str) -> (r: Result<(), AppError>)
        ensures
            r is Ok,
            final(self).0 is Some && final(self).0->Some_0@ == key@,
    {
        self.0 = Some(crate::text::owned(key));
        Ok(())
    }

    fn delete(&mut self) -> (r: Result<(), AppError>)
        ensures
            r is Ok,
            final(self).0 is None,
    {
        self.0 = None;
        Ok(())
    }
}

/// Service name under which the keys are kept.
pub const SERVICE: &'static str = "jotty-desktop";
/// Account of the instance API key.
pub const ACCOUNT: &'static str = "api-key";
/// Account of the AI server key.
pub const AI_ACCOUNT: &'static str = "openwebui-key";

#[verifier::external_type_specification]
#[verifier::external_body]
pub struct ExKeyringEntry(keyring::Entry);

/// `keyring::Entry::new`: the key store entry of a service and account, or
/// the error's text. What comes back depends on the platform's key store.
#[verifier::external_body]
fn open_entry(service: &str, account: &str) -> (r: Result<keyring::Entry, String>) {
    keyring::Entry::new(service, account).map_err(|e| e.to_string())
}

/// `keyring::Entry::get_password`: the stored password; none when the store
/// has no entry (`Error::NoEntry`); the error's text otherwise. What comes
/// back depends on the platform's key store.
#[verifier::external_body]
fn read_password(entry: &keyring::Entry) -> (r: Result<Option<String>, String>) {
    match entry.get_password() {
        Ok(v) => Ok(Some(v)),
        Err(keyring::Error::NoEntry) => Ok(None),
        Err(e) => Err(e.to_string()),
    }
}

/// `keyring::Entry::set_password`: stores the password, or gives the error's
/// text. What comes back depends on the platform's key store.
#[verifier::external_body]
fn write_password(entry: &keyring::Entry, password: &str) -> (r: Result<(), String>) {
    entry.set_password(password).map_err(|e| e.to_string())
}

/// `keyring::Entry::delete_credential`: removes the entry; no entry
/// (`Error::NoEntry`) counts as done; otherwise the error's text. What comes
/// back depends on the platform's key store.
#[verifier::external_body]
fn remove_password(entry: &keyring::Entry) -> (r: Result<(), String>) {
    match entry.delete_credential() {
        Ok(()) => Ok(()),
        Err(keyring::Error::NoEntry) => Ok(()),
        Err(e) => Err(e.to_string()),
    }
}

/// The secret of an account of the service; key store failures are keyring errors.
pub fn get_for(account: &str) -> (r: Result<Option<String>, AppError>)
    ensures
        r is Err ==> r->Err_0 is Keyring,
{
    let entry = match open_entry(SERVICE, account) {
        Ok(e) => e,
        Err(m) => { return Err(AppError::Keyring(m)); }
    };
    match read_password(&entry) {
        Ok(v) => Ok(v),
        Err(m) => Err(AppError::Keyring(m)),
    }
}

/// Stores the secret of an account of the service.
pub fn set_for(account: &str, key: &str) -> (r: Result<(), AppError>)
    ensures
        r is Err ==> r->Err_0 is Keyring,
{
    let entry = match open_entry(SERVICE, account) {
        Ok(e) => e,
        Err(m) => { return Err(AppError::Keyring(m)); }
    };
    match write_password(&entry, key) {
        Ok(()) => Ok(()),
        Err(m) => Err(AppError::Keyring(m)),
    }
}

/// Forgets the secret of an account of the service.
pub fn delete_for(account: &str) -> (r: Result<(), AppError>)
    ensures
        r is Err ==> r->Err_0 is Keyring,
{
    let entry = match open_entry(SERVICE, account) {
        Ok(e) => e,
        Err(m) => { return Err(AppError::Keyring(m)); }
    };
    match remove_password(&entry) {
        Ok(()) => Ok(()),
        Err(m) => Err(AppError::Keyring(m)),
    }
}

/// The system key store, instance key account.
#[derive(Debug)]
pub struct OsKeyStore;

impl KeyStore for OsKeyStore {
    fn get(&self) -> (r: Result<Option<String>, AppError>)
        ensures
            r is Err ==> r->Err_0 is Keyring,
    {
        get_for(ACCOUNT)
    }

    fn set(&mut self, key: &str) -> (r: Result<(), AppError>)
        ensures
            r is Err ==> r->Err_0 is Keyring,
    {
        set_for(ACCOUNT, key)
    }

    fn delete(&mut self) -> (r: Result<(), AppError>)
        ensures
            r is Err ==> r->Err_0 is Keyring,
    {
        delete_for(ACCOUNT)
    }
}

/// The system key store, AI server key account.
#[derive(Debug)]
pub struct AiOsKeyStore;

impl KeyStore for AiOsKeyStore {
    fn get(&self) -> (r: Result<Option<String>, AppError>)
        ensures
            r is Err ==> r->Err_0 is Keyring,
    {
        get_for(AI_ACCOUNT)
    }

    fn set(&mut self, key: &str) -> (r: Result<(), AppError>)
        ensures
            r is Err ==> r->Err_0 is Keyring,
    {
        set_for(AI_ACCOUNT, key)
    }

    fn delete(&mut self) -> (r: Result<(), AppError>)
        ensures
            r is Err ==> r->Err_0 is Keyring,
    {
        delete_for(AI_ACCOUNT)
    }
}

} // verus!
