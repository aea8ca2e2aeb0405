use std::collections::HashMap;
use std::sync::{Arc, Mutex};

use transfer_credentials::keychain::{chunk_key, KeychainStorage, CHUNK_MANIFEST, SERVICE_NAME};
use transfer_credentials::vault::{Vault, VaultError};

struct UnavailableVault;

impl Vault for UnavailableVault {
    fn store(&mut self, _: &str, _: &str) -> Result<(), VaultError> {
        Err(VaultError::Failed)
    }
    fn get(&self, _: &str) -> Result<String, VaultError> {
        Err(VaultError::Failed)
    }
    fn delete(&mut self, _: &str) -> Result<(), VaultError> {
        Err(VaultError::Failed)
    }
}

#[derive(Clone, Default)]
struct BoundedVault {
    entries: Arc<Mutex<HashMap<String, String>>>,
    fail_part: Option<usize>,
}

impl Vault for BoundedVault {
    fn store(&mut self, key: &str, value: &str) -> Result<(), VaultError> {
        if value.encode_utf16().count() * 2 > 2560
            || self
                .fail_part
                .is_some_and(|n| key.ends_with(&format!(".part.{n}")))
        {
            return Err(VaultError::Failed);
        }
        self.entries
            .lock()
            .unwrap()
            .insert(key.into(), value.into());
        Ok(())
    }
    fn get(&self, key: &str) -> Result<String, VaultError> {
        self.entries
            .lock()
            .unwrap()
            .get(key)
            .cloned()
            .ok_or(VaultError::NoEntry)
    }
    fn delete(&mut self, key: &str) -> Result<(), VaultError> {
        self.entries.lock().unwrap().remove(key);
        Ok(())
    }
}

#[test]
fn vault_failure_is_closed_and_diagnostics_are_redacted() {
    let mut storage = KeychainStorage::with_vault(UnavailableVault);
    let failures = [
        storage.store("key", "synthetic-secret").unwrap_err(),
        storage.get("key").unwrap_err(),
        storage.delete("key").unwrap_err(),
    ];
    for error in failures {
        let text = error.to_string();
        assert!(text.contains("No plaintext credential file was written"));
        assert!(!text.contains("synthetic-secret"));
        assert!(!text.contains("private-diagnostic"));
    }
}

#[test]
fn isolated_vault_round_trip_never_uses_a_plaintext_file() {
    let mut storage = KeychainStorage::for_test();
    assert_eq!(storage.get("key").unwrap(), None);
    storage.store("key", "synthetic-secret").unwrap();
    assert_eq!(
        storage.get("key").unwrap().as_deref(),
        Some("synthetic-secret")
    );
    storage.delete("key").unwrap();
    storage.delete("key").unwrap();
    assert_eq!(storage.get("key").unwrap(), None);
    assert_eq!(SERVICE_NAME, "nextvestment-transfer-credentials");
}

#[test]
fn large_identity_token_roundtrips_with_windows_vault_blob_limit_and_cascading_delete() {
    let backend = BoundedVault::default();
    let inspect = backend.clone();
    let mut storage = KeychainStorage::with_vault(backend);
    let key = format!("identity-center-{}", uuid::Uuid::new_v4());
    let secret = format!("{}{}", "synthetic-token-".repeat(400), "🔒".repeat(700));
    assert!(secret.encode_utf16().count() * 2 > 2560);
    storage.store(&key, &secret).unwrap();
    assert_eq!(storage.get(&key).unwrap(), Some(secret));
    assert!(inspect
        .entries
        .lock()
        .unwrap()
        .values()
        .all(|value| value.encode_utf16().count() * 2 <= 2560));
    assert!(storage.store(&key, "overwrite").is_err());
    storage.delete(&key).unwrap();
    storage.delete(&key).unwrap();
    assert!(inspect.entries.lock().unwrap().is_empty());
}

#[test]
fn partial_chunk_write_rolls_back_without_publishing_manifest() {
    let backend = BoundedVault {
        fail_part: Some(2),
        ..Default::default()
    };
    let inspect = backend.clone();
    let mut storage = KeychainStorage::with_vault(backend);
    let key = format!("identity-center-{}", uuid::Uuid::new_v4());
    assert!(storage.store(&key, &"x".repeat(5000)).is_err());
    assert!(inspect.entries.lock().unwrap().is_empty());
}

#[test]
fn missing_chunk_and_invalid_manifest_fail_closed() {
    let backend = BoundedVault::default();
    let inspect = backend.clone();
    let mut storage = KeychainStorage::with_vault(backend);
    let key = format!("identity-center-{}", uuid::Uuid::new_v4());
    storage.store(&key, &"x".repeat(3000)).unwrap();
    inspect.entries.lock().unwrap().remove(&chunk_key(&key, 1));
    assert!(storage.get(&key).is_err());
    storage.delete(&key).unwrap();
    assert!(inspect.entries.lock().unwrap().is_empty());
    inspect
        .entries
        .lock()
        .unwrap()
        .insert(key.clone(), format!("{CHUNK_MANIFEST}999999999"));
    assert!(storage.get(&key).is_err());
}

#[derive(Clone, Default)]
struct FlakyVault {
    inner: BoundedVault,
    fail_get_suffix: Option<String>,
    fail_delete_suffix: Option<String>,
}

impl Vault for FlakyVault {
    fn store(&mut self, key: &str, value: &str) -> Result<(), VaultError> {
        self.inner.store(key, value)
    }
    fn get(&self, key: &str) -> Result<String, VaultError> {
        if self.fail_get_suffix.as_deref().is_some_and(|s| key.ends_with(s)) {
            return Err(VaultError::Failed);
        }
        self.inner.get(key)
    }
    fn delete(&mut self, key: &str) -> Result<(), VaultError> {
        if self.fail_delete_suffix.as_deref().is_some_and(|s| key.ends_with(s)) {
            return Err(VaultError::Failed);
        }
        self.inner.delete(key)
    }
}

const VAULT_MESSAGE_END: &str = "No plaintext credential file was written.";

#[test]
fn failed_reads_are_vault_errors_never_missing_entries() {
    let backend = FlakyVault::default();
    let mut flaky = backend.clone();
    let mut storage = KeychainStorage::with_vault(backend);
    let key = format!("identity-center-{}", uuid::Uuid::new_v4());
    storage.store(&key, &"x".repeat(2500)).unwrap();
    flaky.fail_get_suffix = Some(".part.1".into());
    let reader = KeychainStorage::with_vault(flaky.clone());
    assert!(reader.get(&key).unwrap_err().to_string().ends_with(VAULT_MESSAGE_END));
    assert!(!reader.secret_exists(&key));
    flaky.fail_get_suffix = Some("plain".into());
    flaky.inner.store("plain", "value").unwrap();
    let reader = KeychainStorage::with_vault(flaky);
    assert!(reader.get("plain").unwrap_err().to_string().ends_with(VAULT_MESSAGE_END));
}

#[test]
fn failed_chunk_delete_keeps_the_manifest_for_a_retry() {
    let backend = FlakyVault {
        fail_delete_suffix: Some(".part.1".into()),
        ..Default::default()
    };
    let inspect = backend.inner.clone();
    let mut storage = KeychainStorage::with_vault(backend);
    let key = format!("identity-center-{}", uuid::Uuid::new_v4());
    storage.store(&key, &"x".repeat(2500)).unwrap();
    assert!(storage.delete(&key).unwrap_err().to_string().ends_with(VAULT_MESSAGE_END));
    let left = inspect.entries.lock().unwrap().clone();
    assert_eq!(left.get(&key).map(String::as_str), Some(format!("{CHUNK_MANIFEST}3").as_str()));
    assert!(!left.contains_key(&chunk_key(&key, 0)));
    assert!(left.contains_key(&chunk_key(&key, 1)));
    assert!(left.contains_key(&chunk_key(&key, 2)));
}

#[test]
fn refused_overwrite_leaves_the_live_token_readable() {
    let mut storage = KeychainStorage::for_test();
    let key = format!("identity-center-{}", uuid::Uuid::new_v4());
    let secret = "y".repeat(2100);
    storage.store(&key, &secret).unwrap();
    let error = storage.store(&key, "overwrite").unwrap_err();
    assert_eq!(error.to_string(), "The AWS session reference already exists. Start a new sign-in.");
    assert_eq!(storage.get(&key).unwrap(), Some(secret));
}
