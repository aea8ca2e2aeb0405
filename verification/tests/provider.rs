use transfer_credentials::keychain::{is_identity_session, KeychainStorage};
use transfer_credentials::provider::{
    accept_bound_token, accept_role_credentials, accept_token, bind_token, bound_token_reference, check_binding,
    check_profile_name, identity_center_profile, is_identity_center, read_token_json, vault_key,
    CredentialType, IdentityCenterProvider, Profile, RoleCredentialsAnswer,
};
use transfer_credentials::sessions::VaultToken;

const NOW: u64 = 1_700_000_000;

fn sample_token() -> VaultToken {
    VaultToken {
        token: "synthetic-device-access-token".into(),
        expires_at: NOW + 3600,
        start_url: "https://company.awsapps.com/start".into(),
        sso_region: "ap-southeast-1".into(),
        account_id: Some("123456789012".into()),
        role_name: Some("Transfer".into()),
    }
}

fn settings(start_url: &str, sso_region: &str, account_id: &str, role_name: &str, key: &str) -> CredentialType {
    CredentialType::IdentityCenter {
        start_url: start_url.into(),
        sso_region: sso_region.into(),
        account_id: account_id.into(),
        role_name: role_name.into(),
        session_ref: key.into(),
    }
}

fn sample_profile(key: &str) -> Profile {
    Profile::new(
        "Work".into(),
        settings("https://company.awsapps.com/start", "ap-southeast-1", "123456789012", "Transfer", key),
        None,
    )
}

#[test]
fn token_binding_covers_every_identity_setting() {
    let key = vault_key();
    let profile = sample_profile(&key);
    assert!(check_binding(&profile, sample_token()).is_ok());
    let changed = [
        settings("https://another.awsapps.com/start", "ap-southeast-1", "123456789012", "Transfer", &key),
        settings("https://company.awsapps.com/start", "us-east-1", "123456789012", "Transfer", &key),
        settings("https://company.awsapps.com/start", "ap-southeast-1", "999999999999", "Transfer", &key),
        settings("https://company.awsapps.com/start", "ap-southeast-1", "123456789012", "Administrator", &key),
    ];
    for credential_type in changed {
        let profile = Profile::new("Work".into(), credential_type, None);
        let error = check_binding(&profile, sample_token()).err().unwrap().to_string();
        assert!(error.contains("settings changed"));
        assert!(!error.contains("synthetic-device-access-token"));
    }
    let mut unbound = sample_token();
    unbound.role_name = None;
    assert!(check_binding(&profile, unbound).is_err());
    let other = Profile::new("Keys".into(), CredentialType::Other, None);
    assert!(check_binding(&other, sample_token()).is_err());
    assert!(!is_identity_center(&other));
    assert!(is_identity_center(&profile));
}

#[test]
fn expired_or_missing_session_token_asks_to_sign_in() {
    let mut expired = sample_token();
    expired.expires_at = NOW - 1;
    assert!(accept_token(Some(expired), NOW).err().unwrap().to_string().contains("Sign in"));
    let mut closing = sample_token();
    closing.expires_at = NOW + 30;
    assert!(accept_token(Some(closing), NOW).is_err());
    assert!(accept_token(None, NOW).is_err());
    assert_eq!(accept_token(Some(sample_token()), NOW).unwrap().expires_at, NOW + 3600);
}

#[test]
fn only_session_references_are_read_from_the_vault() {
    let mut vault = KeychainStorage::for_test();
    assert!(read_token_json(&vault, "arbitrary-vault-entry").is_err());
    vault.store("arbitrary-vault-entry", "{}").unwrap();
    assert!(read_token_json(&vault, "arbitrary-vault-entry").is_err());
    let key = vault_key();
    assert!(read_token_json(&vault, &key).err().unwrap().to_string().contains("Sign in"));
    vault.store(&key, "{\"token\":\"t\"}").unwrap();
    assert_eq!(read_token_json(&vault, &key).unwrap(), "{\"token\":\"t\"}");
    vault.delete(&key).unwrap();
    assert!(read_token_json(&vault, &key).is_err());
}

#[test]
fn bound_reference_requires_a_valid_identity_center_profile() {
    let key = vault_key();
    assert_eq!(bound_token_reference(&sample_profile(&key)).unwrap(), key);
    let bad_region = Profile::new(
        "Work".into(),
        settings("https://company.awsapps.com/start", "cn-north-1", "123456789012", "Transfer", &key),
        None,
    );
    assert!(bound_token_reference(&bad_region).is_err());
    assert!(bound_token_reference(&Profile::new("Keys".into(), CredentialType::Other, None)).is_err());
}

#[test]
fn vault_keys_are_fresh_session_references() {
    let first = vault_key();
    let second = vault_key();
    assert!(first.starts_with("identity-center-"));
    assert!(is_identity_session(&first));
    assert_ne!(first, second);
}

#[test]
fn saved_profile_binds_the_chosen_account_and_role() {
    let mut token = sample_token();
    token.account_id = None;
    token.role_name = None;
    let bound = bind_token(token, "123456789012".into(), "Transfer".into());
    assert_eq!(bound.account_id.as_deref(), Some("123456789012"));
    let key = vault_key();
    let profile = identity_center_profile("  Work \n", &bound, "123456789012".into(), "Transfer".into(), key.clone(), "eu-west-1".into());
    assert_eq!(profile.name, "Work");
    assert_eq!(profile.region.as_deref(), Some("eu-west-1"));
    assert!(check_binding(&profile, bound).is_ok());
    let provider = IdentityCenterProvider::new(profile);
    assert_eq!(provider.get_profile().name, "Work");
}

#[test]
fn profile_names_are_bounded() {
    assert!(check_profile_name("Work").is_ok());
    assert!(check_profile_name("   ").is_err());
    assert!(check_profile_name(&"a".repeat(128)).is_ok());
    assert!(check_profile_name(&"a".repeat(129)).is_err());
    assert!(check_profile_name(&"é".repeat(65)).is_err());
}

#[test]
fn role_exchange_keeps_real_expiration() {
    let expiration = ((NOW + 900) * 1000) as i64;
    let answer = RoleCredentialsAnswer {
        access_key_id: Some("synthetic-access".into()),
        secret_access_key: Some("synthetic-secret".into()),
        session_token: Some("synthetic-session".into()),
        expiration,
    };
    let credentials = accept_role_credentials(Some(answer), NOW).unwrap();
    assert_eq!(credentials.access_key_id, "synthetic-access");
    assert_eq!(credentials.session_token, "synthetic-session");
    assert_eq!(credentials.expiration_millis, (NOW + 900) * 1000);
}

#[test]
fn expired_or_incomplete_role_credentials_are_refused() {
    let expired = RoleCredentialsAnswer {
        access_key_id: Some("access".into()),
        secret_access_key: Some("secret".into()),
        session_token: Some("session".into()),
        expiration: 1,
    };
    let error = accept_role_credentials(Some(expired), NOW).err().unwrap().to_string();
    assert!(!error.contains("secret"));
    let incomplete = RoleCredentialsAnswer {
        access_key_id: Some("access".into()),
        secret_access_key: None,
        session_token: Some("session".into()),
        expiration: ((NOW + 900) * 1000) as i64,
    };
    assert!(accept_role_credentials(Some(incomplete), NOW).is_err());
    assert!(accept_role_credentials(None, NOW).is_err());
}

fn encode(token: &VaultToken) -> String {
    let mut fields = serde_json::Map::new();
    fields.insert("token".into(), serde_json::Value::String(token.token.clone()));
    fields.insert("expires_at".into(), serde_json::Value::from(token.expires_at));
    fields.insert("start_url".into(), serde_json::Value::String(token.start_url.clone()));
    fields.insert("sso_region".into(), serde_json::Value::String(token.sso_region.clone()));
    let optional = |v: &Option<String>| match v {
        Some(s) => serde_json::Value::String(s.clone()),
        None => serde_json::Value::Null,
    };
    fields.insert("account_id".into(), optional(&token.account_id));
    fields.insert("role_name".into(), optional(&token.role_name));
    serde_json::to_string(&serde_json::Value::Object(fields)).unwrap()
}

fn decode(json: &str) -> Option<VaultToken> {
    let value: serde_json::Value = serde_json::from_str(json).ok()?;
    let text = |name: &str| value.get(name).and_then(|v| v.as_str()).map(str::to_owned);
    Some(VaultToken {
        token: text("token")?,
        expires_at: value.get("expires_at")?.as_u64()?,
        start_url: text("start_url")?,
        sso_region: text("sso_region")?,
        account_id: text("account_id"),
        role_name: text("role_name"),
    })
}

fn bound_token_from(
    vault: &KeychainStorage<transfer_credentials::vault::MemoryVault>,
    profile: &Profile,
    now: u64,
) -> Result<VaultToken, transfer_credentials::error::AppError> {
    let key = bound_token_reference(profile)?;
    let json = read_token_json(vault, &key)?;
    accept_bound_token(profile, decode(&json), now)
}

fn read_token_from(
    vault: &KeychainStorage<transfer_credentials::vault::MemoryVault>,
    key: &str,
    now: u64,
) -> Result<VaultToken, transfer_credentials::error::AppError> {
    let json = read_token_json(vault, key)?;
    accept_token(decode(&json), now)
}

#[test]
fn vault_session_is_expiring_revocable_and_bound_to_all_identity_settings() {
    let mut vault = KeychainStorage::for_test();
    let key = vault_key();
    let mut token = sample_token();
    vault.store(&key, &encode(&token)).unwrap();
    let profile = sample_profile(&key);
    assert!(bound_token_from(&vault, &profile, NOW).is_ok());
    let changed = [
        settings("https://another.awsapps.com/start", "ap-southeast-1", "123456789012", "Transfer", &key),
        settings("https://company.awsapps.com/start", "us-east-1", "123456789012", "Transfer", &key),
        settings("https://company.awsapps.com/start", "ap-southeast-1", "999999999999", "Transfer", &key),
        settings("https://company.awsapps.com/start", "ap-southeast-1", "123456789012", "Administrator", &key),
    ];
    for credential_type in changed {
        let changed = Profile::new("Work".into(), credential_type, None);
        let error = match bound_token_from(&vault, &changed, NOW) {
            Ok(_) => panic!("a changed setting must be refused"),
            Err(e) => e.to_string(),
        };
        assert!(error.contains("settings changed"));
        assert!(!error.contains(&token.token));
    }
    token.expires_at = NOW - 1;
    vault.delete(&key).unwrap();
    vault.store(&key, &encode(&token)).unwrap();
    let error = match read_token_from(&vault, &key, NOW) {
        Ok(_) => panic!("an expired token must be refused"),
        Err(e) => e.to_string(),
    };
    assert!(error.contains("Sign in"));
    vault.delete(&key).unwrap();
    assert!(read_token_from(&vault, &key, NOW).is_err());
}
