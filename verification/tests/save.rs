use transfer_credentials::error::{AppError, NETWORK, SIGN_IN};
use transfer_credentials::keychain::{is_identity_session, secret_chunks, KeychainStorage};
use transfer_credentials::portal::{PORTAL_MESSAGE, PORTAL_URL_MESSAGE, REGION_MESSAGE};
use transfer_credentials::provider::{accept_bound_token, CredentialType, Profile, SETTINGS_CHANGED};
use transfer_credentials::listing::Role;
use transfer_credentials::provider::{PROFILE_NAME, ROLE_NOT_ASSIGNED};
use transfer_credentials::save::{begin_save, conclude_save, forget_session, persist_login, persist_profile, require_role};
use transfer_credentials::portal::validate_portal;
use transfer_credentials::provider::vault_key;
use transfer_credentials::sessions::{Pending, Sessions, VaultToken, FINISH_SIGN_IN, TOO_MANY_LOGINS};

const NOW: u64 = 1_700_000_000;

fn sample_token() -> VaultToken {
    VaultToken {
        token: "synthetic-device-access-token".into(),
        expires_at: NOW + 3600,
        start_url: "https://company.awsapps.com/start".into(),
        sso_region: "ap-southeast-1".into(),
        account_id: Some("123456789012".into()),
        role_name: Some("Transfer".into()),
    }
}

fn pending(token: Option<VaultToken>) -> Pending {
    Pending {
        start_url: "https://company.awsapps.com/start".into(),
        region: "ap-southeast-1".into(),
        client_id: "client".into(),
        client_secret: String::new(),
        device_code: String::new(),
        verification_uri: "https://device.sso.ap-southeast-1.amazonaws.com/?user_code=ABCD".into(),
        expires_at: NOW + 900,
        interval: 5,
        next_poll: 0,
        token,
        polling: false,
    }
}

fn message(e: &AppError) -> String {
    e.to_string()
}

fn refusal<T>(r: Result<T, AppError>) -> String {
    match r {
        Ok(_) => panic!("a refusal was expected"),
        Err(e) => e.to_string(),
    }
}

fn profile() -> Profile {
    Profile::new(
        "Work".into(),
        CredentialType::IdentityCenter {
            start_url: "https://company.awsapps.com/start".into(),
            sso_region: "ap-southeast-1".into(),
            account_id: "123456789012".into(),
            role_name: "Transfer".into(),
            session_ref: "identity-center-00000000-0000-4000-8000-000000000000".into(),
        },
        None,
    )
}

#[test]
fn persisted_login_is_readable_under_a_fresh_reference() {
    let mut sessions = Sessions::new();
    sessions.insert("login".into(), pending(Some(sample_token())));
    let mut vault = KeychainStorage::for_test();
    let json = "x".repeat(2500);
    let key = persist_login(&sessions, &mut vault, "login", NOW, Some(json.clone())).unwrap();
    assert!(is_identity_session(&key));
    assert_eq!(vault.get(&key).unwrap(), Some(json));
}

#[test]
fn cancelled_or_expired_login_persists_nothing() {
    let mut sessions = Sessions::new();
    sessions.insert("login".into(), pending(Some(sample_token())));
    sessions.remove("login");
    let mut vault = KeychainStorage::for_test();
    let error = persist_login(&sessions, &mut vault, "login", NOW, Some("{}".into())).unwrap_err();
    assert_eq!(message(&error), SIGN_IN);
    let mut expiring = Sessions::new();
    expiring.insert("late".into(), pending(Some(sample_token())));
    let error = persist_login(&expiring, &mut vault, "late", NOW + 900, Some("{}".into())).unwrap_err();
    assert_eq!(message(&error), SIGN_IN);
    let mut unauthorized = Sessions::new();
    unauthorized.insert("waiting".into(), pending(None));
    let error = persist_login(&unauthorized, &mut vault, "waiting", NOW, Some("{}".into())).unwrap_err();
    assert_eq!(message(&error), FINISH_SIGN_IN);
}

#[test]
fn unencodable_token_is_a_network_error() {
    let mut sessions = Sessions::new();
    sessions.insert("login".into(), pending(Some(sample_token())));
    let mut vault = KeychainStorage::for_test();
    let error = persist_login(&sessions, &mut vault, "login", NOW, None).unwrap_err();
    assert_eq!(message(&error), NETWORK);
}

#[test]
fn failed_profile_save_rolls_back_the_session_reference() {
    let mut sessions = Sessions::new();
    sessions.insert("login".into(), pending(Some(sample_token())));
    let mut vault = KeychainStorage::for_test();
    let key = persist_login(&sessions, &mut vault, "login", NOW, Some("y".repeat(3000))).unwrap();
    let saved: Result<u32, AppError> = Err(AppError::ConfigError("profile store failed".into()));
    let result = conclude_save(&mut sessions, &mut vault, "login", &key, saved);
    assert_eq!(message(&result.unwrap_err()), "profile store failed");
    assert_eq!(vault.get(&key).unwrap(), None);
    for index in 0..3 {
        assert_eq!(vault.get(&format!("{key}.part.{index}")).unwrap(), None);
    }
    assert_eq!(sessions.len(), 1);
}

#[test]
fn saved_profile_forgets_the_login_and_keeps_the_token() {
    let mut sessions = Sessions::new();
    sessions.insert("login".into(), pending(Some(sample_token())));
    let mut vault = KeychainStorage::for_test();
    let key = persist_login(&sessions, &mut vault, "login", NOW, Some("{}".into())).unwrap();
    let result = conclude_save(&mut sessions, &mut vault, "login", &key, Ok::<u32, AppError>(7));
    assert_eq!(result.unwrap(), 7);
    assert_eq!(sessions.len(), 0);
    assert_eq!(vault.get(&key).unwrap(), Some("{}".to_string()));
}

#[test]
fn login_checks_portal_before_counting_sessions() {
    let mut sessions = Sessions::new();
    let error = sessions.prepare_login("https://company.awsapps.com/start", "moon-1", NOW).unwrap_err();
    assert_eq!(message(&error), REGION_MESSAGE);
    let error = sessions.prepare_login("not a url", "ap-southeast-1", NOW).unwrap_err();
    assert_eq!(message(&error), PORTAL_URL_MESSAGE);
    let error = sessions.prepare_login("https://example.com/start", "ap-southeast-1", NOW).unwrap_err();
    assert_eq!(message(&error), PORTAL_MESSAGE);
    let url = sessions.prepare_login("  https://company.awsapps.com/start  ", "ap-southeast-1", NOW).unwrap();
    assert_eq!(url, "https://company.awsapps.com/start");
    for index in 0..4 {
        sessions.insert(format!("login-{index}"), pending(None));
    }
    let error = sessions.prepare_login("https://company.awsapps.com/start", "ap-southeast-1", NOW).unwrap_err();
    assert_eq!(message(&error), TOO_MANY_LOGINS);
    assert!(sessions.prepare_login("https://company.awsapps.com/start", "ap-southeast-1", NOW + 900).is_ok());
    assert_eq!(sessions.len(), 0);
}

#[test]
fn bound_token_must_be_fresh_and_match_the_profile() {
    let profile = profile();
    assert_eq!(accept_bound_token(&profile, Some(sample_token()), NOW).unwrap().token, "synthetic-device-access-token");
    assert_eq!(refusal(accept_bound_token(&profile, Some(sample_token()), NOW + 3570)), SIGN_IN);
    assert_eq!(refusal(accept_bound_token(&profile, None, NOW)), SIGN_IN);
    let mut other_role = sample_token();
    other_role.role_name = Some("Administrator".into());
    assert_eq!(refusal(accept_bound_token(&profile, Some(other_role), NOW)), SETTINGS_CHANGED);
    let keys = Profile::new("Keys".into(), CredentialType::Other, None);
    assert_eq!(refusal(accept_bound_token(&keys, Some(sample_token()), NOW)), SIGN_IN);
}

#[test]
fn session_references_accept_every_uuid_text_form() {
    let forms = [
        "identity-center-00000000-0000-4000-8000-000000000000",
        "identity-center-67E55044-10B1-426F-9247-BB680E5FE0C8",
        "identity-center-67e5504410b1426f9247bb680e5fe0c8",
        "identity-center-{67e55044-10b1-426f-9247-bb680e5fe0c8}",
        "identity-center-urn:uuid:67e55044-10b1-426f-9247-bb680e5fe0c8",
        "identity-center-URN:UUID:67e55044-10b1-426f-9247-bb680e5fe0c8",
    ];
    for key in forms {
        assert!(is_identity_session(key), "{key}");
    }
    let refused = [
        "identity-center-",
        "identity-center-67e55044_10b1_426f_9247_bb680e5fe0c8",
        "identity-center-67e55044-10b1-426f-9247-bb680e5fe0cg",
        "identity-center-(67e55044-10b1-426f-9247-bb680e5fe0c8)",
        "identity-centre-67e55044-10b1-426f-9247-bb680e5fe0c8",
        "identity-center-urn:uuid-67e55044-10b1-426f-9247-bb680e5fe0c8",
        "work",
    ];
    for key in refused {
        assert!(!is_identity_session(key), "{key}");
    }
}

#[test]
fn chunks_are_filled_greedily() {
    let secret = format!("{}\u{1F512}", "a".repeat(999));
    let chunks = secret_chunks(&secret).unwrap();
    assert_eq!(chunks, vec!["a".repeat(999), "\u{1F512}".to_string()]);
    let chunks = secret_chunks(&"b".repeat(2001)).unwrap();
    assert_eq!(chunks, vec!["b".repeat(1000), "b".repeat(1000), "b".to_string()]);
    assert_eq!(secret_chunks("").unwrap(), vec![String::new()]);
}

#[test]
fn save_checks_name_login_and_portal_before_anything_is_stored() {
    let mut sessions = Sessions::new();
    sessions.insert("login".into(), pending(Some(sample_token())));
    sessions.insert("waiting".into(), pending(None));
    assert_eq!(refusal(begin_save(&sessions, "login", NOW, "   ", "ap-southeast-1")), PROFILE_NAME);
    assert_eq!(refusal(begin_save(&sessions, "login", NOW, &"n".repeat(129), "ap-southeast-1")), PROFILE_NAME);
    assert_eq!(refusal(begin_save(&sessions, "gone", NOW, "Work", "ap-southeast-1")), SIGN_IN);
    assert_eq!(refusal(begin_save(&sessions, "waiting", NOW, "Work", "ap-southeast-1")), FINISH_SIGN_IN);
    assert_eq!(refusal(begin_save(&sessions, "login", NOW, "Work", "moon-1")), REGION_MESSAGE);
    let token = begin_save(&sessions, "login", NOW, "Work", "eu-west-1").unwrap();
    assert_eq!(token.token, "synthetic-device-access-token");
    assert_eq!(sessions.len(), 2);
}

#[test]
fn only_assigned_roles_can_be_saved() {
    let roles = vec![
        Role { account_id: "123456789012".into(), role_name: "Transfer".into() },
        Role { account_id: "123456789012".into(), role_name: "ReadOnly".into() },
    ];
    assert!(require_role(&roles, "ReadOnly").is_ok());
    assert_eq!(refusal(require_role(&roles, "Administrator")), ROLE_NOT_ASSIGNED);
    assert_eq!(refusal(require_role(&Vec::new(), "Transfer")), ROLE_NOT_ASSIGNED);
}

#[test]
fn persisted_profile_refers_to_the_stored_token() {
    let mut sessions = Sessions::new();
    sessions.insert("login".into(), pending(Some(sample_token())));
    let mut vault = KeychainStorage::for_test();
    let token = sample_token();
    let profile = persist_profile(
        &sessions,
        &mut vault,
        "login",
        NOW,
        "  Work  ",
        &token,
        "123456789012".into(),
        "Transfer".into(),
        "eu-west-1".into(),
        Some("{\"token\":\"t\"}".into()),
    )
    .unwrap();
    assert_eq!(profile.name, "Work");
    assert_eq!(profile.region.as_deref(), Some("eu-west-1"));
    match &profile.credential_type {
        CredentialType::IdentityCenter { start_url, sso_region, account_id, role_name, session_ref } => {
            assert_eq!(start_url, "https://company.awsapps.com/start");
            assert_eq!(sso_region, "ap-southeast-1");
            assert_eq!(account_id, "123456789012");
            assert_eq!(role_name, "Transfer");
            assert!(is_identity_session(session_ref));
            assert_eq!(vault.get(session_ref).unwrap().as_deref(), Some("{\"token\":\"t\"}"));
        }
        CredentialType::Other => panic!("an IAM Identity Center profile was expected"),
    }
    sessions.remove("login");
    let late = persist_profile(
        &sessions,
        &mut vault,
        "login",
        NOW,
        "Work",
        &token,
        "123456789012".into(),
        "Transfer".into(),
        "eu-west-1".into(),
        Some("{}".into()),
    );
    assert_eq!(refusal(late), SIGN_IN);
}

#[test]
fn sign_out_deletes_only_identity_center_sessions() {
    let mut vault = KeychainStorage::for_test();
    let key = vault_key();
    vault.store(&key, &"z".repeat(1500)).unwrap();
    vault.store("other-secret", "kept").unwrap();
    let keys = Profile::new("Keys".into(), CredentialType::Other, None);
    assert_eq!(forget_session(&mut vault, &keys).unwrap(), None);
    assert_eq!(vault.get("other-secret").unwrap().as_deref(), Some("kept"));
    let mut with_key = profile();
    if let CredentialType::IdentityCenter { session_ref, .. } = &mut with_key.credential_type {
        *session_ref = key.clone();
    }
    assert_eq!(forget_session(&mut vault, &with_key).unwrap(), Some(key.clone()));
    assert_eq!(vault.get(&key).unwrap(), None);
    assert_eq!(vault.get(&format!("{key}.part.0")).unwrap(), None);
    assert_eq!(vault.get("other-secret").unwrap().as_deref(), Some("kept"));
}

#[test]
fn vault_keys_are_lower_case_hyphenated_uuids() {
    let key = vault_key();
    let id = key.strip_prefix("identity-center-").unwrap();
    assert_eq!(id.len(), 36);
    for (index, c) in id.chars().enumerate() {
        if [8, 13, 18, 23].contains(&index) {
            assert_eq!(c, '-');
        } else {
            assert!(c.is_ascii_digit() || ('a'..='f').contains(&c), "{key}");
        }
    }
}

#[test]
fn govcloud_and_china_regions_are_refused() {
    for region in ["us-gov-west-1", "us-gov-east-1", "cn-north-1", "cn-northwest-1"] {
        assert_eq!(refusal(validate_portal("https://company.awsapps.com/start", region)), REGION_MESSAGE);
    }
}
