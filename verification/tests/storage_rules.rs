use transfer_credentials::keychain::{
    chunk_count, chunk_key, is_identity_session, manifest_string, secret_chunks, KeychainStorage,
    CHUNK_MANIFEST,
};
use transfer_credentials::portable::{portable_data_dir_for, portable_flag, portable_marker_path};
use transfer_credentials::portal::{is_valid_region, validate_portal};

#[test]
fn chunk_keys_and_manifests_have_a_fixed_format() {
    assert_eq!(chunk_key("identity-center-x", 12), "identity-center-x.part.12");
    assert_eq!(manifest_string(3), format!("{CHUNK_MANIFEST}3"));
    assert_eq!(chunk_count(&format!("{CHUNK_MANIFEST}64")).unwrap(), 64);
    assert_eq!(chunk_count(&format!("{CHUNK_MANIFEST}+7")).unwrap(), 7);
    assert!(chunk_count(&format!("{CHUNK_MANIFEST}65")).is_err());
    assert!(chunk_count(&format!("{CHUNK_MANIFEST}0")).is_err());
    assert!(chunk_count(&format!("{CHUNK_MANIFEST}")).is_err());
    assert!(chunk_count(&format!("{CHUNK_MANIFEST}-1")).is_err());
    assert!(chunk_count(&format!("{CHUNK_MANIFEST}99999999999999999999999")).is_err());
    assert!(chunk_count("1").is_err());
}

#[test]
fn secrets_split_at_the_utf16_limit() {
    assert_eq!(secret_chunks("").unwrap(), vec![String::new()]);
    assert_eq!(secret_chunks(&"x".repeat(1000)).unwrap().len(), 1);
    let two = secret_chunks(&"x".repeat(1001)).unwrap();
    assert_eq!(two.len(), 2);
    assert_eq!(two[1], "x");
    let wide = secret_chunks(&"🔒".repeat(501)).unwrap();
    assert_eq!(wide.len(), 2);
    assert_eq!(wide[0].encode_utf16().count(), 1000);
    assert_eq!(secret_chunks(&"x".repeat(64_000)).unwrap().len(), 64);
    assert!(secret_chunks(&"x".repeat(64_001)).is_err());
}

#[test]
fn oversized_session_token_is_refused_without_writing() {
    let mut storage = KeychainStorage::for_test();
    let key = format!("identity-center-{}", uuid::Uuid::new_v4());
    assert!(storage.store(&key, &"x".repeat(64_001)).is_err());
    assert_eq!(storage.get(&key).unwrap(), None);
    assert!(!storage.secret_exists(&key));
    storage.store(&key, "token").unwrap();
    assert!(storage.secret_exists(&key));
    assert_eq!(storage.get(&chunk_key(&key, 0)).unwrap().as_deref(), Some("token"));
}

#[test]
fn session_references_are_prefixed_uuids() {
    let id = uuid::Uuid::new_v4();
    assert!(is_identity_session(&format!("identity-center-{id}")));
    assert!(is_identity_session(&format!("identity-center-{}", id.simple())));
    assert!(!is_identity_session(&format!("identity-center-{id}.part.0")));
    assert!(!is_identity_session(&format!("{id}")));
    assert!(!is_identity_session("identity-center-"));
}

#[test]
fn regions_and_portal_urls_are_normalized() {
    assert!(is_valid_region("ap-southeast-1"));
    assert!(is_valid_region("eu-central-2"));
    assert!(!is_valid_region("ap-southeast-256"));
    assert!(!is_valid_region("ap-southeast"));
    assert!(!is_valid_region("AP-southeast-1"));
    assert!(!is_valid_region("ap-southeast-1-aaaaaaaaaaaaaaaaaaaaaaa-1"));
    assert_eq!(
        validate_portal("  https://Company.awsapps.com/start \n", "us-east-1").unwrap(),
        "https://company.awsapps.com/start"
    );
    assert_eq!(
        validate_portal("https://company.awsapps.com:443/start", "us-east-1").unwrap(),
        "https://company.awsapps.com/start"
    );
    assert!(validate_portal("https://company.awsapps.com/start#x", "us-east-1").is_err());
    assert!(validate_portal("https://.awsapps.com/start", "us-east-1").is_err());
    assert!(validate_portal("not a url", "us-east-1")
        .unwrap_err()
        .to_string()
        .contains("HTTPS AWS access portal URL"));
}

#[test]
fn portable_mode_uses_only_its_own_marker_and_directory() {
    assert!(portable_flag("1"));
    assert!(portable_flag("TRUE"));
    assert!(portable_flag("Yes"));
    assert!(!portable_flag("on"));
    assert!(!portable_flag(""));
    assert_eq!(portable_data_dir_for("/opt/app", false, false), None);
    assert_eq!(
        portable_data_dir_for("/opt/app", true, false).as_deref(),
        Some("/opt/app/nextvestment-transfer-data")
    );
    assert_eq!(
        portable_data_dir_for("/opt/app/", false, true).as_deref(),
        Some("/opt/app/nextvestment-transfer-data")
    );
    assert_eq!(portable_marker_path("/opt/app"), "/opt/app/nextvestment-transfer.portable");
}
