use transfer_credentials::portal::{validate_portal, validate_verification_url};

#[test]
fn portal_rejects_endpoint_and_credential_injection() {
    for url in [
        "http://company.awsapps.com/start",
        "https://company.awsapps.com.attacker.test/start",
        "https://company.awsapps.com/start?token=secret",
        "https://user@company.awsapps.com/start",
        "https://company.awsapps.com:8443/start",
        "https://localhost/start",
        "https://company.awsapps.com/other",
    ] {
        assert!(validate_portal(url, "ap-southeast-1").is_err(), "{url}");
    }
    assert_eq!(
        validate_portal("https://company.awsapps.com/start/", "ap-southeast-1").unwrap(),
        "https://company.awsapps.com/start"
    );
    for region in [
        "localhost",
        "../evil",
        "us-east-1/",
        "us-gov-west-1",
        "cn-north-1",
    ] {
        assert!(validate_portal("https://company.awsapps.com/start", region).is_err());
    }
}

#[test]
fn verification_link_must_be_the_matching_regional_aws_service() {
    assert!(validate_verification_url(
        "https://device.sso.ap-southeast-1.amazonaws.com/?user_code=ABCD",
        "ap-southeast-1"
    )
    .is_ok());
    assert!(validate_verification_url(
        "https://device.sso.us-east-1.amazonaws.com/",
        "ap-southeast-1"
    )
    .is_err());
    assert!(validate_verification_url(
        "https://device.sso.ap-southeast-1.amazonaws.com.attacker.test/",
        "ap-southeast-1"
    )
    .is_err());
}
