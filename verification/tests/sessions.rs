use transfer_credentials::sessions::{
    device_expires_in, device_interval, DeviceAuthorization, LoginStart, Pending, PollStep,
    Sessions, TokenOutcome, VaultToken, MAX_SESSIONS,
};

const NOW: u64 = 1_700_000_000;

fn sample_token(now: u64) -> VaultToken {
    VaultToken {
        token: "synthetic-device-access-token".into(),
        expires_at: now + 3600,
        start_url: "https://company.awsapps.com/start".into(),
        sso_region: "ap-southeast-1".into(),
        account_id: Some("123456789012".into()),
        role_name: Some("Transfer".into()),
    }
}

fn pending(now: u64, token: Option<VaultToken>) -> Pending {
    Pending {
        start_url: "https://company.awsapps.com/start".into(),
        region: "ap-southeast-1".into(),
        client_id: "client".into(),
        client_secret: "private-client-secret".into(),
        device_code: "private-device-code".into(),
        verification_uri: "https://device.sso.ap-southeast-1.amazonaws.com/?user_code=ABCD".into(),
        expires_at: now + 900,
        interval: 5,
        next_poll: 0,
        token,
        polling: false,
    }
}

fn authorization(user_code: Option<&str>, device_code: Option<&str>, link: &str) -> DeviceAuthorization {
    DeviceAuthorization {
        device_code: device_code.map(|s| s.to_string()),
        user_code: user_code.map(|s| s.to_string()),
        verification_uri: Some("https://device.sso.ap-southeast-1.amazonaws.com/".into()),
        verification_uri_complete: Some(link.into()),
        interval: 1,
        expires_in: 5000,
    }
}

fn start(sessions: &mut Sessions, id: &str) -> Result<LoginStart, transfer_credentials::error::AppError> {
    sessions.register_login(
        NOW,
        id.into(),
        "https://company.awsapps.com/start".into(),
        "ap-southeast-1".into(),
        "client".into(),
        "secret".into(),
        authorization(
            Some("ABCD-EFGH"),
            Some("device"),
            "https://device.sso.ap-southeast-1.amazonaws.com/?user_code=ABCD-EFGH",
        ),
    )
}

#[test]
fn cancellation_and_expiry_prevent_late_profile_save() {
    let id = uuid::Uuid::new_v4().to_string();
    let mut sessions = Sessions::new();
    let mut item = pending(NOW, Some(sample_token(NOW)));
    item.expires_at = NOW + 60;
    item.client_secret = String::new();
    item.device_code = String::new();
    sessions.insert(id.clone(), item);
    assert!(sessions.token_for_session(&id, NOW).is_ok());
    sessions.remove(&id);
    assert!(sessions.token_for_session(&id, NOW).is_err());
    let mut expired = pending(NOW, Some(sample_token(NOW)));
    expired.expires_at = NOW - 1;
    let mut isolated = Sessions::new();
    isolated.insert(id.clone(), expired);
    isolated.cleanup(NOW);
    assert_eq!(isolated.len(), 0);
}

#[test]
fn device_poll_outcomes_follow_aws_state() {
    let id = uuid::Uuid::new_v4().to_string();
    let mut sessions = Sessions::new();
    sessions.insert(id.clone(), pending(NOW, None));
    let outcomes = [
        (TokenOutcome::Failed { code: Some("AuthorizationPendingException".into()) }, "pending", 5),
        (TokenOutcome::Failed { code: Some("SlowDownException".into()) }, "pending", 10),
        (
            TokenOutcome::Granted { access_token: Some("private-new-access-token".into()), expires_in: 3600 },
            "authorized",
            10,
        ),
    ];
    let mut now = NOW;
    for (outcome, expected, interval) in outcomes {
        now += 20;
        match sessions.poll_begin(&id, now).unwrap() {
            PollStep::Request(request) => {
                assert_eq!(request.client_id, "client");
                assert_eq!(request.device_code, "private-device-code");
            }
            PollStep::Answer(_) => panic!("a token request was expected"),
        }
        let result = sessions.poll_finish(&id, now, outcome).unwrap();
        assert_eq!(result.status, expected);
        assert_eq!(result.interval, interval);
    }
    let item = sessions.get(&id).unwrap();
    assert!(item.client_secret.is_empty());
    assert!(item.device_code.is_empty());
    let token = item.token.as_ref().unwrap();
    assert_eq!(token.token, "private-new-access-token");
    assert_eq!(token.expires_at, now + 3600);
    assert_eq!(item.expires_at, now + 900);
    match sessions.poll_begin(&id, now).unwrap() {
        PollStep::Answer(answer) => assert_eq!(answer.status, "authorized"),
        PollStep::Request(_) => panic!("an authorized login needs no request"),
    }
}

#[test]
fn poll_waits_for_the_interval_and_one_request_at_a_time() {
    let id = "one".to_string();
    let mut sessions = Sessions::new();
    let mut item = pending(NOW, None);
    item.next_poll = NOW + 5;
    sessions.insert(id.clone(), item);
    match sessions.poll_begin(&id, NOW).unwrap() {
        PollStep::Answer(answer) => {
            assert_eq!(answer.status, "pending");
            assert_eq!(answer.interval, 5);
        }
        PollStep::Request(_) => panic!("polling before next_poll must wait"),
    }
    assert!(matches!(sessions.poll_begin(&id, NOW + 5).unwrap(), PollStep::Request(_)));
    assert!(sessions.get(&id).unwrap().polling);
    assert_eq!(sessions.get(&id).unwrap().next_poll, NOW + 10);
    assert!(matches!(sessions.poll_begin(&id, NOW + 20).unwrap(), PollStep::Answer(_)));
}

#[test]
fn slow_down_caps_the_interval_at_sixty_seconds() {
    let id = "slow".to_string();
    let mut sessions = Sessions::new();
    let mut item = pending(NOW, None);
    item.interval = 58;
    sessions.insert(id.clone(), item);
    let result = sessions
        .poll_finish(&id, NOW, TokenOutcome::Failed { code: Some("SlowDownException".into()) })
        .unwrap();
    assert_eq!(result.interval, 60);
    assert_eq!(sessions.get(&id).unwrap().next_poll, NOW + 60);
}

#[test]
fn declined_login_is_forgotten_and_unknown_failures_keep_it() {
    let mut sessions = Sessions::new();
    sessions.insert("a".into(), pending(NOW, None));
    sessions.insert("b".into(), pending(NOW, None));
    let declined = sessions
        .poll_finish("a", NOW, TokenOutcome::Failed { code: Some("AccessDeniedException".into()) })
        .unwrap_err();
    assert!(declined.to_string().contains("declined or expired"));
    assert!(sessions.get("a").is_none());
    let expired = sessions.poll_finish("b", NOW, TokenOutcome::Failed { code: Some("ExpiredTokenException".into()) });
    assert!(expired.is_err());
    assert!(sessions.get("b").is_none());
    sessions.insert("c".into(), pending(NOW, None));
    let other = sessions
        .poll_finish("c", NOW, TokenOutcome::Failed { code: Some("InternalServerException".into()) })
        .unwrap_err();
    assert!(other.to_string().contains("could not complete"));
    assert!(sessions.get("c").is_some());
    let missing = sessions.poll_finish("c", NOW, TokenOutcome::Granted { access_token: None, expires_in: 10 });
    assert!(missing.is_err());
    assert!(sessions.get("c").unwrap().token.is_none());
    assert!(sessions.poll_finish("zzz", NOW, TokenOutcome::Failed { code: None }).is_err());
}

#[test]
fn token_for_session_requires_an_authorized_fresh_login() {
    let mut sessions = Sessions::new();
    sessions.insert("waiting".into(), pending(NOW, None));
    let unauthorized = sessions.token_for_session("waiting", NOW).err().unwrap();
    assert_eq!(unauthorized.to_string(), "Finish browser sign-in first.");
    let mut nearly_expired = sample_token(NOW);
    nearly_expired.expires_at = NOW + 30;
    sessions.insert("stale".into(), pending(NOW, Some(nearly_expired)));
    assert!(sessions.token_for_session("stale", NOW).err().unwrap().to_string().contains("Sign in"));
    sessions.insert("fresh".into(), pending(NOW, Some(sample_token(NOW))));
    let token = sessions.token_for_session("fresh", NOW).unwrap();
    assert_eq!(token.token, "synthetic-device-access-token");
    assert!(sessions.token_for_session("fresh", NOW + 900).is_err());
}

#[test]
fn at_most_four_logins_are_pending() {
    let mut sessions = Sessions::new();
    for index in 0..MAX_SESSIONS {
        let started = start(&mut sessions, &format!("login-{index}")).unwrap();
        assert_eq!(started.interval, 5);
        assert_eq!(started.expires_in, 900);
        assert_eq!(started.user_code, "ABCD-EFGH");
    }
    assert_eq!(sessions.len(), 4);
    assert!(sessions.begin_login(NOW).is_err());
    let refused = start(&mut sessions, "login-5").unwrap_err();
    assert!(refused.to_string().contains("Finish or cancel another AWS sign-in first."));
    assert!(sessions.begin_login(NOW + 901).is_ok());
    assert_eq!(sessions.len(), 0);
}

#[test]
fn registered_login_records_the_device_authorization() {
    let mut sessions = Sessions::new();
    let started = start(&mut sessions, "id").unwrap();
    assert_eq!(started.session_id, "id");
    let item = sessions.get("id").unwrap();
    assert_eq!(item.expires_at, NOW + 900);
    assert_eq!(item.next_poll, NOW + 5);
    assert_eq!(item.device_code, "device");
    assert!(item.token.is_none());
    assert_eq!(
        sessions.verification_link("id", NOW).unwrap(),
        "https://device.sso.ap-southeast-1.amazonaws.com/?user_code=ABCD-EFGH"
    );
    assert_eq!(sessions.login_region("id").unwrap(), "ap-southeast-1");
    assert!(sessions.verification_link("id", NOW + 900).is_err());
}

#[test]
fn device_answers_missing_fields_or_foreign_links_are_refused() {
    let mut sessions = Sessions::new();
    let foreign = sessions.register_login(
        NOW,
        "a".into(),
        "https://company.awsapps.com/start".into(),
        "ap-southeast-1".into(),
        "client".into(),
        "secret".into(),
        authorization(Some("CODE"), Some("device"), "https://device.sso.us-east-1.amazonaws.com/"),
    );
    assert!(foreign.is_err());
    let no_user_code = sessions.register_login(
        NOW,
        "b".into(),
        "https://company.awsapps.com/start".into(),
        "ap-southeast-1".into(),
        "client".into(),
        "secret".into(),
        authorization(None, Some("device"), "https://device.sso.ap-southeast-1.amazonaws.com/"),
    );
    assert!(no_user_code.is_err());
    let no_device_code = sessions.register_login(
        NOW,
        "c".into(),
        "https://company.awsapps.com/start".into(),
        "ap-southeast-1".into(),
        "client".into(),
        "secret".into(),
        authorization(Some("CODE"), None, "https://device.sso.ap-southeast-1.amazonaws.com/"),
    );
    assert!(no_device_code.is_err());
    assert_eq!(sessions.len(), 0);
    let fresh = sessions
        .start_login(
            NOW,
            "https://company.awsapps.com/start".into(),
            "ap-southeast-1".into(),
            "client".into(),
            "secret".into(),
            authorization(Some("CODE"), Some("device"), "https://device.sso.ap-southeast-1.amazonaws.com/"),
        )
        .unwrap();
    assert!(uuid::Uuid::parse_str(&fresh.session_id).is_ok());
    assert!(sessions.get(&fresh.session_id).is_some());
}

#[test]
fn device_timing_is_clamped() {
    assert_eq!(device_interval(-3), 5);
    assert_eq!(device_interval(1), 5);
    assert_eq!(device_interval(7), 7);
    assert_eq!(device_expires_in(0), 1);
    assert_eq!(device_expires_in(600), 600);
    assert_eq!(device_expires_in(5000), 900);
}
