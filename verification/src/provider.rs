//! Profiles that sign in through IAM Identity Center: binding a stored session
//! token to the profile's portal, region, account and role, and accepting the
//! role credentials that AWS exchanges for it.
use vstd::prelude::*;
use crate::error::{AppError, invalid, is_invalid, is_vault_error, SIGN_IN};
use crate::keychain::{
    is_identity_session, is_lower_hex_char, is_session_key, is_uuid_hyphen_at, new_uuid_text, uuid_hyphenated, vault_reading, KeychainStorage,
    SESSION_PREFIX,
};
use crate::portal::{portal_parts_ok, region_valid, url_parse_result, validate_portal, PORTAL_MESSAGE, PORTAL_URL_MESSAGE, REGION_MESSAGE};
use crate::sessions::VaultToken;
use crate::text::{chars_of, push_str_chars, str_eq, string_from_chars, trim, trim_chars};
use crate::vault::Vault;

verus! {

broadcast use vstd::string::group_string_axioms;

/// Refusal when a profile's settings no longer match its stored session.
pub const SETTINGS_CHANGED: &'static str = "AWS profile settings changed. Sign in again to authorize the selected account and role.";

/// Refusal of an empty or overlong profile name.
pub const PROFILE_NAME: &'static str = "Enter a profile name of up to 128 characters.";

/// Refusal of a role that the signed-in user is not assigned.
pub const ROLE_NOT_ASSIGNED: &'static str = "This AWS role is not assigned to your account.";

/// The longest profile name, in bytes of UTF-8.
pub const MAX_PROFILE_NAME: usize = 128;

/// How a profile obtains AWS credentials.
pub enum CredentialType {
    /// Native IAM Identity Center sign-in; the token lives in the vault under `session_ref`.
    IdentityCenter {
        start_url: String,
        sso_region: String,
        account_id: String,
        role_name: String,
        session_ref: String,
    },
    /// Credentials that do not come from IAM Identity Center sign-in
    /// (environment, shared profile, stored keys).
    Other,
}

/// A connection profile.
pub struct Profile {
    pub name: String,
    pub credential_type: CredentialType,
    pub region: Option<String>,
}

impl Profile {
    /// A profile with the given name, credentials and default region.
    pub fn new(name: String, credential_type: CredentialType, region: Option<String>) -> (p: Self)
        ensures
            p.name == name,
            p.credential_type == credential_type,
            p.region == region,
    {
        Profile { name, credential_type, region }
    }
}

/// Supplies AWS credentials for an IAM Identity Center profile.
pub struct IdentityCenterProvider {
    profile: Profile,
}

impl IdentityCenterProvider {
    /// A provider for `profile`.
    pub fn new(profile: Profile) -> (p: Self)
        ensures
            p.profile() == profile,
    {
        Self { profile }
    }

    /// The profile whose credentials are provided.
    pub closed spec fn profile(&self) -> Profile {
        self.profile
    }

    /// The profile whose credentials are provided.
    pub fn get_profile(&self) -> (p: &Profile)
        ensures
            *p == self.profile(),
    {
        &self.profile
    }
}

/// Whether a profile signs in through IAM Identity Center.
pub fn is_identity_center(profile: &Profile) -> (r: bool)
    ensures
        r == (profile.credential_type is IdentityCenter),
{
    match &profile.credential_type {
        CredentialType::IdentityCenter { .. } => true,
        CredentialType::Other => false,
    }
}

/// The vault key of an IAM Identity Center profile's session, once its portal
/// and region pass `validate_portal`.
pub fn bound_token_reference(profile: &Profile) -> (r: Result<String, AppError>)
    ensures
        match profile.credential_type {
            CredentialType::IdentityCenter { start_url, sso_region, session_ref, .. } => {
                if !region_valid(sso_region@) {
                    r matches Err(e) && is_invalid(e, REGION_MESSAGE@)
                } else {
                    match url_parse_result(trim(start_url@)) {
                        Some(p) => if portal_parts_ok(p) {
                            r == Ok::<String, AppError>(session_ref)
                        } else {
                            r matches Err(e) && is_invalid(e, PORTAL_MESSAGE@)
                        },
                        None => r matches Err(e) && is_invalid(e, PORTAL_URL_MESSAGE@),
                    }
                }
            },
            CredentialType::Other => r matches Err(e) && is_invalid(e, SIGN_IN@),
        },
{
    match &profile.credential_type {
        CredentialType::IdentityCenter { start_url, sso_region, session_ref, .. } => {
            match validate_portal(start_url.as_str(), sso_region.as_str()) {
                Ok(_) => Ok(session_ref.clone()),
                Err(e) => Err(e),
            }
        },
        CredentialType::Other => Err(invalid(SIGN_IN)),
    }
}

/// The stored form of the session under `key`: only a session reference is
/// read, and a missing one asks the user to sign in again.
pub fn read_token_json<V: Vault>(vault: &KeychainStorage<V>, key: &str) -> (r: Result<String, AppError>)
    ensures
        !is_session_key(key@) ==> (r matches Err(e) && is_invalid(e, SIGN_IN@)),
        r matches Err(e) ==> is_invalid(e, SIGN_IN@) || is_vault_error(e),
        vault.faithful() && r is Ok ==> vault_reading(vault.entries(), key@) == Some(Some(r->Ok_0@)),
        vault.faithful() && is_session_key(key@) && r is Err && is_invalid(r->Err_0, SIGN_IN@) ==> vault_reading(
            vault.entries(),
            key@,
        ) == Some(None::<Seq<char>>),
        is_session_key(key@) && vault.steady() && !vault.available() ==> (r matches Err(e) && is_vault_error(e)),
        is_session_key(key@) && vault.steady() && vault.available() ==> match vault_reading(vault.entries(), key@) {
            Some(Some(json)) => r matches Ok(s) && s@ == json,
            Some(None) => r matches Err(e) && is_invalid(e, SIGN_IN@),
            None => r matches Err(e) && is_vault_error(e),
        },
{
    if !is_identity_session(key) {
        return Err(invalid(SIGN_IN));
    }
    match vault.get(key)? {
        Some(json) => Ok(json),
        None => Err(invalid(SIGN_IN)),
    }
}

/// A decoded session token, accepted only when it stays valid for more than 30
/// seconds after `now`.
pub fn accept_token(decoded: Option<VaultToken>, now: u64) -> (r: Result<VaultToken, AppError>)
    ensures
        match decoded {
            Some(t) => if t.expires_at > now + 30 {
                r == Ok::<VaultToken, AppError>(t)
            } else {
                r matches Err(e) && is_invalid(e, SIGN_IN@)
            },
            None => r matches Err(e) && is_invalid(e, SIGN_IN@),
        },
{
    match decoded {
        Some(t) => {
            if t.expires_at <= now || t.expires_at - now <= 30 {
                Err(invalid(SIGN_IN))
            } else {
                Ok(t)
            }
        },
        None => Err(invalid(SIGN_IN)),
    }
}

/// Whether `token` was issued for exactly the portal, region, account and role of `settings`.
pub open spec fn token_matches(settings: CredentialType, token: VaultToken) -> bool {
    match settings {
        CredentialType::IdentityCenter { start_url, sso_region, account_id, role_name, .. } => {
            &&& token.start_url@ == start_url@
            &&& token.sso_region@ == sso_region@
            &&& token.account_id matches Some(a) && a@ == account_id@
            &&& token.role_name matches Some(n) && n@ == role_name@
        },
        CredentialType::Other => false,
    }
}

/// Accepts a session token for a profile only when it was issued for the
/// profile's portal, region, account and role.
pub fn check_binding(profile: &Profile, token: VaultToken) -> (r: Result<VaultToken, AppError>)
    ensures
        token_matches(profile.credential_type, token) ==> r == Ok::<VaultToken, AppError>(token),
        profile.credential_type is Other ==> (r matches Err(e) && is_invalid(e, SIGN_IN@)),
        r is Ok ==> r == Ok::<VaultToken, AppError>(token) && match profile.credential_type {
            CredentialType::IdentityCenter { start_url, sso_region, account_id, role_name, .. } => {
                &&& token.start_url@ == start_url@
                &&& token.sso_region@ == sso_region@
                &&& token.account_id matches Some(a) && a@ == account_id@
                &&& token.role_name matches Some(n) && n@ == role_name@
            },
            CredentialType::Other => false,
        },
        profile.credential_type is IdentityCenter && !token_matches(profile.credential_type, token)
            ==> (r matches Err(e) && is_invalid(e, SETTINGS_CHANGED@)),
{
    match &profile.credential_type {
        CredentialType::IdentityCenter { start_url, sso_region, account_id, role_name, .. } => {
            let account_ok = match &token.account_id {
                Some(a) => str_eq(a.as_str(), account_id.as_str()),
                None => false,
            };
            let role_ok = match &token.role_name {
                Some(n) => str_eq(n.as_str(), role_name.as_str()),
                None => false,
            };
            if str_eq(token.start_url.as_str(), start_url.as_str()) && str_eq(
                token.sso_region.as_str(),
                sso_region.as_str(),
            ) && account_ok && role_ok {
                Ok(token)
            } else {
                Err(invalid(SETTINGS_CHANGED))
            }
        },
        CredentialType::Other => Err(invalid(SIGN_IN)),
    }
}

/// The session token of a profile, from what was decoded of its stored form:
/// accepted only when it stays valid for more than 30 seconds after `now` and
/// was issued for the profile's portal, region, account and role.
pub fn accept_bound_token(profile: &Profile, decoded: Option<VaultToken>, now: u64) -> (r: Result<VaultToken, AppError>)
    ensures
        match decoded {
            Some(t) => if t.expires_at <= now + 30 {
                r matches Err(e) && is_invalid(e, SIGN_IN@)
            } else if token_matches(profile.credential_type, t) {
                r == Ok::<VaultToken, AppError>(t)
            } else if profile.credential_type is Other {
                r matches Err(e) && is_invalid(e, SIGN_IN@)
            } else {
                r matches Err(e) && is_invalid(e, SETTINGS_CHANGED@)
            },
            None => r matches Err(e) && is_invalid(e, SIGN_IN@),
        },
        r is Ok ==> decoded is Some && r->Ok_0 == decoded->0 && decoded->0.expires_at > now + 30 && match profile.credential_type {
            CredentialType::IdentityCenter { start_url, sso_region, account_id, role_name, .. } => {
                &&& r->Ok_0.start_url@ == start_url@
                &&& r->Ok_0.sso_region@ == sso_region@
                &&& r->Ok_0.account_id matches Some(a) && a@ == account_id@
                &&& r->Ok_0.role_name matches Some(n) && n@ == role_name@
            },
            CredentialType::Other => false,
        },
{
    match accept_token(decoded, now) {
        Ok(token) => check_binding(profile, token),
        Err(e) => Err(e),
    }
}

/// A profile name: not blank, and at most `MAX_PROFILE_NAME` bytes.
pub open spec fn profile_name_ok(name: &str) -> bool {
    trim(name@).len() > 0 && name.len() <= MAX_PROFILE_NAME
}

/// Law: a token bound to one profile is refused for any profile whose
/// portal, region, account or role differs from it, character for character.
pub proof fn lemma_binding_distinguishes_settings(first: CredentialType, second: CredentialType, token: VaultToken)
    requires
        token_matches(first, token),
        token_matches(second, token),
    ensures
        first matches CredentialType::IdentityCenter { start_url: u1, sso_region: r1, account_id: a1, role_name: n1, .. }
            && second matches CredentialType::IdentityCenter { start_url: u2, sso_region: r2, account_id: a2, role_name: n2, .. }
            && u1@ == u2@ && r1@ == r2@ && a1@ == a2@ && n1@ == n2@,
        first matches CredentialType::IdentityCenter { sso_region: r1, .. } && r1@ == token.sso_region@,
        first matches CredentialType::IdentityCenter { start_url: u1, .. } && u1@ == token.start_url@,
{
}

/// Law: a profile name is accepted exactly when it is not blank once trimmed
/// and takes at most 128 bytes, whatever characters it holds.
pub proof fn lemma_profile_names(name: &str)
    ensures
        profile_name_ok(name) <==> (trim(name@).len() > 0 && name.len() <= 128),
{
}

/// Refuses a blank or overlong profile name.
pub fn check_profile_name(name: &str) -> (r: Result<(), AppError>)
    ensures
        profile_name_ok(name) ==> r is Ok,
        !profile_name_ok(name) ==> (r matches Err(e) && is_invalid(e, PROFILE_NAME@)),
{
    if trim_chars(&chars_of(name)).len() == 0 || name.len() > MAX_PROFILE_NAME {
        return Err(invalid(PROFILE_NAME));
    }
    Ok(())
}

/// The token bound to the chosen account and role.
pub fn bind_token(token: VaultToken, account_id: String, role_name: String) -> (r: VaultToken)
    ensures
        r == (VaultToken { account_id: Some(account_id), role_name: Some(role_name), ..token }),
{
    VaultToken { account_id: Some(account_id), role_name: Some(role_name), ..token }
}

/// The profile saved for a bound token: the trimmed name, the token's portal
/// and region, the chosen account and role, the session reference, and `region`.
pub fn identity_center_profile(
    name: &str,
    token: &VaultToken,
    account_id: String,
    role_name: String,
    session_ref: String,
    region: String,
) -> (p: Profile)
    ensures
        p.name@ == trim(name@),
        p.credential_type == (CredentialType::IdentityCenter {
            start_url: token.start_url,
            sso_region: token.sso_region,
            account_id,
            role_name,
            session_ref,
        }),
        p.region == Some(region),
        token_matches(p.credential_type, VaultToken { account_id: Some(account_id), role_name: Some(role_name), ..*token }),
{
    let trimmed = string_from_chars(&trim_chars(&chars_of(name)));
    Profile::new(
        trimmed,
        CredentialType::IdentityCenter {
            start_url: token.start_url.clone(),
            sso_region: token.sso_region.clone(),
            account_id,
            role_name,
            session_ref,
        },
        Some(region),
    )
}

/// A fresh session reference: `identity-center-` and a random UUID.
pub fn vault_key() -> (k: String)
    ensures
        is_session_key(k@),
        k@.take(SESSION_PREFIX@.len() as int) == SESSION_PREFIX@,
        uuid_hyphenated(k@.skip(SESSION_PREFIX@.len() as int)),
        forall|i: int|
            0 <= i < 36 && !is_uuid_hyphen_at(i) ==> is_lower_hex_char(
                #[trigger] k@.skip(SESSION_PREFIX@.len() as int)[i],
            ),
{
    let id = new_uuid_text();
    let mut chars = chars_of(SESSION_PREFIX);
    push_str_chars(&mut chars, id.as_str());
    proof {
        assert(chars@.take(SESSION_PREFIX@.len() as int) =~= SESSION_PREFIX@);
        assert(chars@.skip(SESSION_PREFIX@.len() as int) =~= id@);
    }
    string_from_chars(&chars)
}

/// Role credentials as AWS returned them; `expiration` is in milliseconds since the Unix epoch.
pub struct RoleCredentialsAnswer {
    pub access_key_id: Option<String>,
    pub secret_access_key: Option<String>,
    pub session_token: Option<String>,
    pub expiration: i64,
}

/// Temporary AWS credentials for a role; `expiration_millis` since the Unix epoch.
pub struct RoleCredentials {
    pub access_key_id: String,
    pub secret_access_key: String,
    pub session_token: String,
    pub expiration_millis: u64,
}

/// Whether AWS answered with complete role credentials that have not expired at `now` (seconds).
pub open spec fn role_answer_usable(role: Option<RoleCredentialsAnswer>, now: u64) -> bool {
    role matches Some(a) && a.access_key_id is Some && a.secret_access_key is Some && a.session_token
        is Some && a.expiration > now * 1000
}

/// Accepts the role credentials that AWS exchanged for a session token: all
/// three secrets must be present and the expiration must lie after `now`.
/// The credentials keep AWS's own expiration.
pub fn accept_role_credentials(role: Option<RoleCredentialsAnswer>, now: u64) -> (r: Result<RoleCredentials, AppError>)
    requires
        now * 1000 <= i64::MAX,
    ensures
        role_answer_usable(role, now) ==> (r matches Ok(c) && c.access_key_id == role->0.access_key_id->0
            && c.secret_access_key == role->0.secret_access_key->0 && c.session_token
            == role->0.session_token->0 && c.expiration_millis == role->0.expiration),
        !role_answer_usable(role, now) ==> (r matches Err(e) && is_invalid(e, SIGN_IN@)),
{
    let answer = match role {
        Some(a) => a,
        None => {
            return Err(invalid(SIGN_IN));
        },
    };
    let access = match answer.access_key_id {
        Some(v) => v,
        None => {
            return Err(invalid(SIGN_IN));
        },
    };
    let secret = match answer.secret_access_key {
        Some(v) => v,
        None => {
            return Err(invalid(SIGN_IN));
        },
    };
    let session = match answer.session_token {
        Some(v) => v,
        None => {
            return Err(invalid(SIGN_IN));
        },
    };
    let now_millis = (now * 1000) as i64;
    if answer.expiration <= now_millis {
        return Err(invalid(SIGN_IN));
    }
    Ok(RoleCredentials {
        access_key_id: access,
        secret_access_key: secret,
        session_token: session,
        expiration_millis: answer.expiration as u64,
    })
}

} // verus!
