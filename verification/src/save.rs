//! Saving a profile after an IAM Identity Center sign-in: the session token is
//! persisted only while its login is still live, and the persisted reference
//! is rolled back when the profile cannot be saved; and signing out of one.
use vstd::prelude::*;
use crate::error::{AppError, invalid, is_invalid, is_vault_error, NETWORK, SIGN_IN, VAULT_ERROR};
use crate::keychain::{
    chunk_plan, deletable, deleted, is_keychain_error, SESSION_PREFIX, is_session_key, lemma_read_after_store,
    same_except_chunks, stored, vault_reading, KeychainStorage, MAX_CHUNKS, SESSION_EXISTS,
};
use crate::listing::{role_assigned, Role};
use crate::portal::{portal_parts_ok, region_valid, url_parse_result, validate_portal, PORTAL_MESSAGE, PORTAL_URL_MESSAGE, REGION_MESSAGE};
use crate::provider::{
    check_profile_name, identity_center_profile, profile_name_ok, vault_key, CredentialType, Profile,
    PROFILE_NAME, ROLE_NOT_ASSIGNED,
};
use crate::text::trim;
use crate::sessions::{session_token, Sessions, VaultToken, FINISH_SIGN_IN};
use crate::vault::Vault;

verus! {

/// The checks before a profile is saved from the login `session_id`: the
/// profile name, then the login's token at `now`, then the token's portal with
/// the profile's `region`. Gives the login's token. Nothing is stored and the
/// login is kept.
pub fn begin_save(sessions: &Sessions, session_id: &str, now: u64, name: &str, region: &str) -> (r: Result<VaultToken, AppError>)
    ensures
        !profile_name_ok(name) ==> (r matches Err(e) && is_invalid(e, PROFILE_NAME@)),
        profile_name_ok(name) && session_token(sessions@, session_id@, now) is None ==> (r matches Err(e) && (
        is_invalid(e, SIGN_IN@) || (is_invalid(e, FINISH_SIGN_IN@) && sessions@[session_id@].token is None))),
        profile_name_ok(name) && session_token(sessions@, session_id@, now) is Some ==> {
            let t = session_token(sessions@, session_id@, now)->0;
            if !region_valid(region@) {
                r matches Err(e) && is_invalid(e, REGION_MESSAGE@)
            } else {
                match url_parse_result(trim(t.start_url@)) {
                    None => r matches Err(e) && is_invalid(e, PORTAL_URL_MESSAGE@),
                    Some(p) => if portal_parts_ok(p) {
                        r == Ok::<VaultToken, AppError>(t)
                    } else {
                        r matches Err(e) && is_invalid(e, PORTAL_MESSAGE@)
                    },
                }
            }
        },
{
    match check_profile_name(name) {
        Ok(()) => {},
        Err(e) => {
            return Err(e);
        },
    }
    let token = match sessions.token_for_session(session_id, now) {
        Ok(t) => t,
        Err(e) => {
            return Err(e);
        },
    };
    match validate_portal(token.start_url.as_str(), region) {
        Ok(_) => Ok(token),
        Err(e) => Err(e),
    }
}

/// Refuses a role that is not among the `roles` assigned to the user.
pub fn require_role(roles: &Vec<Role>, role_name: &str) -> (r: Result<(), AppError>)
    ensures
        r is Ok <==> exists|i: int| 0 <= i < roles@.len() && #[trigger] roles@[i].role_name@ == role_name@,
        r matches Err(e) ==> is_invalid(e, ROLE_NOT_ASSIGNED@),
{
    if role_assigned(roles, role_name) {
        Ok(())
    } else {
        Err(invalid(ROLE_NOT_ASSIGNED))
    }
}

/// Persists the stored form `json` of a bound session token under a new
/// session reference, after checking again that the login `session_id` is
/// still live at `now` (a login cancelled or expired meanwhile persists
/// nothing). `json` is `None` when the token could not be encoded. Gives the
/// session reference.
pub fn persist_login<V: Vault>(
    sessions: &Sessions,
    vault: &mut KeychainStorage<V>,
    session_id: &str,
    now: u64,
    json: Option<String>,
) -> (r: Result<String, AppError>)
    ensures
        session_token(sessions@, session_id@, now) is None ==> (r matches Err(e) && (is_invalid(e, SIGN_IN@)
            || (is_invalid(e, FINISH_SIGN_IN@) && sessions@[session_id@].token is None))) && *final(vault)
            == *old(vault),
        session_token(sessions@, session_id@, now) is Some && json is None ==> (r matches Err(e) && is_invalid(
            e,
            NETWORK@,
        )) && *final(vault) == *old(vault),
        r is Ok ==> session_token(sessions@, session_id@, now) is Some && json is Some && is_session_key(
            r->Ok_0@,
        ),
        r is Ok && old(vault).faithful() ==> final(vault).entries() == stored(
            old(vault).entries(),
            r->Ok_0@,
            json->0@,
        ) && vault_reading(final(vault).entries(), r->Ok_0@) == Some(Some(json->0@)),
        session_token(sessions@, session_id@, now) is Some && json is Some ==> (r matches Err(e) ==> is_vault_error(e)
            || is_keychain_error(e, SESSION_EXISTS@)),
        session_token(sessions@, session_id@, now) is Some && json is Some && r is Err && old(vault).faithful()
            ==> exists|k: Seq<char>|
            is_session_key(k) && same_except_chunks(old(vault).entries(), final(vault).entries(), k),
        old(vault).faithful() && r is Err && is_keychain_error(r->Err_0, SESSION_EXISTS@) ==> exists|k: Seq<char>|
            is_session_key(k) && old(vault).entries().contains_key(k),
        old(vault).reliable() && session_token(sessions@, session_id@, now) is Some && json is Some
            && chunk_plan(json->0@).len() <= MAX_CHUNKS && (forall|k: Seq<char>|
            is_session_key(k) ==> !(#[trigger] old(vault).entries().contains_key(k))) ==> r is Ok,
        old(vault).reliable() && session_token(sessions@, session_id@, now) is Some && json is Some
            && chunk_plan(json->0@).len() <= MAX_CHUNKS ==> (r is Ok || (r matches Err(e) && is_keychain_error(
            e,
            SESSION_EXISTS@,
        ))),
{
    match sessions.token_for_session(session_id, now) {
        Ok(_) => {},
        Err(e) => {
            return Err(e);
        },
    }
    let json = match json {
        Some(j) => j,
        None => {
            return Err(invalid(NETWORK));
        },
    };
    let key = vault_key();
    match vault.store(key.as_str(), json.as_str()) {
        Ok(()) => {
            proof {
                if old(vault).faithful() {
                    lemma_read_after_store(old(vault).entries(), key@, json@);
                }
            }
            Ok(key)
        },
        Err(e) => {
            proof {
                if old(vault).faithful() {
                    assert(same_except_chunks(old(vault).entries(), vault.entries(), key@));
                    if !old(vault).entries().contains_key(key@) {
                        assert(is_vault_error(e));
                        assert(VAULT_ERROR@ != SESSION_EXISTS@) by {
                            reveal_strlit("The operating system credential vault is unavailable. Unlock your keychain or ask your VDI administrator to enable Credential Manager, or use an AWS SSO profile. No plaintext credential file was written.");
                            reveal_strlit("The AWS session reference already exists. Start a new sign-in.");
                            assert(VAULT_ERROR@[4] != SESSION_EXISTS@[4]);
                        }
                    }
                }
            }
            Err(e)
        },
    }
}

/// Persists the bound `token`, whose stored form is `json`, as `persist_login`
/// does, and gives the profile that refers to it: the trimmed `name`, the
/// token's portal and region, the chosen account and role, the new session
/// reference and the default `region`.
pub fn persist_profile<V: Vault>(
    sessions: &Sessions,
    vault: &mut KeychainStorage<V>,
    session_id: &str,
    now: u64,
    name: &str,
    token: &VaultToken,
    account_id: String,
    role_name: String,
    region: String,
    json: Option<String>,
) -> (r: Result<Profile, AppError>)
    ensures
        session_token(sessions@, session_id@, now) is None ==> (r matches Err(e) && (is_invalid(e, SIGN_IN@)
            || (is_invalid(e, FINISH_SIGN_IN@) && sessions@[session_id@].token is None))) && *final(vault)
            == *old(vault),
        session_token(sessions@, session_id@, now) is Some && json is None ==> (r matches Err(e) && is_invalid(
            e,
            NETWORK@,
        )) && *final(vault) == *old(vault),
        session_token(sessions@, session_id@, now) is Some && json is Some ==> (r matches Err(e) ==> is_vault_error(e)
            || is_keychain_error(e, SESSION_EXISTS@)),
        old(vault).reliable() && session_token(sessions@, session_id@, now) is Some && json is Some
            && chunk_plan(json->0@).len() <= MAX_CHUNKS && (forall|k: Seq<char>|
            is_session_key(k) ==> !(#[trigger] old(vault).entries().contains_key(k))) ==> r is Ok,
        r is Ok ==> session_token(sessions@, session_id@, now) is Some && json is Some && match r->Ok_0.credential_type {
            CredentialType::IdentityCenter { start_url, sso_region, account_id: a, role_name: n, session_ref } => {
                &&& r->Ok_0.name@ == trim(name@)
                &&& r->Ok_0.region == Some(region)
                &&& start_url == token.start_url
                &&& sso_region == token.sso_region
                &&& a == account_id
                &&& n == role_name
                &&& is_session_key(session_ref@)
                &&& session_ref@.take(SESSION_PREFIX@.len() as int) == SESSION_PREFIX@
                &&& old(vault).faithful() ==> final(vault).entries() == stored(
                    old(vault).entries(),
                    session_ref@,
                    json->0@,
                ) && vault_reading(final(vault).entries(), session_ref@) == Some(Some(json->0@))
            },
            CredentialType::Other => false,
        },
{
    let session_ref = match persist_login(sessions, vault, session_id, now, json) {
        Ok(k) => k,
        Err(e) => {
            return Err(e);
        },
    };
    Ok(identity_center_profile(name, token, account_id, role_name, session_ref, region))
}

/// The first step of signing out of `profile`: an IAM Identity Center
/// profile's session reference is deleted from the vault, and is given back
/// when the sign-out may go on to revoke the session; other profiles are left
/// alone and give `None`. A failed delete stops the sign-out.
pub fn forget_session<V: Vault>(vault: &mut KeychainStorage<V>, profile: &Profile) -> (r: Result<Option<String>, AppError>)
    ensures
        match profile.credential_type {
            CredentialType::IdentityCenter { session_ref, .. } => {
                &&& r matches Ok(o) ==> o == Some(session_ref)
                &&& r matches Err(e) ==> is_vault_error(e)
                &&& old(vault).faithful() && r is Ok ==> deletable(old(vault).entries(), session_ref@)
                    && final(vault).entries() == deleted(old(vault).entries(), session_ref@)
                &&& old(vault).reliable() ==> (r is Ok <==> deletable(old(vault).entries(), session_ref@))
            },
            CredentialType::Other => r == Ok::<Option<String>, AppError>(None) && *final(vault) == *old(vault),
        },
{
    match &profile.credential_type {
        CredentialType::IdentityCenter { session_ref, .. } => {
            match vault.delete(session_ref.as_str()) {
                Ok(()) => Ok(Some(session_ref.clone())),
                Err(e) => Err(e),
            }
        },
        CredentialType::Other => Ok(None),
    }
}

/// Ends saving a profile with the outcome `saved` of the profile store: on
/// success the login `session_id` is forgotten; on failure the session
/// reference `session_ref` just persisted is deleted again. Gives `saved`.
pub fn conclude_save<V: Vault, P>(
    sessions: &mut Sessions,
    vault: &mut KeychainStorage<V>,
    session_id: &str,
    session_ref: &str,
    saved: Result<P, AppError>,
) -> (r: Result<P, AppError>)
    ensures
        r == saved,
        saved is Ok ==> final(sessions)@ == old(sessions)@.remove(session_id@) && *final(vault) == *old(vault),
        saved is Err ==> final(sessions)@ == old(sessions)@,
        saved is Err && old(vault).steady() ==> final(vault).same_terms(old(vault)),
        saved is Err && old(vault).reliable() && deletable(old(vault).entries(), session_ref@)
            ==> final(vault).entries() == deleted(old(vault).entries(), session_ref@),
{
    match saved {
        Ok(p) => {
            sessions.remove(session_id);
            Ok(p)
        },
        Err(e) => {
            let _ = vault.delete(session_ref);
            Err(e)
        },
    }
}

} // verus!
