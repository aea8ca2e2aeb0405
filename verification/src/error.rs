//! The error type of the credential layer and the user-facing messages.
use vstd::prelude::*;

verus! {

/// Errors reported to the user. Messages never carry secrets or vault diagnostics.
#[derive(Debug)]
pub enum AppError {
    InvalidCredentials(String),
    KeychainError(String),
    IoError(String),
    ConfigError(String),
}

impl AppError {
    /// The user-facing text of the error.
    pub fn to_string(&self) -> (s: String)
        ensures
            s@ == self.message(),
    {
        match self {
            AppError::InvalidCredentials(m) => m.clone(),
            AppError::KeychainError(m) => m.clone(),
            AppError::IoError(m) => m.clone(),
            AppError::ConfigError(m) => m.clone(),
        }
    }

    /// The message carried by the error.
    pub open spec fn message(&self) -> Seq<char> {
        match self {
            AppError::InvalidCredentials(m) => m@,
            AppError::KeychainError(m) => m@,
            AppError::IoError(m) => m@,
            AppError::ConfigError(m) => m@,
        }
    }
}

/// Shown when an IAM Identity Center session is missing, expired or signed out.
pub const SIGN_IN: &'static str =
    "Your AWS session has expired or was signed out. Sign in to AWS again in this profile.";

/// Shown when an AWS sign-in call fails or answers with something unexpected.
pub const NETWORK: &'static str = "AWS sign-in could not complete. Check your network and IAM Identity Center settings, then retry.";

/// Shown for every failure of the operating-system credential vault.
pub const VAULT_ERROR: &'static str = "The operating system credential vault is unavailable. Unlock your keychain or ask your VDI administrator to enable Credential Manager, or use an AWS SSO profile. No plaintext credential file was written.";

/// An invalid-credentials error with `message`.
pub fn invalid(message: &str) -> (e: AppError)
    ensures
        e == AppError::InvalidCredentials(e->InvalidCredentials_0),
        e.message() == message@,
{
    AppError::InvalidCredentials(message.to_owned())
}

/// The one error that every vault failure is reported as.
pub fn vault_error() -> (e: AppError)
    ensures
        is_vault_error(e),
{
    AppError::KeychainError(VAULT_ERROR.to_owned())
}

/// Whether `e` is the vault failure error.
pub open spec fn is_vault_error(e: AppError) -> bool {
    e matches AppError::KeychainError(m) && m@ == VAULT_ERROR@
}

/// Whether `e` is an invalid-credentials error with `message`.
pub open spec fn is_invalid(e: AppError, message: Seq<char>) -> bool {
    e matches AppError::InvalidCredentials(m) && m@ == message
}

} // verus!
