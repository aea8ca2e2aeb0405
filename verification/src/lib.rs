//! Credential handling for a desktop S3 client: operating-system vault storage
//! with chunked session tokens, IAM Identity Center portal and device-login
//! validation, the login session table and the account/role listing rules.
pub mod error;
pub mod keychain;
pub mod listing;
pub mod portable;
pub mod portal;
pub mod provider;
pub mod save;
pub mod sessions;
pub mod text;
pub mod vault;
