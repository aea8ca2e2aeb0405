[package]
name = "transfer_credentials"
version = "0.1.0"
edition = "2021"
publish = false

[dependencies]
keyring = { version = "3", features = ["linux-native", "apple-native", "windows-native"] }
uuid = { version = "1", features = ["v4"] }
url = "2"
serde = { version = "1", features = ["derive"] }
serde_json = "1"
tempfile = "3"
tokio = { version = "1", features = ["sync", "time"] }
log = "0.4"
aws-config = { version = "1", default-features = false }
aws-credential-types = "1"
aws-sdk-sso = { version = "1", default-features = false }
aws-sdk-ssooidc = { version = "1", default-features = false }
aws-smithy-types = "1"

[dev-dependencies]
