use glyph_anchor::config::{use_json_logs, ConfigError, CredentialSource, Environment, ServerConfig};

const HEX: &str = "000102030405060708090a0b0c0d0e0f101112131415161718191A1B1C1D1E1F";

fn secret() -> [u8; 32] {
    let mut secret = [0u8; 32];
    for i in 0..32 {
        secret[i] = i as u8;
    }
    secret
}

fn environment(credential: CredentialSource, server_secret: Option<&str>) -> Environment {
    Environment {
        credential,
        server_secret: server_secret.map(|text| text.to_string()),
        identity_path: None,
        vault_path: None,
        tokens_path: None,
        webhook_url: None,
    }
}

fn secret_in(credential: CredentialSource, server_secret: Option<&str>) -> Result<[u8; 32], ConfigError> {
    ServerConfig::from_env(environment(credential, server_secret)).map(|config| config.server_secret)
}

#[test]
fn defaults() {
    let config = ServerConfig::from_env(environment(CredentialSource::NoDirectory, Some(HEX))).unwrap();
    assert_eq!(config.identity_path, ".glyph_identity");
    assert_eq!(config.vault_path, "vault.redb");
    assert_eq!(config.tokens_path, "tokens.redb");
    assert_eq!(config.webhook_url, None);
    assert_eq!(config.webhook_secret, None);
    assert_eq!(config.server_secret, secret());
}

#[test]
fn configured_values_win() {
    let mut env = environment(CredentialSource::NoDirectory, Some(HEX));
    env.identity_path = Some("/a".to_string());
    env.vault_path = Some("/b".to_string());
    env.tokens_path = Some("/c".to_string());
    env.webhook_url = Some("https://push".to_string());
    let config = ServerConfig::from_env(env).unwrap();
    assert_eq!(config.identity_path, "/a");
    assert_eq!(config.vault_path, "/b");
    assert_eq!(config.tokens_path, "/c");
    assert_eq!(config.webhook_url, Some("https://push".to_string()));
}

#[test]
fn secret_from_the_variable() {
    assert_eq!(secret_in(CredentialSource::NoDirectory, Some(HEX)), Ok(secret()));
    assert_eq!(secret_in(CredentialSource::NoFile, Some(HEX)), Ok(secret()));
}

#[test]
fn white_space_around_the_secret_is_ignored() {
    let padded = format!(" \t{}\r\n\u{a0}\u{3000}", HEX);
    assert_eq!(secret_in(CredentialSource::NoDirectory, Some(&padded)), Ok(secret()));
    let file = format!("{}\n", HEX).into_bytes();
    assert_eq!(secret_in(CredentialSource::File(file), None), Ok(secret()));
    let split = format!("{} {}", &HEX[..32], &HEX[32..]);
    assert_eq!(secret_in(CredentialSource::NoDirectory, Some(&split)), Err(ConfigError::SecretNotHex));
}

#[test]
fn credential_wins_over_the_variable() {
    assert_eq!(secret_in(CredentialSource::File(vec![0xff; 32]), Some(HEX)), Ok([0xff; 32]));
    assert_eq!(secret_in(CredentialSource::File(HEX.as_bytes().to_vec()), Some("zz")), Ok(secret()));
}

#[test]
fn credential_of_32_digits_is_taken_as_it_is() {
    let digits = &HEX[..32];
    assert_eq!(
        secret_in(CredentialSource::File(digits.as_bytes().to_vec()), None).unwrap().as_slice(),
        digits.as_bytes()
    );
}

#[test]
fn every_error() {
    assert_eq!(secret_in(CredentialSource::NoDirectory, None), Err(ConfigError::SecretMissing));
    assert_eq!(secret_in(CredentialSource::NoFile, None), Err(ConfigError::SecretMissingNoCredential));
    assert_eq!(secret_in(CredentialSource::NoDirectory, Some("xyz")), Err(ConfigError::SecretNotHex));
    assert_eq!(secret_in(CredentialSource::NoFile, Some("0")), Err(ConfigError::SecretNotHex));
    assert_eq!(secret_in(CredentialSource::NoDirectory, Some("00ff")), Err(ConfigError::SecretLength));
    assert_eq!(secret_in(CredentialSource::NoDirectory, Some("")), Err(ConfigError::SecretLength));
    assert_eq!(secret_in(CredentialSource::File(vec![0xff; 31]), None), Err(ConfigError::CredentialNotUtf8));
    assert_eq!(secret_in(CredentialSource::File(b"hello".to_vec()), Some(HEX)), Err(ConfigError::CredentialNotHex));
    assert_eq!(secret_in(CredentialSource::File(b"00ff".to_vec()), Some(HEX)), Err(ConfigError::SecretLength));
}

#[test]
fn messages() {
    assert_eq!(ConfigError::SecretMissing.message(), "GLYPH_SERVER_SECRET must be set");
    assert_eq!(
        ConfigError::SecretMissingNoCredential.message(),
        "GLYPH_SERVER_SECRET must be set (no systemd credentials found)"
    );
    assert_eq!(ConfigError::SecretNotHex.message(), "GLYPH_SERVER_SECRET must be 64 hex characters");
    assert_eq!(
        ConfigError::CredentialNotUtf8.message(),
        "Systemd credential is not valid UTF-8 and not 32 bytes raw binary"
    );
    assert_eq!(
        ConfigError::CredentialNotHex.message(),
        "Systemd credential must be either 32 raw bytes or 64 hex characters"
    );
    assert_eq!(ConfigError::SecretLength.message(), "Server secret must be 32 bytes");
}

#[test]
fn json_logs() {
    assert!(use_json_logs(&Some("1".to_string())));
    assert!(use_json_logs(&Some("true".to_string())));
    assert!(use_json_logs(&Some("TrUe".to_string())));
    assert!(!use_json_logs(&Some("0".to_string())));
    assert!(!use_json_logs(&Some("true ".to_string())));
    assert!(!use_json_logs(&Some("".to_string())));
    assert!(!use_json_logs(&None));
}
