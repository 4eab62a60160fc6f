use jsonwebtoken::{decode, Algorithm, DecodingKey, Validation};
use openssl::ec::{EcGroup, EcKey};
use openssl::nid::Nid;
use openssl::pkey::{PKey, Private};
use openssl::rsa::Rsa;
use openssl::symm::Cipher;
use snowflake::config::{SnowflakeAuthenticator, SnowflakeReaderConfig};
use snowflake::error::ClientError;
use snowflake::jwt::{
    der_fingerprint, jwt_claims, jwt_token, parse_private_key, public_key_fingerprint, sign_token,
    JWT_LIFETIME_SECONDS,
};

fn config() -> SnowflakeReaderConfig {
    SnowflakeReaderConfig {
        account: "xy12345-external.global".to_string(),
        user: "Re\u{e4}der".to_string(),
        authenticator: SnowflakeAuthenticator::SnowflakeJwt,
        role: None,
        warehouse: None,
        database: None,
        schema: None,
        private_key_file: "key.pem".to_string(),
        private_key_file_pwd: None,
    }
}

fn rsa_key(bits: u32) -> PKey<Private> {
    PKey::from_rsa(Rsa::generate(bits).unwrap()).unwrap()
}

#[test]
fn parses_encrypted_private_key() {
    let key = rsa_key(2048);
    let encrypted = key
        .private_key_to_pem_pkcs8_passphrase(Cipher::aes_256_cbc(), b"secret")
        .unwrap();
    let key = parse_private_key(&key.private_key_to_pem_pkcs8().unwrap(), None).unwrap();

    assert!(parse_private_key(&encrypted, None).is_err());
    let decrypted = parse_private_key(&encrypted, Some("secret")).unwrap();
    assert_eq!(
        public_key_fingerprint(&decrypted).unwrap(),
        public_key_fingerprint(&key).unwrap()
    );
}

#[test]
fn fingerprints_are_base64_of_sha256() {
    // The digest of the empty text, as given in the definition of SHA-256.
    assert_eq!(der_fingerprint(b""), "47DEQpj8HBSa+/TImW+5JCeuQeRkm5NMpJWZG3hSuFU=");
    assert_eq!(der_fingerprint(b"abc"), "ungWv48Bz+pBQUDeXa4iI7ADYaOWF3qctBD/YfIAFa0=");
    let key = rsa_key(2048);
    let read = parse_private_key(&key.private_key_to_pem_pkcs8().unwrap(), None).unwrap();
    assert_eq!(
        public_key_fingerprint(&read).unwrap(),
        der_fingerprint(&key.public_key_to_der().unwrap())
    );
}

#[test]
fn claims_name_the_key_and_expire() {
    let claims = jwt_claims(&config(), "FINGER", 1_700_000_000);
    assert_eq!(claims.sub, "XY12345.RE\u{e4}DER");
    assert_eq!(claims.iss, "XY12345.RE\u{e4}DER.SHA256:FINGER");
    assert_eq!(claims.iat, 1_700_000_000);
    assert_eq!(claims.exp, 1_700_000_060);
    assert_ne!(claims.iss, jwt_claims(&config(), "OTHER", 1_700_000_000).iss);
    let latest = u64::MAX - JWT_LIFETIME_SECONDS;
    assert_eq!(jwt_claims(&config(), "", latest).exp, u64::MAX);
}

#[test]
fn tokens_are_signed_with_the_key() {
    let key = rsa_key(2048);
    let encrypted = key
        .private_key_to_pem_pkcs8_passphrase(Cipher::aes_256_cbc(), "p\u{e4}ss".as_bytes())
        .unwrap();
    let mut config = config();
    config.private_key_file_pwd = Some("p\u{e4}ss".to_string());
    let token = jwt_token(&config, &encrypted, 1_700_000_000).unwrap();
    assert_eq!(token, jwt_token(&config, &encrypted, 1_700_000_000).unwrap());

    let mut validation = Validation::new(Algorithm::RS256);
    validation.validate_exp = false;
    let public = DecodingKey::from_rsa_pem(&key.public_key_to_pem().unwrap()).unwrap();
    let data = decode::<serde_json::Value>(&token, &public, &validation).unwrap();
    assert_eq!(data.header.typ.as_deref(), Some("JWT"));
    assert_eq!(data.header.alg, Algorithm::RS256);
    let claims = data.claims.as_object().unwrap();
    let keys: Vec<&str> = claims.keys().map(|key| key.as_str()).collect();
    assert_eq!(keys, ["iss", "sub", "iat", "exp"]);
    assert_eq!(claims["sub"], "XY12345.RE\u{e4}DER");
    assert_eq!(claims["iat"], 1_700_000_000u64);
    assert_eq!(claims["exp"], 1_700_000_060u64);
    let fingerprint = der_fingerprint(&key.public_key_to_der().unwrap());
    assert_eq!(
        claims["iss"].as_str().unwrap(),
        format!("XY12345.RE\u{e4}DER.SHA256:{fingerprint}")
    );

    let other = DecodingKey::from_rsa_pem(&rsa_key(2048).public_key_to_pem().unwrap()).unwrap();
    assert!(decode::<serde_json::Value>(&token, &other, &validation).is_err());

    let written = key.private_key_to_pem_pkcs8().unwrap();
    let der = key.public_key_to_der().unwrap();
    assert_eq!(sign_token(&config, &der, &written, 1_700_000_000).unwrap(), token);
}

#[test]
fn unusable_keys_are_told_apart() {
    let unreadable = jwt_token(&config(), b"no key", 0).unwrap_err();
    assert!(matches!(unreadable, ClientError::PrivateKeyParse { .. }));
    assert_eq!(
        unreadable.message(),
        "error parsing Snowflake RSA private key; provide 'private_key_file_pwd' if the key is encrypted"
    );

    let group = EcGroup::from_curve_name(Nid::X9_62_PRIME256V1).unwrap();
    let elliptic = PKey::from_ec_key(EcKey::generate(&group).unwrap()).unwrap();
    let pem = elliptic.private_key_to_pem_pkcs8().unwrap();
    let error = jwt_token(&config(), &pem, 0).unwrap_err();
    assert!(matches!(error, ClientError::PrivateKeyNotRsa { .. }));
    assert_eq!(error.message(), "error parsing Snowflake RSA private key");

    let pem = rsa_key(1024).private_key_to_pem_pkcs8().unwrap();
    let error = jwt_token(&config(), &pem, 0).unwrap_err();
    assert!(matches!(error, ClientError::JwtSign { .. }));
    assert_eq!(error.message(), "error signing Snowflake JWT");
}

#[test]
fn the_subject_ignores_case() {
    let mut other = config();
    other.account = "Xy12345-EXTERNAL.Global".to_string();
    other.user = "rE\u{e4}DER".to_string();
    assert_eq!(jwt_claims(&other, "F", 1).sub, jwt_claims(&config(), "F", 1).sub);
}

#[test]
fn a_key_has_one_fingerprint() {
    let key = rsa_key(2048);
    let mut shown = Vec::new();
    for passphrase in ["one", "two"] {
        let pem = key
            .private_key_to_pem_pkcs8_passphrase(Cipher::aes_256_cbc(), passphrase.as_bytes())
            .unwrap();
        let read = parse_private_key(&pem, Some(passphrase)).unwrap();
        shown.push(public_key_fingerprint(&read).unwrap());
    }
    let plain = parse_private_key(&key.rsa().unwrap().private_key_to_pem().unwrap(), None).unwrap();
    shown.push(public_key_fingerprint(&plain).unwrap());
    assert_eq!(shown[0].len(), 44);
    assert_eq!(shown[0], shown[1]);
    assert_eq!(shown[0], shown[2]);
    let other = rsa_key(2048).private_key_to_pem_pkcs8().unwrap();
    let other = parse_private_key(&other, None).unwrap();
    assert_ne!(public_key_fingerprint(&other).unwrap(), shown[0]);
}

#[test]
fn the_cause_of_a_refusal_is_kept() {
    let error = jwt_token(&config(), b"no key", 0).unwrap_err();
    let ClientError::PrivateKeyParse { cause } = error else {
        panic!("{error:?}");
    };
    assert!(!cause.errors().is_empty());
}

#[test]
fn tokens_ignore_case_and_other_settings() {
    let pem = rsa_key(2048).private_key_to_pem_pkcs8().unwrap();
    let mut other = config();
    other.account = "XY12345-external.GLOBAL".to_string();
    other.user = "RE\u{e4}DER".to_string();
    other.role = Some("role".to_string());
    other.warehouse = Some("warehouse".to_string());
    other.private_key_file = "elsewhere.pem".to_string();
    let token = jwt_token(&config(), &pem, 7).unwrap();
    assert_eq!(jwt_token(&other, &pem, 7).unwrap(), token);
    assert_ne!(jwt_token(&other, &pem, 8).unwrap(), token);
    other.user = "writer".to_string();
    assert_ne!(jwt_token(&other, &pem, 7).unwrap(), token);
}
