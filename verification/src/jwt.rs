//! Private keys, and the signed tokens with which a login is authorized.

use base64::engine::general_purpose::STANDARD;
use base64::Engine;
use jsonwebtoken::{encode, Algorithm, EncodingKey, Header};
use openssl::error::ErrorStack;
use openssl::pkey::PKey;
use vstd::prelude::*;
use vstd::string::*;
use vstd::utf8::*;

use crate::account;
use crate::config::{SnowflakeAuthenticator, SnowflakeReaderConfig};
use crate::error::ClientError;
use crate::json;
use crate::json::Json;
use crate::text;

verus! {

#[verifier::external_type_specification]
#[verifier::external_body]
pub struct ExErrorStack(ErrorStack);

#[verifier::external_type_specification]
#[verifier::external_body]
pub struct ExJwtError(jsonwebtoken::errors::Error);

/// For how many seconds a token is valid.
pub const JWT_LIFETIME_SECONDS: u64 = 60;

/// What `PKey::private_key_to_pem_pkcs8` writes for the private key in a PEM text that a
/// passphrase opens: the key itself, without encryption.
pub uninterp spec fn pkcs8_pem(pem: Seq<u8>, passphrase: Seq<u8>) -> Seq<u8>;

/// What `PKey::public_key_to_der` writes for the private key in a PEM text that a
/// passphrase opens.
pub uninterp spec fn public_key_der(pem: Seq<u8>, passphrase: Seq<u8>) -> Seq<u8>;

/// Whether `der` is the DER form of the public key that belongs to an RSA key, given as
/// what `PKey::private_key_to_pem_pkcs8` writes for it: every PEM text that holds that key
/// has this public key.
pub open spec fn is_public_key_of(der: Seq<u8>, key: Seq<u8>) -> bool {
    forall|pem: Seq<u8>, passphrase: Seq<u8>| #[trigger]
        pkcs8_pem(pem, passphrase) == key ==> public_key_der(pem, passphrase) == der
}

/// What `openssl::sha::sha256` computes.
pub uninterp spec fn sha256_digest(data: Seq<u8>) -> Seq<u8>;

/// The character for six bits in the standard base64 alphabet.
pub open spec fn base64_digit(n: int) -> char {
    if n < 26 {
        ('A' as u32 + n) as char
    } else if n < 52 {
        ('a' as u32 + (n - 26)) as char
    } else if n < 62 {
        ('0' as u32 + (n - 52)) as char
    } else if n == 62 {
        '+'
    } else {
        '/'
    }
}

/// Bytes in standard base64: every three bytes are four digits, and `=` fills up the last
/// four.
pub open spec fn base64_text(data: Seq<u8>) -> Seq<char>
    decreases data.len(),
{
    if data.len() == 0 {
        Seq::empty()
    } else {
        let a = data[0] as int;
        let b = if data.len() > 1 {
            data[1] as int
        } else {
            0
        };
        let c = if data.len() > 2 {
            data[2] as int
        } else {
            0
        };
        let digits = seq![
            base64_digit(a / 4),
            base64_digit(a % 4 * 16 + b / 16),
            if data.len() > 1 {
                base64_digit(b % 16 * 4 + c / 64)
            } else {
                '='
            },
            if data.len() > 2 {
                base64_digit(c % 64)
            } else {
                '='
            },
        ];
        if data.len() > 3 {
            digits + base64_text(data.skip(3))
        } else {
            digits
        }
    }
}

/// Whether `EncodingKey::from_rsa_pem` finds an RSA key in a PEM text.
pub uninterp spec fn is_rsa_pem(pem: Seq<u8>) -> bool;

/// The token that `jsonwebtoken::encode` makes of these claims with the algorithm RS256
/// and the RSA key in a PEM text, if it can sign with that key.
pub uninterp spec fn rs256_token(
    claims: Seq<(Seq<char>, Json)>,
    pem: Seq<u8>,
) -> Option<Seq<char>>;

/// PEM texts and passphrases that can be handed to OpenSSL.
pub open spec fn is_key_input(pem: Seq<u8>, passphrase: Seq<u8>) -> bool {
    pem.len() <= i32::MAX && !passphrase.contains(0u8)
}

/// Whether the text is a private key written by `PKey::private_key_to_pem_pkcs8`.
pub open spec fn is_written_key(text: Seq<u8>) -> bool {
    exists|pem: Seq<u8>, passphrase: Seq<u8>| text == #[trigger] pkcs8_pem(pem, passphrase)
}

/// The bytes of a passphrase; there are none where no passphrase is given.
pub open spec fn passphrase_bytes(passphrase: Option<&str>) -> Seq<u8> {
    match passphrase {
        Some(p) => encode_utf8(p@),
        None => Seq::empty(),
    }
}

/// `PKey::private_key_from_pem_passphrase`: whether there is a private key in a PEM text
/// that the passphrase opens. Which ciphers are known depends on the OpenSSL that is
/// installed, so nothing is said of when it succeeds.
#[verifier::external_body]
fn open_private_key(pem: &[u8], passphrase: &[u8]) -> (r: Result<(), ErrorStack>)
    requires
        is_key_input(pem@, passphrase@),
{
    PKey::private_key_from_pem_passphrase(pem, passphrase).map(|_| ())
}

/// Whether OpenSSL can have found a private key in the PEM text that the passphrase opens.
pub closed spec fn is_opened(pem: Seq<u8>, passphrase: Seq<u8>) -> bool {
    exists|p: &[u8], s: &[u8], r: Result<(), ErrorStack>| #[trigger]
        call_ensures(open_private_key, (p, s), r) && r is Ok && p@ == pem && s@ == passphrase
}

/// Whether OpenSSL can have given this reason to find no private key in the PEM text that
/// the passphrase opens.
pub closed spec fn is_refused(pem: Seq<u8>, passphrase: Seq<u8>, cause: ErrorStack) -> bool {
    exists|p: &[u8], s: &[u8]| #[trigger]
        call_ensures(open_private_key, (p, s), Err(cause)) && p@ == pem && s@ == passphrase
}

/// `PKey::public_key_to_der` on the private key in a PEM text that the passphrase opens.
/// An RSA key holds its public key, so that there the public key does not depend on how
/// the text is encrypted.
#[verifier::external_body]
fn write_public_key(pem: &[u8], passphrase: &[u8]) -> (r: Result<Vec<u8>, ErrorStack>)
    requires
        is_key_input(pem@, passphrase@),
    ensures
        r matches Ok(der) ==> der@ == public_key_der(pem@, passphrase@),
        r matches Ok(der) ==> (is_rsa_pem(pkcs8_pem(pem@, passphrase@)) ==> is_public_key_of(
            der@,
            pkcs8_pem(pem@, passphrase@),
        )),
{
    PKey::private_key_from_pem_passphrase(pem, passphrase)?.public_key_to_der()
}

/// Whether OpenSSL can have given this reason to write no public key.
pub closed spec fn is_unextracted(pem: Seq<u8>, passphrase: Seq<u8>, cause: ErrorStack) -> bool {
    exists|p: &[u8], s: &[u8]| #[trigger]
        call_ensures(write_public_key, (p, s), Err(cause)) && p@ == pem && s@ == passphrase
}

/// `PKey::private_key_to_pem_pkcs8` on the private key in a PEM text that the passphrase
/// opens.
#[verifier::external_body]
fn write_private_key(pem: &[u8], passphrase: &[u8]) -> (r: Result<Vec<u8>, ErrorStack>)
    requires
        is_key_input(pem@, passphrase@),
    ensures
        r matches Ok(text) ==> text@ == pkcs8_pem(pem@, passphrase@),
{
    PKey::private_key_from_pem_passphrase(pem, passphrase)?.private_key_to_pem_pkcs8()
}

/// Whether OpenSSL can have given this reason not to write the private key.
pub closed spec fn is_unwritten(pem: Seq<u8>, passphrase: Seq<u8>, cause: ErrorStack) -> bool {
    exists|p: &[u8], s: &[u8]| #[trigger]
        call_ensures(write_private_key, (p, s), Err(cause)) && p@ == pem && s@ == passphrase
}

/// `openssl::sha::sha256`: the digest depends on the data alone.
pub assume_specification[ openssl::sha::sha256 ](data: &[u8]) -> (r: [u8; 32])
    ensures
        r@ == sha256_digest(data@),
;

/// `encode` of base64's `STANDARD` engine: the standard alphabet, with padding.
#[verifier::external_body]
fn encode_base64(data: &[u8]) -> (r: String)
    requires
        data@.len() <= usize::MAX / 4,
    ensures
        r@ == base64_text(data@),
{
    STANDARD.encode(data)
}

/// `EncodingKey::from_rsa_pem`: whether it finds an RSA key in a text that OpenSSL wrote.
#[verifier::external_body]
fn check_rsa_pem(pem: &[u8]) -> (r: Result<(), jsonwebtoken::errors::Error>)
    requires
        is_written_key(pem@),
    ensures
        r is Ok <==> is_rsa_pem(pem@),
{
    EncodingKey::from_rsa_pem(pem).map(|_| ())
}

/// Whether `check_rsa_pem` can have given this reason to find no RSA key.
pub closed spec fn is_not_rsa(pem: Seq<u8>, cause: jsonwebtoken::errors::Error) -> bool {
    exists|p: &[u8]| #[trigger] call_ensures(check_rsa_pem, (p,), Err(cause)) && p@ == pem
}

/// The token in the outcome of signing.
pub open spec fn token_of(r: Result<String, jsonwebtoken::errors::Error>) -> Option<Seq<char>> {
    match r {
        Ok(token) => Some(token@),
        Err(_) => None,
    }
}

/// `jsonwebtoken::encode` with the algorithm RS256 and the RSA key in a PEM text.
#[verifier::external_body]
fn sign_claims(claims: &serde_json::Map<String, serde_json::Value>, pem: &[u8]) -> (r: Result<
    String,
    jsonwebtoken::errors::Error,
>)
    requires
        is_written_key(pem@),
        is_rsa_pem(pem@),
    ensures
        token_of(r) == rs256_token(json::object_members(*claims), pem@),
{
    encode(&Header::new(Algorithm::RS256), claims, &EncodingKey::from_rsa_pem(pem)?)
}

/// Whether `sign_claims` can have given this reason to sign no token.
pub closed spec fn is_unsigned(
    claims: Seq<(Seq<char>, Json)>,
    pem: Seq<u8>,
    cause: jsonwebtoken::errors::Error,
) -> bool {
    exists|c: &serde_json::Map<String, serde_json::Value>, p: &[u8]| #[trigger]
        call_ensures(sign_claims, (c, p), Err(cause)) && json::object_members(*c) == claims && p@
            == pem
}

/// A private key, as the PEM text that holds it and the passphrase that opens it.
pub struct PrivateKey {
    pem: Vec<u8>,
    passphrase: Vec<u8>,
}

impl PrivateKey {
    #[verifier::type_invariant]
    spec fn is_well_formed(self) -> bool {
        is_key_input(self.pem@, self.passphrase@)
    }

    /// The PEM text that holds the key.
    pub closed spec fn pem(self) -> Seq<u8> {
        self.pem@
    }

    /// The passphrase that opens the key.
    pub closed spec fn passphrase(self) -> Seq<u8> {
        self.passphrase@
    }

    /// The key itself, without encryption.
    pub open spec fn key(self) -> Seq<u8> {
        pkcs8_pem(self.pem(), self.passphrase())
    }
}

/// Reads a private key, which may be encrypted.
pub fn parse_private_key(pem: &[u8], passphrase: Option<&str>) -> (r: Result<
    PrivateKey,
    ClientError,
>)
    requires
        is_key_input(pem@, passphrase_bytes(passphrase)),
    ensures
        match r {
            Ok(key) => {
                &&& key.pem() == pem@
                &&& key.passphrase() == passphrase_bytes(passphrase)
                &&& is_opened(pem@, passphrase_bytes(passphrase))
            },
            Err(e) => {
                &&& e matches ClientError::PrivateKeyParse { cause }
                &&& is_refused(pem@, passphrase_bytes(passphrase), cause)
            },
        },
{
    let secret: Vec<u8> = match passphrase {
        Some(p) => p.as_bytes_vec(),
        None => Vec::new(),
    };
    let opened = open_private_key(pem, secret.as_slice());
    match opened {
        Ok(_) => Ok(PrivateKey { pem: vstd::slice::slice_to_vec(pem), passphrase: secret }),
        Err(cause) => Err(ClientError::PrivateKeyParse { cause }),
    }
}

/// The fingerprint of a public key: the base64 form of the SHA-256 digest of its DER form.
pub open spec fn fingerprint(der: Seq<u8>) -> Seq<char> {
    base64_text(sha256_digest(der))
}

/// How long a text in base64 is.
proof fn lemma_base64_length(data: Seq<u8>)
    ensures
        base64_text(data).len() == (data.len() + 2) / 3 * 4,
    decreases data.len(),
{
    if data.len() > 3 {
        lemma_base64_length(data.skip(3));
    }
}

/// The fingerprint of the public key with this DER form.
pub fn der_fingerprint(der: &[u8]) -> (r: String)
    ensures
        r@ == fingerprint(der@),
        r@.len() == 44,
{
    let digest = openssl::sha::sha256(der);
    proof {
        lemma_base64_length(digest@);
    }
    encode_base64(&digest)
}

/// The DER form of the public key that belongs to a private key.
fn public_key(key: &PrivateKey) -> (r: Result<Vec<u8>, ClientError>)
    ensures
        match r {
            Ok(der) => {
                &&& der@ == public_key_der(key.pem(), key.passphrase())
                &&& is_rsa_pem(key.key()) ==> is_public_key_of(der@, key.key())
            },
            Err(e) => {
                &&& e matches ClientError::PublicKeyExtract { cause }
                &&& is_unextracted(key.pem(), key.passphrase(), cause)
            },
        },
{
    proof {
        use_type_invariant(key);
    }
    let written = write_public_key(key.pem.as_slice(), key.passphrase.as_slice());
    match written {
        Ok(der) => Ok(der),
        Err(cause) => Err(ClientError::PublicKeyExtract { cause }),
    }
}

/// Whether this is the fingerprint of every PEM text that holds the key.
pub open spec fn is_fingerprint_of(shown: Seq<char>, key: Seq<u8>) -> bool {
    forall|pem: Seq<u8>, passphrase: Seq<u8>| #[trigger]
        pkcs8_pem(pem, passphrase) == key ==> fingerprint(public_key_der(pem, passphrase)) == shown
}

/// The fingerprint of the public key that belongs to a private key.
pub fn public_key_fingerprint(key: &PrivateKey) -> (r: Result<String, ClientError>)
    ensures
        match r {
            Ok(shown) => {
                &&& shown@ == fingerprint(public_key_der(key.pem(), key.passphrase()))
                &&& is_rsa_pem(key.key()) ==> is_fingerprint_of(shown@, key.key())
                &&& shown@.len() == 44
            },
            Err(e) => {
                &&& e matches ClientError::PublicKeyExtract { cause }
                &&& is_unextracted(key.pem(), key.passphrase(), cause)
            },
        },
{
    let der = public_key(key)?;
    Ok(der_fingerprint(der.as_slice()))
}

/// What a token claims.
#[derive(Debug)]
pub struct JwtClaims {
    pub iss: String,
    pub sub: String,
    pub iat: u64,
    pub exp: u64,
}

/// Whom a token is about: the account and the user, in upper case.
pub open spec fn jwt_subject(config: SnowflakeReaderConfig) -> Seq<char> {
    text::raised(account::login_name(config.account@)) + "."@ + text::raised(config.user@)
}

/// Who issues a token: its subject, with the key that it is signed with.
pub open spec fn jwt_issuer(config: SnowflakeReaderConfig, fingerprint: Seq<char>) -> Seq<char> {
    jwt_subject(config) + ".SHA256:"@ + fingerprint
}

/// The claims of a token that is issued at `now`, in seconds.
pub fn jwt_claims(config: &SnowflakeReaderConfig, fingerprint: &str, now: u64) -> (r: JwtClaims)
    requires
        now + JWT_LIFETIME_SECONDS <= u64::MAX,
    ensures
        r.iss@ == jwt_issuer(*config, fingerprint@),
        r.sub@ == jwt_subject(*config),
        r.iat == now,
        r.exp == now + JWT_LIFETIME_SECONDS,
{
    let mut sub = text::to_upper(account::login_account_name(config.account.as_str()));
    sub.append(".");
    let user = text::to_upper(config.user.as_str());
    sub.append(user.as_str());
    let mut iss = sub.clone();
    iss.append(".SHA256:");
    iss.append(fingerprint);
    JwtClaims { iss, sub, iat: now, exp: now + JWT_LIFETIME_SECONDS }
}

/// The claims as the members of a JSON object.
pub open spec fn claim_members(iss: Seq<char>, sub: Seq<char>, iat: u64, exp: u64) -> Seq<
    (Seq<char>, Json),
> {
    seq![
        ("iss"@, Json::Text(iss)),
        ("sub"@, Json::Text(sub)),
        ("iat"@, Json::Number(iat)),
        ("exp"@, Json::Number(exp)),
    ]
}

/// The claims as a JSON object.
fn claims_object(claims: &JwtClaims) -> (r: serde_json::Map<String, serde_json::Value>)
    ensures
        json::object_members(r) == claim_members(
            claims.iss@,
            claims.sub@,
            claims.iat,
            claims.exp,
        ),
{
    proof {
        reveal_strlit("iss");
        reveal_strlit("sub");
        reveal_strlit("iat");
        reveal_strlit("exp");
        assert("iss"@[1] == 's' && "sub"@[1] == 'u' && "iat"@[1] == 'a' && "exp"@[1] == 'x');
    }
    let mut object = json::new_object();
    json::add_text(&mut object, "iss", claims.iss.as_str());
    json::add_text(&mut object, "sub", claims.sub.as_str());
    json::add_number(&mut object, "iat", claims.iat);
    json::add_number(&mut object, "exp", claims.exp);
    assert(json::object_members(object) =~= claim_members(
        claims.iss@,
        claims.sub@,
        claims.iat,
        claims.exp,
    ));
    object
}

/// The passphrase in the settings.
pub open spec fn config_passphrase(config: SnowflakeReaderConfig) -> Seq<u8> {
    match config.private_key_file_pwd {
        Some(p) => encode_utf8(p@),
        None => Seq::empty(),
    }
}

/// What a token claims that is issued at `now` by the holder of a private key, given the
/// DER form of its public key.
pub open spec fn token_claims(config: SnowflakeReaderConfig, der: Seq<u8>, now: u64) -> Seq<
    (Seq<char>, Json),
> {
    claim_members(
        jwt_issuer(config, fingerprint(der)),
        jwt_subject(config),
        now,
        (now + JWT_LIFETIME_SECONDS) as u64,
    )
}

/// The token that is issued at `now` by the holder of a private key, given the DER form
/// of its public key and the PEM form of the key itself.
pub open spec fn signed_token(
    config: SnowflakeReaderConfig,
    der: Seq<u8>,
    pem: Seq<u8>,
    now: u64,
) -> Option<Seq<char>> {
    rs256_token(token_claims(config, der, now), pem)
}

/// Signs a token with a private key that OpenSSL wrote out, given the DER form of its
/// public key.
pub fn sign_token(config: &SnowflakeReaderConfig, der: &[u8], pem: &[u8], now: u64) -> (r: Result<
    String,
    ClientError,
>)
    requires
        is_written_key(pem@),
        now + JWT_LIFETIME_SECONDS <= u64::MAX,
    ensures
        match r {
            Ok(token) => is_rsa_pem(pem@) && signed_token(*config, der@, pem@, now) == Some(token@),
            Err(ClientError::PrivateKeyNotRsa { cause }) => {
                &&& !is_rsa_pem(pem@)
                &&& is_not_rsa(pem@, cause)
            },
            Err(ClientError::JwtSign { cause }) => {
                &&& is_rsa_pem(pem@)
                &&& signed_token(*config, der@, pem@, now) is None
                &&& is_unsigned(token_claims(*config, der@, now), pem@, cause)
            },
            Err(_) => false,
        },
{
    let fingerprint = der_fingerprint(der);
    let claims = jwt_claims(config, fingerprint.as_str(), now);
    let checked = check_rsa_pem(pem);
    if let Err(cause) = checked {
        return Err(ClientError::PrivateKeyNotRsa { cause });
    }
    let object = claims_object(&claims);
    let signed = sign_claims(&object, pem);
    match signed {
        Ok(token) => Ok(token),
        Err(cause) => Err(ClientError::JwtSign { cause }),
    }
}

/// The signed token with which a login is authorized. `pem` is what the private key file
/// holds, `now` the time in seconds. Whether the key can be read is for OpenSSL to say.
pub fn jwt_token(config: &SnowflakeReaderConfig, pem: &[u8], now: u64) -> (r: Result<
    String,
    ClientError,
>)
    requires
        is_key_input(pem@, config_passphrase(*config)),
        now + JWT_LIFETIME_SECONDS <= u64::MAX,
    ensures
        ({
            let passphrase = config_passphrase(*config);
            let key = pkcs8_pem(pem@, passphrase);
            let der = public_key_der(pem@, passphrase);
            match r {
                Ok(token) => {
                    &&& is_opened(pem@, passphrase)
                    &&& is_rsa_pem(key)
                    &&& signed_token(*config, der, key, now) == Some(token@)
                },
                Err(ClientError::PrivateKeyParse { cause }) => is_refused(pem@, passphrase, cause),
                Err(ClientError::PublicKeyExtract { cause }) => {
                    &&& is_opened(pem@, passphrase)
                    &&& is_unextracted(pem@, passphrase, cause)
                },
                Err(ClientError::PrivateKeySerialize { cause }) => {
                    &&& is_opened(pem@, passphrase)
                    &&& is_unwritten(pem@, passphrase, cause)
                },
                Err(ClientError::PrivateKeyNotRsa { cause }) => {
                    &&& is_opened(pem@, passphrase)
                    &&& !is_rsa_pem(key)
                    &&& is_not_rsa(key, cause)
                },
                Err(ClientError::JwtSign { cause }) => {
                    &&& is_opened(pem@, passphrase)
                    &&& is_rsa_pem(key)
                    &&& signed_token(*config, der, key, now) is None
                    &&& is_unsigned(token_claims(*config, der, now), key, cause)
                },
                Err(_) => false,
            }
        }),
{
    match config.authenticator {
        SnowflakeAuthenticator::SnowflakeJwt => {},
    }
    let passphrase = match &config.private_key_file_pwd {
        Some(p) => Some(p.as_str()),
        None => None,
    };
    let key = parse_private_key(pem, passphrase)?;
    let der = public_key(&key)?;
    proof {
        use_type_invariant(&key);
    }
    let written = write_private_key(key.pem.as_slice(), key.passphrase.as_slice());
    match written {
        Ok(text) => sign_token(config, der.as_slice(), text.as_slice(), now),
        Err(cause) => Err(ClientError::PrivateKeySerialize { cause }),
    }
}

/// An RSA key has one fingerprint of 44 characters, however the PEM text that holds it is
/// encrypted.
pub proof fn law_key_has_one_fingerprint(a: PrivateKey, x: String, b: PrivateKey, y: String)
    requires
        a.key() == b.key(),
        is_rsa_pem(a.key()),
        call_ensures(public_key_fingerprint, (&a,), Ok(x)),
        call_ensures(public_key_fingerprint, (&b,), Ok(y)),
    ensures
        x@ == y@,
        x@.len() == 44,
{
    assert(pkcs8_pem(b.pem(), b.passphrase()) == a.key());
}

/// Whether OpenSSL is to blame for the error.
pub open spec fn is_key_error(e: ClientError) -> bool {
    e is PrivateKeyParse || e is PublicKeyExtract || e is PrivateKeySerialize
}

/// A token depends on the account and the user, both in any case, on the key and on the
/// time, and on no other setting. If there is a token, then in such another call only
/// OpenSSL can refuse.
pub proof fn law_token_in_any_case(
    a: SnowflakeReaderConfig,
    x: String,
    b: SnowflakeReaderConfig,
    y: Result<String, ClientError>,
    pem: &[u8],
    now: u64,
)
    requires
        text::lowered(a.account@) == text::lowered(b.account@),
        text::lowered(a.user@) == text::lowered(b.user@),
        config_passphrase(a) == config_passphrase(b),
        call_ensures(jwt_token, (&a, pem, now), Ok(x)),
        call_ensures(jwt_token, (&b, pem, now), y),
    ensures
        match y {
            Ok(token) => token@ == x@,
            Err(e) => is_key_error(e),
        },
{
    law_subject_in_any_case(a, b);
    let der = public_key_der(pem@, config_passphrase(a));
    assert(token_claims(a, der, now) == token_claims(b, der, now));
}

/// Tokens that are signed with different keys have different issuers.
pub proof fn law_issuer_names_the_key(config: SnowflakeReaderConfig, a: Seq<char>, b: Seq<char>)
    requires
        jwt_issuer(config, a) == jwt_issuer(config, b),
    ensures
        a == b,
{
    let start = jwt_subject(config) + ".SHA256:"@;
    let n = start.len() as int;
    assert(jwt_issuer(config, a).skip(n) =~= a);
    assert(jwt_issuer(config, b).skip(n) =~= b);
}

/// The subject of a token does not depend on the case of the account or of the user.
pub proof fn law_subject_in_any_case(a: SnowflakeReaderConfig, b: SnowflakeReaderConfig)
    requires
        text::lowered(a.account@) == text::lowered(b.account@),
        text::lowered(a.user@) == text::lowered(b.user@),
    ensures
        jwt_subject(a) == jwt_subject(b),
{
    account::law_login_name_in_any_case(a.account@, b.account@);
    text::law_either_case_ignores_case(
        account::login_name(a.account@),
        account::login_name(b.account@),
    );
    text::law_either_case_ignores_case(a.user@, b.user@);
}

/// The subject of a token is the login name of the account, a dot and the whole user name,
/// each in upper case and otherwise character for character. The issuer is the subject,
/// `.SHA256:` and the whole fingerprint. A token is valid for a minute from now.
pub proof fn law_claims_hold_the_names(
    config: &SnowflakeReaderConfig,
    fingerprint: &str,
    now: u64,
    name: &str,
    claims: JwtClaims,
)
    requires
        call_ensures(jwt_claims, (config, fingerprint, now), claims),
        name@ == account::login_name(config.account@),
    ensures
        ({
            let n = name@.len() as int;
            let user = config.user@;
            let sub = claims.sub@;
            &&& sub.len() == n + 1 + user.len()
            &&& sub[n] == '.'
            &&& forall|i: int|
                0 <= i < n ==> text::ascii_lower(#[trigger] sub[i]) == text::ascii_lower(name@[i])
            &&& forall|i: int|
                0 <= i < user.len() ==> text::ascii_lower(#[trigger] user[i])
                    == text::ascii_lower(sub[n + 1 + i])
            &&& forall|i: int| 0 <= i < sub.len() ==> !('a' <= #[trigger] sub[i] <= 'z')
            &&& claims.iss@ == sub + ".SHA256:"@ + fingerprint@
            &&& claims.iat == now
            &&& claims.exp == now + 60
        }),
{
    let n = name@.len() as int;
    let user = config.user@;
    let sub = claims.sub@;
    reveal_strlit(".");
    assert("."@.len() == 1);
    text::law_case_changes_only_letters(name@);
    text::law_case_changes_only_letters(user);
    assert(sub =~= text::raised(name@) + "."@ + text::raised(user));
    assert forall|i: int| 0 <= i < n implies text::ascii_lower(#[trigger] sub[i])
        == text::ascii_lower(name@[i]) by {
        assert(sub[i] == text::raised(name@)[i]);
    }
    assert forall|i: int| 0 <= i < user.len() implies text::ascii_lower(#[trigger] user[i])
        == text::ascii_lower(sub[n + 1 + i]) by {
        assert(sub[n + 1 + i] == text::raised(user)[i]);
    }
    assert forall|i: int| 0 <= i < sub.len() implies !('a' <= #[trigger] sub[i] <= 'z') by {
        if i < n {
            assert(sub[i] == text::raised(name@)[i]);
        } else if i > n {
            assert(sub[i] == text::raised(user)[i - n - 1]);
        }
    }
}

/// If the tokens of two users of one account have the same subject, then the users are the
/// same but for the case of their names.
pub proof fn law_subjects_tell_users_apart(a: SnowflakeReaderConfig, b: SnowflakeReaderConfig)
    requires
        a.account@ == b.account@,
        jwt_subject(a) == jwt_subject(b),
    ensures
        a.user@.len() == b.user@.len(),
        text::lowered(a.user@) == text::lowered(b.user@),
{
    let start = text::raised(account::login_name(a.account@)) + "."@;
    let n = start.len() as int;
    assert(jwt_subject(a).skip(n) =~= text::raised(a.user@));
    assert(jwt_subject(b).skip(n) =~= text::raised(b.user@));
    text::law_either_case_ignores_case(a.user@, b.user@);
    assert(text::raised(a.user@).len() == a.user@.len());
    assert(text::raised(b.user@).len() == b.user@.len());
}

/// A private key is opened with the bytes of the passphrase in UTF-8, or with none where
/// there is no passphrase, and kept with them as it came.
pub proof fn law_key_is_opened_as_given(
    pem: &[u8],
    passphrase: Option<&str>,
    r: Result<PrivateKey, ClientError>,
)
    requires
        call_ensures(parse_private_key, (pem, passphrase), r),
    ensures
        ({
            let secret = match passphrase {
                Some(p) => encode_utf8(p@),
                None => Seq::<u8>::empty(),
            };
            match r {
                Ok(key) => key.pem() == pem@ && key.passphrase() == secret && is_opened(
                    pem@,
                    secret,
                ),
                Err(e) => e matches ClientError::PrivateKeyParse { cause } && is_refused(
                    pem@,
                    secret,
                    cause,
                ),
            }
        }),
{
}

/// A fingerprint is the base64 form of the SHA-256 digest of the whole public key.
pub proof fn law_fingerprint_is_of_the_whole_key(der: &[u8], shown: String)
    requires
        call_ensures(der_fingerprint, (der,), shown),
    ensures
        shown@ == base64_text(sha256_digest(der@)),
        shown@.len() == 44,
{
}

/// The token that authorizes a login is signed with the key in the PEM text that the
/// passphrase in the settings opens, and claims four things: who issues it, whom it is
/// about, when it was issued and when it ends.
pub proof fn law_token_is_signed_with_the_key(
    config: &SnowflakeReaderConfig,
    pem: &[u8],
    now: u64,
    token: String,
    fingerprint: &str,
    claims: JwtClaims,
)
    requires
        now + 60 <= u64::MAX,
        call_ensures(jwt_token, (config, pem, now), Ok(token)),
        fingerprint@ == base64_text(
            sha256_digest(
                public_key_der(
                    pem@,
                    match config.private_key_file_pwd {
                        Some(p) => encode_utf8(p@),
                        None => Seq::<u8>::empty(),
                    },
                ),
            ),
        ),
        call_ensures(jwt_claims, (config, fingerprint, now), claims),
    ensures
        ({
            let secret = match config.private_key_file_pwd {
                Some(p) => encode_utf8(p@),
                None => Seq::<u8>::empty(),
            };
            let members = seq![
                ("iss"@, Json::Text(claims.iss@)),
                ("sub"@, Json::Text(claims.sub@)),
                ("iat"@, Json::Number(claims.iat)),
                ("exp"@, Json::Number(claims.exp)),
            ];
            rs256_token(members, pkcs8_pem(pem@, secret)) == Some(token@)
        }),
{
    let secret = config_passphrase(*config);
    let der = public_key_der(pem@, secret);
    assert(token_claims(*config, der, now) =~= seq![
        ("iss"@, Json::Text(claims.iss@)),
        ("sub"@, Json::Text(claims.sub@)),
        ("iat"@, Json::Number(claims.iat)),
        ("exp"@, Json::Number(claims.exp)),
    ]);
}

/// The fingerprint of a private key is that of the public key that belongs to it.
pub proof fn law_key_fingerprint_is_of_its_public_key(
    key: &PrivateKey,
    r: Result<String, ClientError>,
)
    requires
        call_ensures(public_key_fingerprint, (key,), r),
    ensures
        match r {
            Ok(shown) => shown@ == base64_text(
                sha256_digest(public_key_der(key.pem(), key.passphrase())),
            ),
            Err(e) => e matches ClientError::PublicKeyExtract { cause } && is_unextracted(
                key.pem(),
                key.passphrase(),
                cause,
            ),
        },
{
}

/// There is no token if OpenSSL does not open or write the key, if it is no RSA key, or if
/// no token can be signed with it, and for no other reason.
pub proof fn law_token_is_refused_for_a_reason(
    config: &SnowflakeReaderConfig,
    pem: &[u8],
    now: u64,
    e: ClientError,
)
    requires
        call_ensures(jwt_token, (config, pem, now), Err(e)),
    ensures
        ({
            let secret = match config.private_key_file_pwd {
                Some(p) => encode_utf8(p@),
                None => Seq::<u8>::empty(),
            };
            match e {
                ClientError::PrivateKeyParse { cause } => is_refused(pem@, secret, cause),
                ClientError::PublicKeyExtract { cause } => is_opened(pem@, secret)
                    && is_unextracted(pem@, secret, cause),
                ClientError::PrivateKeySerialize { cause } => is_opened(pem@, secret)
                    && is_unwritten(pem@, secret, cause),
                ClientError::PrivateKeyNotRsa { .. } => is_opened(pem@, secret) && !is_rsa_pem(
                    pkcs8_pem(pem@, secret),
                ),
                ClientError::JwtSign { .. } => is_opened(pem@, secret) && is_rsa_pem(
                    pkcs8_pem(pem@, secret),
                ),
                _ => false,
            }
        }),
{
}

} // verus!
