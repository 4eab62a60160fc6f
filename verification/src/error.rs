//! What can go wrong, and how it is reported.

use openssl::error::ErrorStack;
use reqwest::header::{InvalidHeaderName, InvalidHeaderValue};
use vstd::prelude::*;
use vstd::string::*;

verus! {

/// Why a request to Snowflake could not be prepared, or its answer not be used. A `cause`
/// is the error of the crate that refused.
#[allow(inconsistent_fields)]
#[derive(Debug)]
pub enum ClientError {
    /// The account identifier is malformed.
    InvalidAccount { account: String },
    /// The account identifier does not give a URL.
    InvalidAccountUrl { account: String, cause: String },
    /// The private key cannot be read with the given passphrase.
    PrivateKeyParse { cause: ErrorStack },
    /// The public half of the private key cannot be written.
    PublicKeyExtract { cause: ErrorStack },
    /// The private key cannot be written again without its encryption.
    PrivateKeySerialize { cause: ErrorStack },
    /// The private key is no RSA key.
    PrivateKeyNotRsa { cause: jsonwebtoken::errors::Error },
    /// The token cannot be signed.
    JwtSign { cause: jsonwebtoken::errors::Error },
    /// Snowflake reported that an operation failed.
    OperationFailed { operation: String, code: String, message: String },
    /// Snowflake's answer has no data.
    MissingData { operation: String, code: String, message: String },
    /// The answer to the login has no session token.
    MissingSessionToken,
    /// The session token cannot stand in a header.
    InvalidSessionToken { cause: InvalidHeaderValue },
    /// The path does not give a URL of the account.
    InvalidEndpoint { path: String, cause: String },
    /// The statement is blank.
    EmptyQuery,
    /// A statement is in progress, but where to ask for it is not said.
    MissingResultUrl,
    /// Where to ask for a statement in progress is not a URL.
    InvalidResultUrl { url: String, cause: String },
    /// The result is not in Arrow format.
    UnexpectedResultFormat { format: String },
    /// A header for the result chunks has a malformed name.
    InvalidChunkHeaderName { name: String, cause: InvalidHeaderName },
    /// A header for the result chunks has a malformed value.
    InvalidChunkHeaderValue { name: String, cause: InvalidHeaderValue },
    /// The key for the result chunks cannot stand in a header.
    InvalidChunkKey { cause: InvalidHeaderValue },
    /// There are more headers for the result chunks than a request can carry.
    TooManyChunkHeaders,
}

/// `": code=<code> message=<message>"`
pub open spec fn code_and_message(code: Seq<char>, message: Seq<char>) -> Seq<char> {
    ": code="@ + code + " message="@ + message
}

impl ClientError {
    /// The text that is shown for the error.
    pub open spec fn text(self) -> Seq<char> {
        match self {
            ClientError::InvalidAccount { account } => "invalid Snowflake account identifier '"@
                + account@
                + "'; expected dot-separated letters, digits, underscores, or hyphens"@,
            ClientError::InvalidAccountUrl { account, .. } =>
                "invalid Snowflake account URL derived from '"@ + account@ + "'"@,
            ClientError::PrivateKeyParse { .. } =>
                "error parsing Snowflake RSA private key; provide 'private_key_file_pwd' if the key is encrypted"@,
            ClientError::PublicKeyExtract { .. } => "error extracting Snowflake public key DER"@,
            ClientError::PrivateKeySerialize { .. } => "error serializing Snowflake RSA private key"@,
            ClientError::PrivateKeyNotRsa { .. } => "error parsing Snowflake RSA private key"@,
            ClientError::JwtSign { .. } => "error signing Snowflake JWT"@,
            ClientError::OperationFailed { operation, code, message } => operation@ + " failed"@
                + code_and_message(code@, message@),
            ClientError::MissingData { operation, code, message } => operation@
                + " response did not include a data object"@ + code_and_message(code@, message@),
            ClientError::MissingSessionToken =>
                "Snowflake login response did not include a session token"@,
            ClientError::InvalidSessionToken { .. } => "invalid Snowflake session token header"@,
            ClientError::InvalidEndpoint { path, .. } => "invalid Snowflake endpoint path: "@ + path@,
            ClientError::EmptyQuery => "Snowflake query must not be empty"@,
            ClientError::MissingResultUrl =>
                "Snowflake query-in-progress response did not include getResultUrl"@,
            ClientError::InvalidResultUrl { url, .. } => "invalid Snowflake query result URL '"@ + url@
                + "'"@,
            ClientError::UnexpectedResultFormat { format } =>
                "Snowflake returned queryResultFormat='"@ + format@ + "', expected Arrow"@,
            ClientError::InvalidChunkHeaderName { name, .. } =>
                "invalid Snowflake chunk header name: "@ + name@,
            ClientError::InvalidChunkHeaderValue { name, .. } =>
                "invalid Snowflake chunk header value for "@ + name@,
            ClientError::InvalidChunkKey { .. } => "invalid Snowflake qrmk chunk header"@,
            ClientError::TooManyChunkHeaders => "size overflows MAX_SIZE"@,
        }
    }

    /// The text that is shown for the error.
    pub fn message(&self) -> (r: String)
        ensures
            r@ == self.text(),
    {
        match self {
            ClientError::InvalidAccount { account } => sentence(
                "invalid Snowflake account identifier '",
                account.as_str(),
                "'; expected dot-separated letters, digits, underscores, or hyphens",
            ),
            ClientError::InvalidAccountUrl { account, .. } => sentence(
                "invalid Snowflake account URL derived from '",
                account.as_str(),
                "'",
            ),
            ClientError::PrivateKeyParse { .. } =>
                "error parsing Snowflake RSA private key; provide 'private_key_file_pwd' if the key is encrypted".to_owned(),
            ClientError::PublicKeyExtract { .. } => "error extracting Snowflake public key DER".to_owned(),
            ClientError::PrivateKeySerialize { .. } =>
                "error serializing Snowflake RSA private key".to_owned(),
            ClientError::PrivateKeyNotRsa { .. } => "error parsing Snowflake RSA private key".to_owned(),
            ClientError::JwtSign { .. } => "error signing Snowflake JWT".to_owned(),
            ClientError::OperationFailed { operation, code, message } => {
                let mut out = operation.clone();
                out.append(" failed");
                let end = ending(code.as_str(), message.as_str());
                out.append(end.as_str());
                out
            },
            ClientError::MissingData { operation, code, message } => {
                let mut out = operation.clone();
                out.append(" response did not include a data object");
                let end = ending(code.as_str(), message.as_str());
                out.append(end.as_str());
                out
            },
            ClientError::MissingSessionToken =>
                "Snowflake login response did not include a session token".to_owned(),
            ClientError::InvalidSessionToken { .. } =>
                "invalid Snowflake session token header".to_owned(),
            ClientError::InvalidEndpoint { path, .. } => sentence(
                "invalid Snowflake endpoint path: ",
                path.as_str(),
                "",
            ),
            ClientError::EmptyQuery => "Snowflake query must not be empty".to_owned(),
            ClientError::MissingResultUrl =>
                "Snowflake query-in-progress response did not include getResultUrl".to_owned(),
            ClientError::InvalidResultUrl { url, .. } => sentence(
                "invalid Snowflake query result URL '",
                url.as_str(),
                "'",
            ),
            ClientError::UnexpectedResultFormat { format } => sentence(
                "Snowflake returned queryResultFormat='",
                format.as_str(),
                "', expected Arrow",
            ),
            ClientError::InvalidChunkHeaderName { name, .. } => sentence(
                "invalid Snowflake chunk header name: ",
                name.as_str(),
                "",
            ),
            ClientError::InvalidChunkHeaderValue { name, .. } => sentence(
                "invalid Snowflake chunk header value for ",
                name.as_str(),
                "",
            ),
            ClientError::InvalidChunkKey { .. } => "invalid Snowflake qrmk chunk header".to_owned(),
            ClientError::TooManyChunkHeaders => "size overflows MAX_SIZE".to_owned(),
        }
    }
}

/// The three strings one after the other.
pub fn sentence(start: &str, middle: &str, end: &str) -> (r: String)
    ensures
        r@ == start@ + middle@ + end@,
        end@ == ""@ ==> r@ == start@ + middle@,
{
    proof {
        reveal_strlit("");
    }
    let mut out = start.to_owned();
    out.append(middle);
    out.append(end);
    assert(end@ == ""@ ==> out@ =~= start@ + middle@);
    out
}

/// `": code=<code> message=<message>"`
fn ending(code: &str, message: &str) -> (r: String)
    ensures
        r@ == code_and_message(code@, message@),
{
    let mut out = sentence(": code=", code, " message=");
    out.append(message);
    out
}

/// The text for an error quotes what the error is about in full.
pub proof fn law_errors_quote_in_full(e: ClientError, m: String)
    requires
        call_ensures(ClientError::message, (&e,), m),
    ensures
        match e {
            ClientError::InvalidAccount { account } => m@
                == "invalid Snowflake account identifier '"@ + account@
                + "'; expected dot-separated letters, digits, underscores, or hyphens"@,
            ClientError::InvalidAccountUrl { account, .. } => m@
                == "invalid Snowflake account URL derived from '"@ + account@ + "'"@,
            ClientError::OperationFailed { operation, code, message } => m@ == operation@
                + " failed: code="@ + code@ + " message="@ + message@,
            ClientError::MissingData { operation, code, message } => m@ == operation@
                + " response did not include a data object: code="@ + code@ + " message="@
                + message@,
            ClientError::InvalidEndpoint { path, .. } => m@ == "invalid Snowflake endpoint path: "@
                + path@,
            ClientError::InvalidResultUrl { url, .. } => m@
                == "invalid Snowflake query result URL '"@ + url@ + "'"@,
            ClientError::UnexpectedResultFormat { format } => m@
                == "Snowflake returned queryResultFormat='"@ + format@ + "', expected Arrow"@,
            ClientError::InvalidChunkHeaderName { name, .. } => m@
                == "invalid Snowflake chunk header name: "@ + name@,
            ClientError::InvalidChunkHeaderValue { name, .. } => m@
                == "invalid Snowflake chunk header value for "@ + name@,
            ClientError::PrivateKeyParse { .. } => m@
                == "error parsing Snowflake RSA private key; provide 'private_key_file_pwd' if the key is encrypted"@,
            ClientError::PublicKeyExtract { .. } => m@
                == "error extracting Snowflake public key DER"@,
            ClientError::PrivateKeySerialize { .. } => m@
                == "error serializing Snowflake RSA private key"@,
            ClientError::PrivateKeyNotRsa { .. } => m@
                == "error parsing Snowflake RSA private key"@,
            ClientError::JwtSign { .. } => m@ == "error signing Snowflake JWT"@,
            ClientError::MissingSessionToken => m@
                == "Snowflake login response did not include a session token"@,
            ClientError::InvalidSessionToken { .. } => m@
                == "invalid Snowflake session token header"@,
            ClientError::EmptyQuery => m@ == "Snowflake query must not be empty"@,
            ClientError::MissingResultUrl => m@
                == "Snowflake query-in-progress response did not include getResultUrl"@,
            ClientError::InvalidChunkKey { .. } => m@ == "invalid Snowflake qrmk chunk header"@,
            ClientError::TooManyChunkHeaders => m@ == "size overflows MAX_SIZE"@,
        },
{
    reveal_strlit(" failed");
    reveal_strlit(" response did not include a data object");
    reveal_strlit(": code=");
    reveal_strlit(" failed: code=");
    reveal_strlit(" response did not include a data object: code=");
    match e {
        ClientError::OperationFailed { operation, code, message } => {
            assert(m@ =~= operation@ + " failed: code="@ + code@ + " message="@ + message@);
        },
        ClientError::MissingData { operation, code, message } => {
            assert(m@ =~= operation@ + " response did not include a data object: code="@ + code@
                + " message="@ + message@);
        },
        _ => {},
    }
}

} // verus!
