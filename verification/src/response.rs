//! What Snowflake answers.

use vstd::prelude::*;
use vstd::string::*;

use crate::error::ClientError;

verus! {

/// The envelope of every answer.
#[derive(Debug)]
pub struct SnowflakeApiResponse<T> {
    pub success: Option<bool>,
    pub code: Option<String>,
    pub message: Option<String>,
    pub data: Option<T>,
}

/// The data in the answer to a login.
#[derive(Debug)]
pub struct LoginData {
    pub token: Option<String>,
    pub session_token: Option<String>,
}

/// Where one chunk of a result is.
#[derive(Debug)]
pub struct SnowflakeChunk {
    pub url: String,
}

/// The data in the answer to a statement.
#[derive(Debug)]
pub struct QueryData {
    pub query_id: Option<String>,
    pub query_result_format: Option<String>,
    pub rowset_base64: Option<String>,
    pub chunks: Vec<SnowflakeChunk>,
    /// The headers with which chunks are asked for, as names and values; no name stands
    /// there twice.
    pub chunk_headers: Vec<(String, String)>,
    pub qrmk: Option<String>,
    pub total: Option<u64>,
    pub get_result_url: Option<String>,
}

/// The text, or the empty text where there is none.
pub open spec fn text_or_empty(s: Option<String>) -> Seq<char> {
    match s {
        Some(t) => t@,
        None => Seq::empty(),
    }
}

/// The text, or the empty text where there is none.
pub fn or_empty(s: Option<String>) -> (r: String)
    ensures
        r@ == text_or_empty(s),
{
    match s {
        Some(t) => t,
        None => String::new(),
    }
}

/// Whether an answer brings data: it reports no failure and has some.
pub open spec fn brings_data<T>(response: SnowflakeApiResponse<T>) -> bool {
    response.success != Some(false) && response.data is Some
}

/// Whether `e` is the error for an answer that brings no data.
pub open spec fn is_response_error<T>(
    response: SnowflakeApiResponse<T>,
    operation: Seq<char>,
    e: ClientError,
) -> bool {
    match e {
        ClientError::OperationFailed { operation: shown, code, message } => {
            &&& response.success == Some(false)
            &&& shown@ == operation
            &&& code@ == text_or_empty(response.code)
            &&& message@ == text_or_empty(response.message)
        },
        ClientError::MissingData { operation: shown, code, message } => {
            &&& response.success != Some(false)
            &&& response.data is None
            &&& shown@ == operation
            &&& code@ == text_or_empty(response.code)
            &&& message@ == text_or_empty(response.message)
        },
        _ => false,
    }
}

/// The data of an answer, unless the answer reports a failure or has none.
pub fn response_data<T>(response: SnowflakeApiResponse<T>, operation: &str) -> (r: Result<
    T,
    ClientError,
>)
    ensures
        match r {
            Ok(data) => brings_data(response) && response.data == Some(data),
            Err(e) => !brings_data(response) && is_response_error(response, operation@, e),
        },
{
    let failed = match response.success {
        Some(success) => !success,
        None => false,
    };
    if failed {
        return Err(
            ClientError::OperationFailed {
                operation: operation.to_owned(),
                code: or_empty(response.code),
                message: or_empty(response.message),
            },
        );
    }
    match response.data {
        Some(data) => Ok(data),
        None => Err(
            ClientError::MissingData {
                operation: operation.to_owned(),
                code: or_empty(response.code),
                message: or_empty(response.message),
            },
        ),
    }
}

/// The session token in the answer to a login: the one named `token` comes first.
pub open spec fn chosen_token(data: LoginData) -> Option<String> {
    if data.token is Some {
        data.token
    } else {
        data.session_token
    }
}

/// The session token in the answer to a login.
pub fn login_session_token(data: LoginData) -> (r: Result<String, ClientError>)
    ensures
        match r {
            Ok(token) => chosen_token(data) == Some(token),
            Err(e) => e == ClientError::MissingSessionToken && chosen_token(data) is None,
        },
{
    match data.token {
        Some(token) => Ok(token),
        None => match data.session_token {
            Some(token) => Ok(token),
            None => Err(ClientError::MissingSessionToken),
        },
    }
}

/// An answer gives its data as they are unless it reports a failure or has none, and then
/// its code and its message are quoted in full.
pub proof fn law_answers_give_their_data<T>(
    response: SnowflakeApiResponse<T>,
    operation: &str,
    r: Result<T, ClientError>,
)
    requires
        call_ensures(response_data::<T>, (response, operation), r),
    ensures
        ({
            let code = match response.code {
                Some(text) => text@,
                None => Seq::empty(),
            };
            let message = match response.message {
                Some(text) => text@,
                None => Seq::empty(),
            };
            match r {
                Ok(data) => response.success != Some(false) && response.data == Some(data),
                Err(ClientError::OperationFailed { operation: o, code: c, message: m }) => {
                    &&& response.success == Some(false)
                    &&& o@ == operation@ && c@ == code && m@ == message
                },
                Err(ClientError::MissingData { operation: o, code: c, message: m }) => {
                    &&& response.success != Some(false) && response.data is None
                    &&& o@ == operation@ && c@ == code && m@ == message
                },
                Err(_) => false,
            }
        }),
{
}

/// The session token is the one named `token` if there is one, and else the other, as it
/// is.
pub proof fn law_named_token_comes_first(data: LoginData, r: Result<String, ClientError>)
    requires
        call_ensures(login_session_token, (data,), r),
    ensures
        match r {
            Ok(chosen) => match data.token {
                Some(token) => chosen@ == token@,
                None => data.session_token matches Some(token) && chosen@ == token@,
            },
            Err(e) => e == ClientError::MissingSessionToken && data.token is None
                && data.session_token is None,
        },
{
}

} // verus!
