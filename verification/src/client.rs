//! A session with Snowflake: the requests that it makes and what to do with the answers.

use reqwest::header::{HeaderMap, HeaderValue};
use vstd::prelude::*;
use vstd::string::*;

use crate::account::AccountUrl;
use crate::error::ClientError;
use crate::header;
use crate::json;
use crate::json::{Json, JsonValue};
use crate::login;
use crate::request_id;
use crate::response;
use crate::response::{LoginData, QueryData, SnowflakeApiResponse};
use crate::text;
use crate::url;

verus! {

/// The format in which results are asked for.
pub const QUERY_RESULT_FORMAT: &'static str = "ARROW_FORCE";

/// The code of an answer to a statement that still runs.
pub const QUERY_IN_PROGRESS_CODE: &'static str = "333333";

/// The code of an answer to a statement that still runs in the background.
pub const QUERY_IN_PROGRESS_ASYNC_CODE: &'static str = "333334";

/// The statement that makes a session give its results in Arrow format.
pub fn arrow_format_statement() -> (r: String)
    ensures
        r@ == "alter session set C_API_QUERY_RESULT_FORMAT="@ + QUERY_RESULT_FORMAT@,
{
    let mut out = "alter session set C_API_QUERY_RESULT_FORMAT=".to_owned();
    out.append(QUERY_RESULT_FORMAT);
    out
}

/// The request that submits a statement.
#[derive(Debug)]
pub struct StatementRequest {
    pub url: String,
    pub body: JsonValue,
}

/// Where the statement with this request identifier goes to.
pub open spec fn statement_address(base: Seq<char>, id: Seq<char>) -> Seq<char> {
    url::with_pair(base + "queries/v1/query-request"@, "requestId"@, id)
}

/// The body of the request that submits a statement.
pub open spec fn statement_json(sql: Seq<char>, sequence_id: u64, submitted_at: u64) -> Json {
    Json::Object(
        seq![
            ("sqlText"@, Json::Text(sql)),
            ("asyncExec"@, Json::Flag(false)),
            ("sequenceId"@, Json::Number(sequence_id)),
            ("querySubmissionTime"@, Json::Number(submitted_at)),
        ],
    )
}

/// The request that submits a statement under a request identifier and a sequence number.
pub fn statement_request(
    base: &AccountUrl,
    sql: &str,
    id: &str,
    sequence_id: u64,
    submitted_at: u64,
) -> (r: StatementRequest)
    requires
        base@.len() + 24 <= u32::MAX,
    ensures
        r.url@ == statement_address(base@, id@),
        r.body@ == statement_json(sql@, sequence_id, submitted_at),
{
    proof {
        reveal_strlit("queries/v1/query-request");
    }
    let start = url::join_url(base.as_str(), "queries/v1/query-request").unwrap();
    proof {
        login::lemma_account_path(base@, "queries/v1/query-request"@);
    }
    let url = url::append_query_pair(start.as_str(), "requestId", id);
    let mut members: Vec<(String, JsonValue)> = Vec::new();
    members.push(json::json_member("sqlText", json::json_text(sql)));
    members.push(json::json_member("asyncExec", JsonValue::Flag(false)));
    members.push(json::json_member("sequenceId", JsonValue::Number(sequence_id)));
    members.push(json::json_member("querySubmissionTime", JsonValue::Number(submitted_at)));
    assert(json::members_view(members@) =~= statement_json(
        sql@,
        sequence_id,
        submitted_at,
    )->Object_0);
    StatementRequest { url, body: json::json_object(members) }
}

/// What to do after an answer to a statement.
#[derive(Debug)]
pub enum StatementStep {
    /// The statement still runs: ask there for its result.
    Poll { url: String },
    /// The statement has this result.
    Done(QueryData),
}

/// Whether the answer says that the statement still runs.
pub open spec fn is_in_progress(response: SnowflakeApiResponse<QueryData>) -> bool {
    response.code matches Some(code) && (code@ == QUERY_IN_PROGRESS_CODE@ || code@
        == QUERY_IN_PROGRESS_ASYNC_CODE@)
}

/// Where an answer says that the result is to be asked for.
pub open spec fn result_reference(response: SnowflakeApiResponse<QueryData>) -> Option<Seq<char>> {
    match response.data {
        Some(data) => url::opt_text(data.get_result_url),
        None => None,
    }
}

/// The header that authorizes the requests of a session.
pub open spec fn authorization(token: Seq<char>) -> Seq<char> {
    "Snowflake Token=\""@ + token + "\""@
}

/// The headers of the requests of a session.
pub open spec fn session_entries(token: Seq<char>) -> Map<Seq<char>, Seq<char>> {
    header::no_entries().insert("accept"@, "application/snowflake"@).insert(
        "user-agent"@,
        login::client_name(),
    ).insert("authorization"@, authorization(token))
}

/// Whether `r` comes of submitting a statement in the session `before`, which leaves the
/// session `after`. Blank statements are refused and take no sequence number.
pub open spec fn is_begun(
    before: SnowflakeClient,
    sql: Seq<char>,
    submitted_at: u64,
    r: Result<StatementRequest, ClientError>,
    after: SnowflakeClient,
) -> bool {
    &&& after.base() == before.base()
    &&& after.token() == before.token()
    &&& match r {
        Ok(request) => {
            &&& text::trimmed(sql).len() > 0
            &&& after.submitted() == before.submitted() + 1
            &&& exists|id: Seq<char>| #[trigger]
                request_id::is_drawn(id) && request_id::is_request_id(id) && request.url@
                    == statement_address(before.base(), id)
            &&& request.body@ == statement_json(
                text::trimmed(sql),
                after.submitted(),
                submitted_at,
            )
        },
        Err(e) => {
            &&& e == ClientError::EmptyQuery
            &&& text::trimmed(sql).len() == 0
            &&& after.submitted() == before.submitted()
        },
    }
}

/// A session with an account.
#[derive(Debug)]
pub struct SnowflakeClient {
    base_url: AccountUrl,
    session_token: String,
    sequence_id: u64,
}

impl SnowflakeClient {
    /// The URL of the account.
    pub closed spec fn base(self) -> Seq<char> {
        self.base_url@
    }

    /// The token of the session.
    pub closed spec fn token(self) -> Seq<char> {
        self.session_token@
    }

    /// How many statements were submitted.
    pub closed spec fn submitted(self) -> u64 {
        self.sequence_id
    }

    /// The session that the answer to a login opens.
    pub fn from_login(base_url: AccountUrl, response: SnowflakeApiResponse<LoginData>) -> (r: Result<
        Self,
        ClientError,
    >)
        ensures
            match r {
                Ok(client) => {
                    &&& response::brings_data(response)
                    &&& url::opt_text(response::chosen_token(response.data->0)) == Some(
                        client.token(),
                    )
                    &&& client.base() == base_url@
                    &&& client.submitted() == 0
                },
                Err(ClientError::MissingSessionToken) => {
                    &&& response::brings_data(response)
                    &&& response::chosen_token(response.data->0) is None
                },
                Err(e) => {
                    &&& !response::brings_data(response)
                    &&& response::is_response_error(response, "Snowflake login"@, e)
                },
            },
    {
        let data = response::response_data(response, "Snowflake login")?;
        let session_token = response::login_session_token(data)?;
        Ok(SnowflakeClient { base_url, session_token, sequence_id: 0 })
    }

    /// The URL of the account.
    pub fn base_url(&self) -> (r: &AccountUrl)
        ensures
            r@ == self.base(),
    {
        &self.base_url
    }

    /// How many statements were submitted.
    pub fn sequence_id(&self) -> (r: u64)
        ensures
            r == self.submitted(),
    {
        self.sequence_id
    }

    /// The URL with this path at the account.
    pub fn endpoint(&self, path: &str) -> (r: Result<String, ClientError>)
        ensures
            match r {
                Ok(address) => url::joined_url(self.base(), text::without_leading(path@, '/'))
                    == Some(address@),
                Err(ClientError::InvalidEndpoint { path: shown, cause }) => {
                    &&& url::joined_url(self.base(), text::without_leading(path@, '/')) is None
                    &&& url::is_join_error(
                        self.base(),
                        text::without_leading(path@, '/'),
                        cause,
                    )
                    &&& shown@ == path@
                },
                Err(_) => false,
            },
            url::is_plain_path(text::without_leading(path@, '/')) ==> (r matches Ok(address)
                && address@ == self.base() + text::without_leading(path@, '/')),
    {
        let base = self.base_url.as_str();
        let reference = text::trim_leading(path, '/');
        let joined = url::join_url(base, reference);
        match joined {
            Ok(address) => Ok(address),
            Err(cause) => {
                proof {
                    url::lemma_join_error(base, reference, cause);
                }
                Err(ClientError::InvalidEndpoint { path: path.to_owned(), cause })
            },
        }
    }

    /// The headers of the requests of this session.
    pub fn session_headers(&self) -> (r: Result<HeaderMap<HeaderValue>, ClientError>)
        ensures
            match r {
                Ok(headers) => {
                    &&& header::is_header_value(authorization(self.token()))
                    &&& header::header_entries(headers) == session_entries(self.token())
                },
                Err(e) => {
                    &&& !header::is_header_value(authorization(self.token()))
                    &&& e matches ClientError::InvalidSessionToken { cause }
                    &&& header::is_value_error(authorization(self.token()), cause)
                },
            },
    {
        let agent = login::user_agent();
        let mut authorization = "Snowflake Token=\"".to_owned();
        authorization.append(self.session_token.as_str());
        authorization.append("\"");
        let value = authorization.as_str();
        let checked = header::check_value(value);
        if let Err(cause) = checked {
            proof {
                header::lemma_value_error(value, cause);
            }
            return Err(ClientError::InvalidSessionToken { cause });
        }
        proof {
            lemma_session_names();
        }
        let mut headers = header::no_headers();
        header::insert_header(&mut headers, "accept", "application/snowflake");
        header::insert_header(&mut headers, "user-agent", agent.as_str());
        header::insert_header(&mut headers, "authorization", value);
        Ok(headers)
    }

    /// The request that submits a statement; every call draws a request identifier and
    /// takes the next sequence number. `submitted_at` is the time in milliseconds.
    pub fn begin_statement(&mut self, sql: &str, submitted_at: u64) -> (r: Result<
        StatementRequest,
        ClientError,
    >)
        requires
            old(self).base().len() + 24 <= u32::MAX,
            old(self).submitted() < u64::MAX,
        ensures
            is_begun(*old(self), sql@, submitted_at, r, *final(self)),
    {
        let statement = text::trim(sql);
        if statement.is_empty() {
            return Err(ClientError::EmptyQuery);
        }
        let id = request_id::draw_request_id();
        self.sequence_id = self.sequence_id + 1;
        Ok(
            statement_request(
                &self.base_url,
                statement,
                id.as_str(),
                self.sequence_id,
                submitted_at,
            ),
        )
    }

    /// What to do after an answer to a statement.
    pub fn statement_step(&self, response: SnowflakeApiResponse<QueryData>) -> (r: Result<
        StatementStep,
        ClientError,
    >)
        ensures
            match r {
                Ok(StatementStep::Poll { url }) => {
                    &&& is_in_progress(response)
                    &&& result_reference(response) is Some
                    &&& url::joined_url(
                        self.base(),
                        text::without_leading(result_reference(response)->0, '/'),
                    ) == Some(url@)
                    &&& url::is_plain_path(
                        text::without_leading(result_reference(response)->0, '/'),
                    ) ==> url@ == self.base() + text::without_leading(
                        result_reference(response)->0,
                        '/',
                    )
                },
                Ok(StatementStep::Done(data)) => {
                    &&& !is_in_progress(response)
                    &&& response::brings_data(response)
                    &&& response.data == Some(data)
                },
                Err(ClientError::MissingResultUrl) => {
                    &&& is_in_progress(response)
                    &&& result_reference(response) is None
                },
                Err(ClientError::InvalidResultUrl { url: shown, cause }) => {
                    &&& is_in_progress(response)
                    &&& url::is_join_error(
                        self.base(),
                        text::without_leading(shown@, '/'),
                        cause,
                    )
                    &&& result_reference(response) == Some(shown@)
                    &&& url::joined_url(self.base(), text::without_leading(shown@, '/')) is None
                    &&& !url::is_plain_path(text::without_leading(shown@, '/'))
                },
                Err(e) => {
                    &&& !is_in_progress(response)
                    &&& !response::brings_data(response)
                    &&& response::is_response_error(response, "Snowflake query"@, e)
                },
            },
    {
        let in_progress = match &response.code {
            Some(code) => text::same(code.as_str(), QUERY_IN_PROGRESS_CODE) || text::same(
                code.as_str(),
                QUERY_IN_PROGRESS_ASYNC_CODE,
            ),
            None => false,
        };
        if !in_progress {
            return match response::response_data(response, "Snowflake query") {
                Ok(data) => Ok(StatementStep::Done(data)),
                Err(e) => Err(e),
            };
        }
        let reference = match response.data {
            Some(data) => data.get_result_url,
            None => None,
        };
        match reference {
            Some(reference) => {
                let path = text::trim_leading(reference.as_str(), '/');
                let base = self.base_url.as_str();
                let joined = url::join_url(base, path);
                match joined {
                    Ok(url) => Ok(StatementStep::Poll { url }),
                    Err(cause) => {
                        proof {
                            url::lemma_join_error(base, path, cause);
                        }
                        Err(ClientError::InvalidResultUrl { url: reference, cause })
                    },
                }
            },
            None => Err(ClientError::MissingResultUrl),
        }
    }
}

/// The names and the fixed values of a session's headers are well formed.
proof fn lemma_session_names()
    ensures
        header::is_header_name("accept"@),
        header::is_header_name("user-agent"@),
        header::is_header_name("authorization"@),
        header::is_header_value("application/snowflake"@),
        header::is_header_value(login::client_name()),
        text::lowered("accept"@) == "accept"@,
        text::lowered("user-agent"@) == "user-agent"@,
        text::lowered("authorization"@) == "authorization"@,
{
    reveal_strlit("accept");
    reveal_strlit("user-agent");
    reveal_strlit("authorization");
    reveal_strlit("application/snowflake");
    reveal_strlit("C API");
    reveal_strlit("/");
    reveal_strlit("0.1.0");
    assert(text::lowered("accept"@) =~= "accept"@);
    assert(text::lowered("user-agent"@) =~= "user-agent"@);
    assert(text::lowered("authorization"@) =~= "authorization"@);
}

/// The requests of a session have exactly three headers.
pub proof fn law_session_has_three_headers(token: Seq<char>)
    ensures
        session_entries(token).dom() == set!["accept"@, "user-agent"@, "authorization"@],
        session_entries(token)["accept"@] == "application/snowflake"@,
        session_entries(token)["user-agent"@] == login::client_name(),
        session_entries(token)["authorization"@] == authorization(token),
{
    reveal_strlit("accept");
    reveal_strlit("user-agent");
    reveal_strlit("authorization");
    assert("accept"@.len() == 6 && "user-agent"@.len() == 10 && "authorization"@.len() == 13);
    assert(session_entries(token).dom() =~= set!["accept"@, "user-agent"@, "authorization"@]);
}

/// Different sessions are authorized by different headers.
pub proof fn law_authorization_tells_tokens_apart(a: Seq<char>, b: Seq<char>)
    requires
        authorization(a) == authorization(b),
    ensures
        a == b,
{
    let start = "Snowflake Token=\""@.len() as int;
    let end = "\""@.len() as int;
    let both = authorization(a);
    assert(authorization(a).len() == start + a.len() + end);
    assert(authorization(b).len() == start + b.len() + end);
    assert(both.subrange(start, both.len() - end) =~= a);
    assert(authorization(b).subrange(start, both.len() - end) =~= b);
}

/// How many of the statements are not blank.
pub open spec fn statement_count(statements: Seq<Seq<char>>) -> int
    decreases statements.len(),
{
    if statements.len() == 0 {
        0
    } else {
        statement_count(statements.drop_last()) + if text::trimmed(statements.last()).len() > 0 {
            1int
        } else {
            0int
        }
    }
}

/// Whether the statements are submitted one after the other at these times in a session
/// that goes through these states, with these outcomes.
pub open spec fn is_history(
    sessions: Seq<SnowflakeClient>,
    statements: Seq<Seq<char>>,
    times: Seq<u64>,
    outcomes: Seq<Result<StatementRequest, ClientError>>,
) -> bool {
    &&& sessions.len() == statements.len() + 1
    &&& times.len() == statements.len()
    &&& outcomes.len() == statements.len()
    &&& forall|i: int|
        0 <= i < statements.len() ==> is_begun(
            sessions[i],
            #[trigger] statements[i],
            times[i],
            outcomes[i],
            sessions[i + 1],
        )
}

/// The statements of a session are numbered one after the other, from the first, and blank
/// ones are refused and take no number.
pub proof fn law_statements_are_numbered(
    sessions: Seq<SnowflakeClient>,
    statements: Seq<Seq<char>>,
    times: Seq<u64>,
    outcomes: Seq<Result<StatementRequest, ClientError>>,
    k: int,
)
    requires
        is_history(sessions, statements, times, outcomes),
        sessions[0].submitted() == 0,
        0 <= k < statements.len(),
    ensures
        sessions[k + 1].submitted() == statement_count(statements.take(k + 1)),
        text::trimmed(statements[k]).len() == 0 ==> outcomes[k] == Err::<
            StatementRequest,
            ClientError,
        >(ClientError::EmptyQuery),
        text::trimmed(statements[k]).len() > 0 ==> (outcomes[k] matches Ok(request)
            && request.body@ == statement_json(
            text::trimmed(statements[k]),
            statement_count(statements.take(k + 1)) as u64,
            times[k],
        )),
    decreases k,
{
    assert(is_begun(sessions[k], statements[k], times[k], outcomes[k], sessions[k + 1]));
    assert(statements.take(k + 1).drop_last() =~= statements.take(k));
    if k > 0 {
        law_statements_are_numbered(sessions, statements, times, outcomes, k - 1);
        assert(sessions[k].submitted() == statement_count(statements.take(k)));
    } else {
        assert(statement_count(statements.take(0)) == 0);
    }
    assert(statements.take(k + 1).last() == statements[k]);
}

/// More statements are not fewer that are not blank.
proof fn lemma_statement_count_grows(statements: Seq<Seq<char>>, j: int, k: int)
    requires
        0 <= j <= k <= statements.len(),
    ensures
        statement_count(statements.take(j)) <= statement_count(statements.take(k)),
    decreases k - j,
{
    if j < k {
        lemma_statement_count_grows(statements, j, k - 1);
        assert(statements.take(k).drop_last() =~= statements.take(k - 1));
    }
}

/// No two statements of a session have the same number.
pub proof fn law_statement_numbers_differ(statements: Seq<Seq<char>>, j: int, k: int)
    requires
        0 <= j < k < statements.len(),
        text::trimmed(statements[k]).len() > 0,
    ensures
        statement_count(statements.take(j + 1)) < statement_count(statements.take(k + 1)),
{
    lemma_statement_count_grows(statements, j + 1, k);
    assert(statements.take(k + 1).drop_last() =~= statements.take(k));
}

/// Whatever the statement, it is submitted to the account's own URL.
pub proof fn law_statement_stays_at_the_account(base: Seq<char>, id: Seq<char>)
    ensures
        statement_address(base, id).len() >= base.len(),
        statement_address(base, id).take(base.len() as int) == base,
{
    assert(statement_address(base, id).take(base.len() as int) =~= base);
}

/// A statement carries its request identifier: under different identifiers it is submitted
/// to different URLs.
pub proof fn law_statement_carries_its_id(base: Seq<char>, x: Seq<char>, y: Seq<char>)
    requires
        url::is_root_url(base),
        statement_address(base, x) == statement_address(base, y),
    ensures
        x == y,
{
    let path = "queries/v1/query-request"@;
    reveal_strlit("queries/v1/query-request");
    login::lemma_account_path_ends(base, path);
    login::lemma_pair_is_recovered(
        base + path,
        ("requestId"@, x),
        base + path,
        ("requestId"@, y),
    );
}

/// The request for a statement has the whole statement as its `sqlText`, asks for no
/// background execution, and carries the sequence number and the time. It goes to the path
/// for queries at the account, with the identifier as its only parameter.
pub proof fn law_statement_request_holds_the_statement(
    base: &AccountUrl,
    sql: &str,
    id: &str,
    sequence_id: u64,
    submitted_at: u64,
    r: StatementRequest,
)
    requires
        url::is_root_url(base@),
        call_ensures(statement_request, (base, sql, id, sequence_id, submitted_at), r),
    ensures
        r.url@ == base@ + "queries/v1/query-request?requestId="@ + url::form_encoded(id@),
        r.body matches JsonValue::Object(members) && {
            &&& members@.len() == 4
            &&& members@[0].0@ == "sqlText"@
            &&& members@[0].1 matches JsonValue::Text(shown)
            &&& shown@ == sql@
            &&& members@[1].0@ == "asyncExec"@
            &&& members@[1].1 == JsonValue::Flag(false)
            &&& members@[2].0@ == "sequenceId"@
            &&& members@[2].1 == JsonValue::Number(sequence_id)
            &&& members@[3].0@ == "querySubmissionTime"@
            &&& members@[3].1 == JsonValue::Number(submitted_at)
        },
{
    lemma_statement_url(base@, id@);
    lemma_statement_body(r.body, sql@, sequence_id, submitted_at);
}

proof fn lemma_statement_url(base: Seq<char>, id: Seq<char>)
    requires
        url::is_root_url(base),
    ensures
        statement_address(base, id) == base + "queries/v1/query-request?requestId="@
            + url::form_encoded(id),
{
    let path = "queries/v1/query-request"@;
    reveal_strlit("queries/v1/query-request");
    reveal_strlit("queries/v1/query-request?requestId=");
    reveal_strlit("requestId");
    login::lemma_account_path_ends(base, path);
    url::law_plain_texts_encode_themselves("requestId"@);
    assert(statement_address(base, id) =~= base + "queries/v1/query-request?requestId="@
        + url::form_encoded(id));
}

proof fn lemma_statement_body(body: JsonValue, sql: Seq<char>, sequence_id: u64, submitted_at: u64)
    requires
        body@ == statement_json(sql, sequence_id, submitted_at),
    ensures
        body matches JsonValue::Object(members) && {
            &&& members@.len() == 4
            &&& members@[0].0@ == "sqlText"@
            &&& members@[0].1 matches JsonValue::Text(shown)
            &&& shown@ == sql
            &&& members@[1].0@ == "asyncExec"@
            &&& members@[1].1 == JsonValue::Flag(false)
            &&& members@[2].0@ == "sequenceId"@
            &&& members@[2].1 == JsonValue::Number(sequence_id)
            &&& members@[3].0@ == "querySubmissionTime"@
            &&& members@[3].1 == JsonValue::Number(submitted_at)
        },
{
    json::law_objects_are_read_as_they_are(body);
    let members = body->Object_0@;
    assert(members[0].1@ == Json::Text(sql));
    json::law_texts_are_read_as_they_are(members[0].1);
    json::law_texts_are_read_as_they_are(members[1].1);
    json::law_texts_are_read_as_they_are(members[2].1);
    json::law_texts_are_read_as_they_are(members[3].1);
    assert(members[1].1@ == Json::Flag(false));
    assert(members[2].1@ == Json::Number(sequence_id));
    assert(members[3].1@ == Json::Number(submitted_at));
}

/// A statement that is not blank is submitted in full but for the white space around it,
/// under the next sequence number and an identifier of 36 characters of its own. A blank
/// one is refused and takes no number. The session stays otherwise as it is.
pub proof fn law_statement_is_submitted_in_full(
    session: &mut SnowflakeClient,
    sql: &str,
    submitted_at: u64,
    r: Result<StatementRequest, ClientError>,
)
    requires
        url::is_root_url(session.base()),
        call_ensures(SnowflakeClient::begin_statement, (session, sql, submitted_at), r),
    ensures
        final(session).base() == old(session).base(),
        final(session).token() == old(session).token(),
        match r {
            Ok(request) => {
                &&& exists|i: int| 0 <= i < sql@.len() && !text::is_white_space(#[trigger] sql@[i])
                &&& final(session).submitted() == old(session).submitted() + 1
                &&& request.body matches JsonValue::Object(members)
                &&& members@.len() == 4
                &&& members@[0].0@ == "sqlText"@
                &&& members@[0].1 matches JsonValue::Text(shown)
                &&& shown@ == text::trimmed(sql@)
                &&& members@[1].0@ == "asyncExec"@
                &&& members@[1].1 == JsonValue::Flag(false)
                &&& members@[2].0@ == "sequenceId"@
                &&& members@[2].1 == JsonValue::Number((old(session).submitted() + 1) as u64)
                &&& members@[3].0@ == "querySubmissionTime"@
                &&& members@[3].1 == JsonValue::Number(submitted_at)
                &&& request.url@.len() == old(session).base().len() + 35 + 36
                &&& request.url@.take(old(session).base().len() as int + 35) == old(session).base()
                    + "queries/v1/query-request?requestId="@
            },
            Err(e) => {
                &&& e == ClientError::EmptyQuery
                &&& forall|i: int|
                    0 <= i < sql@.len() ==> text::is_white_space(#[trigger] sql@[i])
                &&& final(session).submitted() == old(session).submitted()
            },
        },
{
    text::law_blank_is_trimmed_away(sql@);
    if let Ok(request) = r {
        let base = session.base();
        let id = choose|id: Seq<char>| #[trigger]
            request_id::is_drawn(id) && request_id::is_request_id(id) && request.url@
                == statement_address(base, id);
        lemma_statement_url(base, id);
        lemma_request_id_is_plain(id);
        reveal_strlit("queries/v1/query-request?requestId=");
        assert("queries/v1/query-request?requestId="@.len() == 35);
        assert(request.url@.take(base.len() as int + 35) =~= base
            + "queries/v1/query-request?requestId="@);
        lemma_statement_body(
            request.body,
            text::trimmed(sql@),
            (session.submitted() + 1) as u64,
            submitted_at,
        );
    }
}

/// A request identifier is encoded as it is.
proof fn lemma_request_id_is_plain(id: Seq<char>)
    requires
        request_id::is_request_id(id),
    ensures
        url::form_encoded(id) == id,
{
    assert forall|i: int| 0 <= i < id.len() implies {
        let c = #[trigger] id[i];
        ||| 'a' <= c <= 'z'
        ||| 'A' <= c <= 'Z'
        ||| '0' <= c <= '9'
        ||| c == '*' || c == '-' || c == '.' || c == '_'
    } by {
        assert(id[i] == '-' || request_id::is_lower_hex(id[i]));
    }
    url::law_plain_texts_encode_themselves(id);
}

/// Two statements with the same request body are the same but for the white space around
/// them.
pub proof fn law_bodies_tell_statements_apart(
    a: Seq<char>,
    b: Seq<char>,
    sequence_id: u64,
    submitted_at: u64,
)
    requires
        statement_json(a, sequence_id, submitted_at) == statement_json(
            b,
            sequence_id,
            submitted_at,
        ),
    ensures
        a == b,
{
    let x = statement_json(a, sequence_id, submitted_at);
    let y = statement_json(b, sequence_id, submitted_at);
    assert(x->Object_0[0].1 == Json::Text(a));
    assert(y->Object_0[0].1 == Json::Text(b));
}

/// A login that succeeds opens a session with the token that came as `token`, or else with
/// the one that came as `sessionToken`, at the account's URL. One that fails says why.
pub proof fn law_login_gives_the_token(
    base: AccountUrl,
    response: SnowflakeApiResponse<LoginData>,
    r: Result<SnowflakeClient, ClientError>,
)
    requires
        call_ensures(SnowflakeClient::from_login, (base, response), r),
    ensures
        match r {
            Ok(session) => {
                &&& response.success != Some(false)
                &&& response.data matches Some(data)
                &&& session.base() == base@
                &&& session.submitted() == 0
                &&& match data.token {
                    Some(token) => session.token() == token@,
                    None => data.session_token matches Some(token) && session.token() == token@,
                }
            },
            Err(ClientError::OperationFailed { operation, code, message }) => {
                &&& response.success == Some(false)
                &&& operation@ == "Snowflake login"@
                &&& code@ == (match response.code {
                    Some(text) => text@,
                    None => Seq::empty(),
                })
                &&& message@ == (match response.message {
                    Some(text) => text@,
                    None => Seq::empty(),
                })
            },
            Err(ClientError::MissingData { operation, code, message }) => {
                &&& response.success != Some(false)
                &&& response.data is None
                &&& operation@ == "Snowflake login"@
                &&& code@ == (match response.code {
                    Some(text) => text@,
                    None => Seq::empty(),
                })
                &&& message@ == (match response.message {
                    Some(text) => text@,
                    None => Seq::empty(),
                })
            },
            Err(ClientError::MissingSessionToken) => {
                &&& response.success != Some(false)
                &&& response.data matches Some(data)
                &&& data.token is None
                &&& data.session_token is None
            },
            Err(_) => false,
        },
{
}

/// The requests of a session carry the whole token, in quotes, and are refused only if the
/// token has a control character other than the tab.
pub proof fn law_session_headers_hold_the_token(
    session: &SnowflakeClient,
    r: Result<HeaderMap<HeaderValue>, ClientError>,
)
    requires
        call_ensures(SnowflakeClient::session_headers, (session,), r),
    ensures
        ({
            let token = session.token();
            let clean = forall|i: int|
                0 <= i < token.len() ==> {
                    let c = #[trigger] token[i];
                    c == '\t' || (c >= ' ' && c != '\u{7f}')
                };
            match r {
                Ok(headers) => {
                    let entries = header::header_entries(headers);
                    &&& clean
                    &&& entries.dom() == set!["accept"@, "user-agent"@, "authorization"@]
                    &&& entries["accept"@] == "application/snowflake"@
                    &&& entries["user-agent"@] == "C API/0.1.0"@
                    &&& entries["authorization"@] == "Snowflake Token=\""@ + token + "\""@
                },
                Err(e) => !clean && e is InvalidSessionToken,
            }
        }),
{
    let token = session.token();
    let value = "Snowflake Token=\""@ + token + "\""@;
    law_session_has_three_headers(token);
    reveal_strlit("Snowflake Token=\"");
    reveal_strlit("\"");
    reveal_strlit("C API");
    reveal_strlit("/");
    reveal_strlit("0.1.0");
    reveal_strlit("C API/0.1.0");
    assert(login::client_name() =~= "C API/0.1.0"@);
    assert forall|i: int| 0 <= i < token.len() implies #[trigger] token[i] == value[17 + i] by {}
    if header::is_header_value(value) {
        assert forall|i: int| 0 <= i < token.len() implies {
            let c = #[trigger] token[i];
            c == '\t' || (c >= ' ' && c != '\u{7f}')
        } by {
            assert(header::is_value_char(value[17 + i]));
        }
    } else {
        let i = choose|i: int| 0 <= i < value.len() && !header::is_value_char(#[trigger] value[i]);
        assert(17 <= i < 17 + token.len());
        assert(token[i - 17] == value[i]);
    }
}

/// An endpoint is what the account's URL and the path without its leading slashes denote.
pub proof fn law_endpoint_is_at_the_account(
    session: &SnowflakeClient,
    path: &str,
    r: Result<String, ClientError>,
)
    requires
        call_ensures(SnowflakeClient::endpoint, (session, path), r),
    ensures
        ({
            let relative = text::without_leading(path@, '/');
            let plain = relative.len() > 0 && forall|i: int|
                0 <= i < relative.len() ==> {
                    let c = #[trigger] relative[i];
                    ||| 'a' <= c <= 'z'
                    ||| 'A' <= c <= 'Z'
                    ||| '0' <= c <= '9'
                    ||| c == '_' || c == '-' || c == '/'
                };
            &&& url::ok_text(r) == url::joined_url(session.base(), relative)
            &&& plain ==> url::ok_text(r) == Some(session.base() + relative)
            &&& r is Err ==> (r->Err_0 matches ClientError::InvalidEndpoint { path: shown, .. }
                && shown@ == path@)
        }),
{
    text::law_leading_run_is_taken_away(path@, '/');
}

/// While an answer has the code `333333` or `333334` its statement is polled where the
/// answer says. Any other answer ends the statement, with its data as they are or with the
/// reason why there are none.
pub proof fn law_only_running_statements_are_polled(
    session: &SnowflakeClient,
    response: SnowflakeApiResponse<QueryData>,
    r: Result<StatementStep, ClientError>,
)
    requires
        call_ensures(SnowflakeClient::statement_step, (session, response), r),
    ensures
        ({
            let running = response.code matches Some(code) && (code@ == "333333"@ || code@
                == "333334"@);
            let code = match response.code {
                Some(text) => text@,
                None => Seq::empty(),
            };
            let message = match response.message {
                Some(text) => text@,
                None => Seq::empty(),
            };
            match r {
                Ok(StatementStep::Poll { url }) => {
                    &&& running
                    &&& response.data matches Some(data)
                    &&& data.get_result_url matches Some(reference)
                    &&& url::joined_url(session.base(), text::without_leading(reference@, '/'))
                        == Some(url@)
                },
                Ok(StatementStep::Done(data)) => !running && response.success != Some(false)
                    && response.data == Some(data),
                Err(ClientError::MissingResultUrl) => running && (response.data matches Some(data)
                    ==> data.get_result_url is None),
                Err(ClientError::InvalidResultUrl { url: shown, .. }) => {
                    &&& running
                    &&& response.data matches Some(data)
                    &&& data.get_result_url matches Some(reference)
                    &&& shown@ == reference@
                    &&& url::joined_url(session.base(), text::without_leading(reference@, '/'))
                        is None
                },
                Err(ClientError::OperationFailed { operation, code: c, message: m }) => {
                    &&& !running
                    &&& response.success == Some(false)
                    &&& operation@ == "Snowflake query"@ && c@ == code && m@ == message
                },
                Err(ClientError::MissingData { operation, code: c, message: m }) => {
                    &&& !running
                    &&& response.success != Some(false) && response.data is None
                    &&& operation@ == "Snowflake query"@ && c@ == code && m@ == message
                },
                Err(_) => false,
            }
        }),
{
}

} // verus!
