use snowflake::account::account_base_url;
use snowflake::client::{
    arrow_format_statement, statement_request, SnowflakeClient, StatementStep,
};
use snowflake::error::ClientError;
use snowflake::json::JsonValue;
use snowflake::response::{
    login_session_token, response_data, LoginData, QueryData, SnowflakeApiResponse,
};

fn response<T>(data: Option<T>) -> SnowflakeApiResponse<T> {
    SnowflakeApiResponse { success: Some(true), code: None, message: None, data }
}

fn login_data(token: Option<&str>, session_token: Option<&str>) -> LoginData {
    LoginData {
        token: token.map(str::to_string),
        session_token: session_token.map(str::to_string),
    }
}

fn query_data(get_result_url: Option<&str>) -> QueryData {
    QueryData {
        query_id: Some("query".to_string()),
        query_result_format: None,
        rowset_base64: None,
        chunks: Vec::new(),
        chunk_headers: Vec::new(),
        qrmk: None,
        total: None,
        get_result_url: get_result_url.map(str::to_string),
    }
}

fn client(token: &str) -> SnowflakeClient {
    let base = account_base_url("org-account").unwrap();
    SnowflakeClient::from_login(base, response(Some(login_data(Some(token), None)))).unwrap()
}

const BASE: &str = "https://org-account.snowflakecomputing.com/";

#[test]
fn answers_bring_data_or_an_error() {
    let full = |success| SnowflakeApiResponse {
        success,
        code: Some("42".to_string()),
        message: Some("why".to_string()),
        data: Some(7),
    };
    assert_eq!(response_data(full(None), "op").unwrap(), 7);
    assert_eq!(response_data(full(Some(true)), "op").unwrap(), 7);
    let error = response_data(full(Some(false)), "op").unwrap_err();
    assert_eq!(error.message(), "op failed: code=42 message=why");
    let error = response_data(response::<u8>(None), "op").unwrap_err();
    assert_eq!(
        error.message(),
        "op response did not include a data object: code= message="
    );
    let mut without_data = full(None);
    without_data.data = None;
    let error = response_data(without_data, "op").unwrap_err();
    assert_eq!(
        error.message(),
        "op response did not include a data object: code=42 message=why"
    );
}

#[test]
fn the_first_session_token_is_taken() {
    assert_eq!(login_session_token(login_data(Some("a"), Some("b"))).unwrap(), "a");
    assert_eq!(login_session_token(login_data(None, Some("b"))).unwrap(), "b");
    assert!(matches!(
        login_session_token(login_data(None, None)),
        Err(ClientError::MissingSessionToken)
    ));
}

#[test]
fn a_login_opens_a_session() {
    let open = |answer| SnowflakeClient::from_login(account_base_url("org-account").unwrap(), answer);
    let client = open(response(Some(login_data(None, Some("tok"))))).unwrap();
    assert_eq!(client.base_url().as_str(), BASE);
    assert_eq!(
        client.session_headers().unwrap()["authorization"],
        "Snowflake Token=\"tok\""
    );
    let error = open(response(Some(login_data(None, None)))).unwrap_err();
    assert_eq!(error.message(), "Snowflake login response did not include a session token");
    let error = open(response(None)).unwrap_err();
    assert_eq!(
        error.message(),
        "Snowflake login response did not include a data object: code= message="
    );
    let mut refused = response(Some(login_data(Some("tok"), None)));
    refused.success = Some(false);
    refused.code = Some("390100".to_string());
    assert_eq!(
        open(refused).unwrap_err().message(),
        "Snowflake login failed: code=390100 message="
    );
}

#[test]
fn sessions_have_three_headers() {
    let headers = client("tok").session_headers().unwrap();
    assert_eq!(headers.len(), 3);
    assert_eq!(headers["accept"], "application/snowflake");
    assert_eq!(headers["user-agent"], "C API/0.1.0");
    assert_eq!(headers["authorization"], "Snowflake Token=\"tok\"");
    let error = client("to\nk").session_headers().unwrap_err();
    assert!(matches!(error, ClientError::InvalidSessionToken { .. }));
    assert_eq!(error.message(), "invalid Snowflake session token header");
    let headers = client("t\u{e4}\tk").session_headers().unwrap();
    assert_eq!(
        headers["authorization"].as_bytes(),
        "Snowflake Token=\"t\u{e4}\tk\"".as_bytes()
    );
    for c in '\0'..'\u{a0}' {
        let accepted = client(&c.to_string()).session_headers().is_ok();
        assert_eq!(accepted, c == '\t' || !c.is_ascii_control(), "{c:?}");
    }
}

#[test]
fn endpoints_are_paths_of_the_account() {
    let client = client("tok");
    assert_eq!(
        client.endpoint("/queries/v1/query-request").unwrap(),
        format!("{BASE}queries/v1/query-request")
    );
    assert_eq!(client.endpoint("//a//b_c/").unwrap(), format!("{BASE}a//b_c/"));
    assert_eq!(client.endpoint("").unwrap(), BASE);
    assert_eq!(client.endpoint("a/../b c?d").unwrap(), format!("{BASE}b%20c?d"));
    let error = client.endpoint("/https://:").unwrap_err();
    assert_eq!(error.message(), "invalid Snowflake endpoint path: /https://:");
}

#[test]
fn statements_are_numbered() {
    let mut client = client("tok");
    let mut ids = Vec::new();
    for number in 1..=3u64 {
        let request = client.begin_statement(" select 1 ", 1_700_000_000_123).unwrap();
        let start = format!("{BASE}queries/v1/query-request?requestId=");
        let id = request.url.strip_prefix(&start).unwrap().to_string();
        assert_eq!(uuid::Uuid::parse_str(&id).unwrap().to_string(), id);
        assert!(!ids.contains(&id));
        ids.push(id);
        let JsonValue::Object(members) = &request.body else {
            panic!("no object");
        };
        let keys: Vec<&str> = members.iter().map(|(key, _)| key.as_str()).collect();
        assert_eq!(keys, ["sqlText", "asyncExec", "sequenceId", "querySubmissionTime"]);
        assert!(matches!(&members[0].1, JsonValue::Text(sql) if sql == "select 1"));
        assert!(matches!(&members[1].1, JsonValue::Flag(false)));
        assert!(matches!(&members[2].1, JsonValue::Number(n) if *n == number));
        assert!(matches!(&members[3].1, JsonValue::Number(1_700_000_000_123)));
        let error = client.begin_statement(" \n", 0).unwrap_err();
        assert!(matches!(error, ClientError::EmptyQuery));
        assert_eq!(error.message(), "Snowflake query must not be empty");
    }
    let request = statement_request(client.base_url(), "x", "a b", 1, 2);
    assert_eq!(request.url, format!("{BASE}queries/v1/query-request?requestId=a+b"));
}

#[test]
fn statements_in_progress_are_polled() {
    let client = client("tok");
    for code in ["333333", "333334"] {
        let mut answer = response(Some(query_data(Some("/queries/1/result?a=b"))));
        answer.code = Some(code.to_string());
        answer.success = Some(false);
        match client.statement_step(answer).unwrap() {
            StatementStep::Poll { url } => {
                assert_eq!(url, format!("{BASE}queries/1/result?a=b"))
            }
            other => panic!("{other:?}"),
        }

        for data in [None, Some(query_data(None))] {
            let mut answer = response(data);
            answer.code = Some(code.to_string());
            let error = client.statement_step(answer).unwrap_err();
            assert!(matches!(error, ClientError::MissingResultUrl));
            assert_eq!(
                error.message(),
                "Snowflake query-in-progress response did not include getResultUrl"
            );
        }

        let mut answer = response(Some(query_data(Some("/https://:"))));
        answer.code = Some(code.to_string());
        assert_eq!(
            client.statement_step(answer).unwrap_err().message(),
            "invalid Snowflake query result URL '/https://:'"
        );
    }
}

#[test]
fn finished_statements_bring_their_result() {
    let client = client("tok");
    for code in [None, Some("333335"), Some("")] {
        let mut answer = response(Some(query_data(Some("/ignored"))));
        answer.code = code.map(str::to_string);
        match client.statement_step(answer).unwrap() {
            StatementStep::Done(data) => assert_eq!(data.query_id.as_deref(), Some("query")),
            other => panic!("{other:?}"),
        }
    }
    let mut failed = response(Some(query_data(None)));
    failed.success = Some(false);
    failed.message = Some("syntax".to_string());
    assert_eq!(
        client.statement_step(failed).unwrap_err().message(),
        "Snowflake query failed: code= message=syntax"
    );
    assert_eq!(
        client.statement_step(response(None)).unwrap_err().message(),
        "Snowflake query response did not include a data object: code= message="
    );
}

#[test]
fn sessions_ask_for_arrow() {
    assert_eq!(
        arrow_format_statement(),
        "alter session set C_API_QUERY_RESULT_FORMAT=ARROW_FORCE"
    );
}

#[test]
fn the_cause_of_a_malformed_url_is_kept() {
    let error = client("tok").endpoint("https://:").unwrap_err();
    let ClientError::InvalidEndpoint { path, cause } = error else {
        panic!("{error:?}");
    };
    assert_eq!(path, "https://:");
    assert_eq!(cause, "empty host");
}

#[test]
fn blank_statements_take_no_number() {
    let mut client = client("tok");
    let mut number = 0u64;
    for sql in ["a", " ", "b", "", "\t\n", "c"] {
        match client.begin_statement(sql, 5) {
            Ok(request) => {
                number += 1;
                let JsonValue::Object(members) = &request.body else {
                    panic!("no object");
                };
                assert!(matches!(&members[0].1, JsonValue::Text(text) if text == sql.trim()));
                assert!(matches!(&members[2].1, JsonValue::Number(n) if *n == number));
            }
            Err(error) => {
                assert!(sql.trim().is_empty());
                assert!(matches!(error, ClientError::EmptyQuery));
            }
        }
        assert_eq!(client.sequence_id(), number);
    }
    assert_eq!(number, 3);
}
