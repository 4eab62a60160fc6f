use snowflake::account::{account_base_url, AccountUrl};
use snowflake::config::{SnowflakeAuthenticator, SnowflakeReaderConfig};
use snowflake::json::JsonValue;
use snowflake::login::{
    login_body, login_query, login_url, login_url_with_id, nonempty, user_agent,
};

fn config() -> SnowflakeReaderConfig {
    SnowflakeReaderConfig {
        account: "xy12345.us-east-1".to_string(),
        user: "Reader".to_string(),
        authenticator: SnowflakeAuthenticator::SnowflakeJwt,
        role: None,
        warehouse: None,
        database: None,
        schema: None,
        private_key_file: "key.pem".to_string(),
        private_key_file_pwd: None,
    }
}

fn base() -> AccountUrl {
    account_base_url("xy12345.us-east-1").unwrap()
}

fn to_serde(value: &JsonValue) -> serde_json::Value {
    match value {
        JsonValue::Text(text) => serde_json::Value::from(text.as_str()),
        JsonValue::Flag(flag) => serde_json::Value::from(*flag),
        JsonValue::Number(number) => serde_json::Value::from(*number),
        JsonValue::Object(members) => serde_json::Value::Object(
            members.iter().map(|(key, value)| (key.clone(), to_serde(value))).collect(),
        ),
    }
}

#[test]
fn settings_are_trimmed_and_blank_ones_dropped() {
    assert_eq!(nonempty(None), None);
    assert_eq!(nonempty(Some("")), None);
    assert_eq!(nonempty(Some(" \n")), None);
    assert_eq!(nonempty(Some(" a b ")), Some("a b"));
    assert_eq!(nonempty(nonempty(Some(" a b "))), Some("a b"));
}

#[test]
fn the_login_url_carries_the_settings() {
    let mut config = config();
    assert_eq!(
        login_url_with_id(&base(), &config, "id-1"),
        "https://xy12345.us-east-1.snowflakecomputing.com/session/v1/login-request?request_id=id-1"
    );
    config.database = Some(" DB ".to_string());
    config.schema = Some("  ".to_string());
    config.warehouse = Some("W&H=1".to_string());
    config.role = Some("r\u{f6}le+ *-._~%".to_string());
    assert_eq!(
        login_url_with_id(&base(), &config, "a b"),
        "https://xy12345.us-east-1.snowflakecomputing.com/session/v1/login-request\
         ?request_id=a+b&databaseName=DB&warehouse=W%26H%3D1&roleName=r%C3%B6le%2B+*-._%7E%25"
    );
    config.schema = Some("PUBLIC".to_string());
    let pairs = login_query(&config, "id-2");
    let names: Vec<&str> = pairs.iter().map(|(name, _)| name.as_str()).collect();
    assert_eq!(names, ["request_id", "databaseName", "schemaName", "warehouse", "roleName"]);
    assert_eq!(pairs[1].1, "DB");
}

#[test]
fn blank_settings_make_no_difference() {
    let mut blank = config();
    blank.database = Some("\t".to_string());
    blank.role = Some("".to_string());
    assert_eq!(
        login_url_with_id(&base(), &blank, "x"),
        login_url_with_id(&base(), &config(), "x")
    );
}

#[test]
fn the_login_url_is_read_back_by_the_url_parser() {
    let mut config = config();
    config.database = Some("d b?#/\u{1f600}".to_string());
    let url = reqwest::Url::parse(&login_url_with_id(&base(), &config, "x")).unwrap();
    let pairs: Vec<(String, String)> = url.query_pairs().into_owned().collect();
    assert_eq!(pairs[0], ("request_id".to_string(), "x".to_string()));
    assert_eq!(pairs[1], ("databaseName".to_string(), "d b?#/\u{1f600}".to_string()));
    assert_eq!(url.path(), "/session/v1/login-request");
}

#[test]
fn every_login_has_its_own_request_id() {
    let first = login_url(&base(), &config());
    let second = login_url(&base(), &config());
    assert_ne!(first, second);
    let start = "https://xy12345.us-east-1.snowflakecomputing.com/session/v1/login-request?request_id=";
    for url in [first, second] {
        let id = url.strip_prefix(start).unwrap();
        let uuid = uuid::Uuid::parse_str(id).unwrap();
        assert_eq!(uuid.get_version_num(), 4);
        assert_eq!(uuid.to_string(), id);
    }
}

#[test]
fn the_login_body_describes_the_client() {
    let body = to_serde(&login_body(&config(), "TOKEN", "linux", "x86_64"));
    let data = &body["data"];
    assert_eq!(body.as_object().unwrap().len(), 1);
    assert_eq!(data.as_object().unwrap().len(), 8);
    assert_eq!(data["CLIENT_APP_ID"], "C API");
    assert_eq!(data["CLIENT_APP_VERSION"], "0.1.0");
    assert_eq!(data["ACCOUNT_NAME"], "xy12345");
    assert_eq!(data["LOGIN_NAME"], "Reader");
    assert_eq!(data["AUTHENTICATOR"], "SNOWFLAKE_JWT");
    assert_eq!(data["TOKEN"], "TOKEN");
    assert_eq!(data["CLIENT_ENVIRONMENT"].as_object().unwrap().len(), 3);
    assert_eq!(data["CLIENT_ENVIRONMENT"]["APPLICATION"], "C API");
    assert_eq!(data["CLIENT_ENVIRONMENT"]["OS"], "linux");
    assert_eq!(data["CLIENT_ENVIRONMENT"]["ARCH"], "x86_64");
    assert_eq!(data["SESSION_PARAMETERS"].as_object().unwrap().len(), 2);
    assert_eq!(data["SESSION_PARAMETERS"]["AUTOCOMMIT"], "true");
    assert_eq!(data["SESSION_PARAMETERS"]["TIMEZONE"], "UTC");
}

#[test]
fn the_client_has_a_name() {
    assert_eq!(user_agent(), "C API/0.1.0");
}

#[test]
fn logins_that_differ_go_to_different_urls() {
    let mut one = config();
    one.database = Some("a&schemaName=b".to_string());
    let mut two = config();
    two.database = Some("a".to_string());
    two.schema = Some("b".to_string());
    assert_ne!(login_url_with_id(&base(), &one, "x"), login_url_with_id(&base(), &two, "x"));
    assert_eq!(
        login_url_with_id(&base(), &one, "x"),
        "https://xy12345.us-east-1.snowflakecomputing.com/session/v1/login-request\
         ?request_id=x&databaseName=a%26schemaName%3Db"
    );
    one.database = Some("%26".to_string());
    two.database = Some("&".to_string());
    two.schema = None;
    assert_ne!(login_url_with_id(&base(), &one, "x"), login_url_with_id(&base(), &two, "x"));
}
