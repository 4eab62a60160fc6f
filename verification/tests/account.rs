use snowflake::account::{account_base_url, login_account_name, validate_account_identifier};
use snowflake::error::ClientError;

#[test]
fn derives_account_urls() {
    assert_eq!(
        account_base_url("org-account").unwrap().as_str(),
        "https://org-account.snowflakecomputing.com/"
    );
    assert_eq!(
        account_base_url("xy12345.us-east-1").unwrap().as_str(),
        "https://xy12345.us-east-1.snowflakecomputing.com/"
    );
    assert!(account_base_url("http://localhost:8080").is_err());
    assert!(account_base_url("xy12345.snowflakecomputing.com").is_err());
}

#[test]
fn normalizes_account_name_for_login_and_jwt() {
    assert_eq!(login_account_name("org-account"), "org-account");
    assert_eq!(login_account_name("xy12345.us-east-1"), "xy12345");
    assert_eq!(login_account_name("xy12345-external.global"), "xy12345");
}

#[test]
fn chinese_regions_have_their_own_domain() {
    assert_eq!(
        account_base_url("xy12345.cn-north-1").unwrap().as_str(),
        "https://xy12345.cn-north-1.snowflakecomputing.cn/"
    );
    assert_eq!(
        account_base_url("xy12345.CN-northwest-1.aws").unwrap().as_str(),
        "https://xy12345.cn-northwest-1.aws.snowflakecomputing.cn/"
    );
    assert_eq!(
        account_base_url("cn-xy12345.cnorth").unwrap().as_str(),
        "https://cn-xy12345.cnorth.snowflakecomputing.com/"
    );
    assert_eq!(
        account_base_url("xy12345.us.cn-north-1").unwrap().as_str(),
        "https://xy12345.us.cn-north-1.snowflakecomputing.com/"
    );
}

#[test]
fn account_urls_ignore_case_and_outer_white_space() {
    assert_eq!(
        account_base_url(" \u{3000}Org_ACCOUNT.AWS \n").unwrap().as_str(),
        "https://org_account.aws.snowflakecomputing.com/"
    );
}

#[test]
fn unusual_words_give_urls() {
    for (account, host) in [
        ("-a-", "-a-"),
        ("_", "_"),
        ("0", "0"),
        ("1.2.3.4", "1.2.3.4"),
        ("0x10.1", "0x10.1"),
        ("ab--cd", "ab--cd"),
        ("a-.-b._", "a-.-b._"),
        ("A--B", "a--b"),
        ("axn--b", "axn--b"),
        ("xn-", "xn-"),
        ("9A_Z", "9a_z"),
    ] {
        let url = account_base_url(account).unwrap();
        assert_eq!(url.as_str(), format!("https://{host}.snowflakecomputing.com/"));
    }
    let long = "a".repeat(70_000);
    assert_eq!(
        account_base_url(&long).unwrap().as_str(),
        format!("https://{long}.snowflakecomputing.com/")
    );
}

#[test]
fn encoded_words_are_checked() {
    assert_eq!(
        account_base_url("XN--bcher-KVA").unwrap().as_str(),
        "https://xn--bcher-kva.snowflakecomputing.com/"
    );
    for account in ["xn--", "xn--a", "good.xn--abc-"] {
        match account_base_url(account) {
            Err(ClientError::InvalidAccountUrl { account: shown, .. }) => assert_eq!(shown, account),
            other => panic!("{account}: {other:?}"),
        }
    }
}

#[test]
fn refuses_what_is_no_account_identifier() {
    for account in [
        "", ".", "a.", ".a", "a..b", "a b", "a/b", "a:1", "a@b", "\u{e4}", "a?b", "a%41",
        "x.SnowflakeComputing.y", ".snowflakecomputing.",
    ] {
        match validate_account_identifier(account) {
            Err(ClientError::InvalidAccount { account: shown }) => assert_eq!(shown, account),
            other => panic!("{account}: {other:?}"),
        }
    }
    for account in ["a", "A-b_9", "a.b.c", "snowflakecomputing", "a.snowflakecomputing"] {
        assert!(validate_account_identifier(account).is_ok());
    }
    let error = account_base_url(" a b ").unwrap_err();
    assert_eq!(
        error.message(),
        "invalid Snowflake account identifier 'a b'; expected dot-separated letters, digits, underscores, or hyphens"
    );
    let error = account_base_url("xn--").unwrap_err();
    assert_eq!(error.message(), "invalid Snowflake account URL derived from 'xn--'");
}

#[test]
fn login_names_drop_the_region() {
    assert_eq!(login_account_name("a-b-c.GLOBAL"), "a-b");
    assert_eq!(login_account_name("abc.global"), "abc");
    assert_eq!(login_account_name("a-b.globally.c"), "a");
    assert_eq!(login_account_name("a-b.c-d"), "a-b");
    assert_eq!(login_account_name(""), "");
    assert_eq!(login_account_name("global"), "global");
    assert_eq!(login_account_name(login_account_name("a-b-c.global")), "a-b");
}
