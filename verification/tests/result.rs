use snowflake::error::ClientError;
use snowflake::response::{QueryData, SnowflakeChunk};
use snowflake::result::{chunk_headers, inline_rowset, plan_chunks};

fn data(headers: &[(&str, &str)], qrmk: Option<&str>) -> QueryData {
    QueryData {
        query_id: Some("query".to_string()),
        query_result_format: Some("arrow".to_string()),
        rowset_base64: None,
        chunks: vec![
            SnowflakeChunk { url: "https://h/0".to_string() },
            SnowflakeChunk { url: "https://h/1".to_string() },
        ],
        chunk_headers: headers
            .iter()
            .map(|(name, value)| (name.to_string(), value.to_string()))
            .collect(),
        qrmk: qrmk.map(str::to_string),
        total: Some(9),
        get_result_url: None,
    }
}

#[test]
fn only_arrow_results_are_read() {
    let mut data = data(&[], None);
    for format in ["arrow", "ARROW", "Arrow_Force"] {
        data.query_result_format = Some(format.to_string());
        data.rowset_base64 = None;
        assert_eq!(inline_rowset(&data).unwrap(), None);
        data.rowset_base64 = Some("rows".to_string());
        assert_eq!(inline_rowset(&data).unwrap(), Some("rows"));
    }
    for format in [Some("json"), Some("arrow "), Some(""), None] {
        data.query_result_format = format.map(str::to_string);
        let error = inline_rowset(&data).unwrap_err();
        let shown = format.unwrap_or_default();
        assert_eq!(
            error.message(),
            format!("Snowflake returned queryResultFormat='{shown}', expected Arrow")
        );
    }
}

#[test]
fn given_headers_are_used() {
    let headers = chunk_headers(&data(&[("X-One", "1"), ("x-two", "a b\t\u{e4}")], Some("key"))).unwrap();
    assert_eq!(headers.len(), 2);
    assert_eq!(headers["x-one"], "1");
    assert_eq!(headers["x-two"].as_bytes(), "a b\t\u{e4}".as_bytes());

    let turned = chunk_headers(&data(&[("x-two", "a b\t\u{e4}"), ("X-One", "1")], None)).unwrap();
    assert_eq!(turned, headers);

    let headers = chunk_headers(&data(&[("A", "1"), ("a", "2")], None)).unwrap();
    assert_eq!(headers.len(), 1);
    assert_eq!(headers["a"], "2");
}

#[test]
fn without_headers_the_key_is_used() {
    let headers = chunk_headers(&data(&[], Some("key"))).unwrap();
    assert_eq!(headers.len(), 2);
    assert_eq!(headers["x-amz-server-side-encryption-customer-algorithm"], "AES256");
    assert_eq!(headers["x-amz-server-side-encryption-customer-key"], "key");
    assert!(chunk_headers(&data(&[], None)).unwrap().is_empty());
    let error = chunk_headers(&data(&[], Some("k\ny"))).unwrap_err();
    assert!(matches!(error, ClientError::InvalidChunkKey { .. }));
    assert_eq!(error.message(), "invalid Snowflake qrmk chunk header");
}

#[test]
fn malformed_headers_are_refused() {
    for name in ["", "a b", "a:", "\u{e4}", "a\0", "\"", "(", "@"] {
        let error = chunk_headers(&data(&[("ok", "v"), (name, "v")], None)).unwrap_err();
        assert_eq!(error.message(), format!("invalid Snowflake chunk header name: {name}"));
    }
    let long = "A".repeat(65_535);
    let headers = chunk_headers(&data(&[(&long, "v")], None)).unwrap();
    assert_eq!(headers[long.to_lowercase()], "v");
    let longer = "a".repeat(65_536);
    assert!(chunk_headers(&data(&[(&longer, "v")], None)).is_err());
    let error = chunk_headers(&data(&[("X-Bad", "\u{7f}"), ("", "")], None)).unwrap_err();
    assert_eq!(error.message(), "invalid Snowflake chunk header value for x-bad");
    for c in '\0'..='\u{ff}' {
        let name = c.to_string();
        let allowed = c.is_ascii_alphanumeric() || "!#$%&'*+-.^_`|~".contains(c);
        assert_eq!(chunk_headers(&data(&[(&name, "")], None)).is_ok(), allowed, "{c:?}");
    }
}

#[test]
fn there_can_be_many_headers() {
    let mut many = data(&[], None);
    for i in 0..6554 {
        many.chunk_headers.push((format!("h{i}"), i.to_string()));
    }
    let headers = chunk_headers(&many).unwrap();
    assert_eq!(headers.len(), 6554);
    assert_eq!(headers["h6553"], "6553");
    for i in 6554..30_000 {
        many.chunk_headers.push((format!("h{i}"), i.to_string()));
    }
    assert!(matches!(chunk_headers(&many), Err(ClientError::TooManyChunkHeaders)));
}

#[test]
fn chunks_are_read_by_at_least_one_reader() {
    let plan = plan_chunks(data(&[("a", "1")], None), 0).unwrap();
    assert_eq!(plan.readers, 1);
    assert_eq!(plan.metadata.query_id.as_deref(), Some("query"));
    assert_eq!(plan.metadata.total_rows, Some(9));
    let urls: Vec<&str> = plan.chunks.iter().map(|chunk| chunk.url.as_str()).collect();
    assert_eq!(urls, ["https://h/0", "https://h/1"]);
    assert_eq!(plan.headers["a"], "1");
    assert_eq!(plan_chunks(data(&[], None), 7).unwrap().readers, 7);
    assert!(plan_chunks(data(&[("", "")], None), 1).is_err());
}
