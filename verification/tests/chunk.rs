use reqwest::StatusCode;
use snowflake::chunk::{
    chunk_is_gzip, chunk_retry_backoff, is_retryable_chunk_status, redact_url,
    response_is_gzip_encoded, ChunkAction, ChunkDownload, ChunkEvent,
    CHUNK_DOWNLOAD_MAX_ATTEMPTS,
};

#[test]
fn redacts_presigned_chunk_url() {
    assert_eq!(
        redact_url("https://example.s3.amazonaws.com/chunk?X-Amz-Signature=secret#frag"),
        "https://example.s3.amazonaws.com/chunk"
    );
    assert_eq!(redact_url("not a url"), "<invalid-url>");
}

#[test]
fn redacts_unusual_urls() {
    assert_eq!(redact_url("https://h/a#x?secret"), "https://h/a");
    assert_eq!(redact_url("https://h?secret"), "https://h/");
    assert_eq!(redact_url("HTTPS://H/a b?secret"), "https://h/a%20b");
    assert_eq!(redact_url("https://us?er@h/"), "https://us/");
    assert_eq!(redact_url("data:text  ?secret"), "data:text");
    assert_eq!(redact_url("data:text  #secret"), "data:text");
    assert_eq!(redact_url("data:a b"), "data:a b");
    assert_eq!(redact_url("foo://h?#"), "foo://h");
    assert_eq!(redact_url(""), "<invalid-url>");
    for url in ["https://h/p?a=b#c", "https://h/p#c?d", "https://h/p?x", "https://h/p"] {
        assert_eq!(redact_url(url), "https://h/p");
    }
}

#[test]
fn the_wait_doubles() {
    let waits: Vec<u64> = (1..=6).map(chunk_retry_backoff).collect();
    assert_eq!(waits, [250, 500, 1000, 2000, 4000, 8000]);
    assert_eq!(chunk_retry_backoff(57), 250 * (1u64 << 56));
    assert_eq!(waits[..5].iter().sum::<u64>(), waits[5] - waits[0]);
}

#[test]
fn retries_only_some_statuses() {
    for status in 100..=999u16 {
        let code = StatusCode::from_u16(status).unwrap();
        let expected = code == StatusCode::TOO_MANY_REQUESTS
            || code == StatusCode::SERVICE_UNAVAILABLE
            || code == StatusCode::BAD_GATEWAY
            || code == StatusCode::GATEWAY_TIMEOUT;
        assert_eq!(is_retryable_chunk_status(status), expected);
    }
}

#[test]
fn a_download_makes_six_attempts() {
    let mut download = ChunkDownload::new();
    let mut waits = Vec::new();
    for attempt in 1..CHUNK_DOWNLOAD_MAX_ATTEMPTS {
        assert_eq!(download.attempt(), attempt);
        let event = if attempt % 2 == 0 {
            ChunkEvent::SendFailed
        } else {
            ChunkEvent::Answered { status: 503 }
        };
        match download.step(event) {
            ChunkAction::Retry { wait_millis } => waits.push(wait_millis),
            _ => panic!("attempt {attempt} is not repeated"),
        }
    }
    assert_eq!(waits, [250, 500, 1000, 2000, 4000]);
    assert_eq!(download.attempt(), 6);
    assert!(matches!(download.step(ChunkEvent::SendFailed), ChunkAction::GiveUp));
    assert!(matches!(
        download.step(ChunkEvent::Answered { status: 429 }),
        ChunkAction::GiveUp
    ));
    assert!(matches!(
        download.step(ChunkEvent::Answered { status: 200 }),
        ChunkAction::Accept
    ));
}

#[test]
fn a_success_is_accepted_and_a_final_failure_is_not_retried() {
    for status in 200..600u16 {
        let code = StatusCode::from_u16(status).unwrap();
        if !code.is_success() && !code.is_client_error() && !code.is_server_error() {
            continue;
        }
        let mut download = ChunkDownload::new();
        let action = download.step(ChunkEvent::Answered { status });
        if code.is_success() {
            assert!(matches!(action, ChunkAction::Accept));
        } else if is_retryable_chunk_status(status) {
            assert!(matches!(action, ChunkAction::Retry { wait_millis: 250 }));
        } else {
            assert!(matches!(action, ChunkAction::GiveUp));
        }
    }
}

#[test]
fn recognizes_gzip() {
    let plain = "https://h/chunk";
    let tagged = "https://h/chunk?response-content-encoding=gzip";
    assert!(response_is_gzip_encoded(Some(b"gzip"), plain));
    assert!(response_is_gzip_encoded(Some(b"GZip"), plain));
    assert!(!response_is_gzip_encoded(Some(b"gzip, br"), plain));
    assert!(!response_is_gzip_encoded(Some(b"gzip\xff"), plain));
    assert!(!response_is_gzip_encoded(Some(b"\x00"), plain));
    assert!(!response_is_gzip_encoded(Some(b""), plain));
    assert!(!response_is_gzip_encoded(None, plain));
    assert!(response_is_gzip_encoded(None, tagged));
    assert!(response_is_gzip_encoded(Some(b"identity"), tagged));
    assert!(!response_is_gzip_encoded(None, "https://h/?response-content-encoding=GZIP"));

    assert!(chunk_is_gzip(true, b""));
    assert!(chunk_is_gzip(false, &[0x1f, 0x8b]));
    assert!(chunk_is_gzip(false, &[0x1f, 0x8b, 8]));
    assert!(!chunk_is_gzip(false, &[0x1f]));
    assert!(!chunk_is_gzip(false, &[0x8b, 0x1f]));
    assert!(!chunk_is_gzip(false, b""));
}

#[test]
fn nothing_of_a_query_or_a_fragment_shows() {
    for start in [
        "https://example.s3.amazonaws.com/chunk",
        "HTTP://User:pw@Example.com:80",
        "https:example.com\\a\\..\\b%41",
        "https://[::1]:8443/a//./b/",
        "https://b\u{fc}cher.example/\u{e4}",
    ] {
        let shown = redact_url(start);
        assert!(shown.starts_with("http"));
        assert!(!shown.contains('?') && !shown.contains('#'));
        for rest in ["", "q", "a=b#c", "?#?", "@x/..\\", " \u{e4} ", "#\t\n", "//y:1"] {
            assert_eq!(redact_url(&format!("{start}?{rest}")), shown);
            assert_eq!(redact_url(&format!("{start}#{rest}")), shown);
        }
        assert_eq!(redact_url(&shown), shown);
    }
    assert_eq!(redact_url("HTTP://User:pw@Example.com:80?x"), "http://User:pw@example.com/");
}
