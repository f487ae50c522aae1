use liters::client::{
    checked_answer, open_answer, read_listing, read_put_reply, request_context, HttpClientOptions,
    HttpReplicaClient, OpenAnswer, MAX_LISTING,
};
use liters::cancel::CancelToken;
use liters::copy::drain;
use liters::error::StorageError;
use liters::exchange::{ConnectSweep, SweepAction};
use liters::io::{Bytes, ErrorKind, IoError};
use liters::ltx::Txid;

#[test]
fn base_url_normalization() {
    let c = HttpReplicaClient::new("http://example.com:8080/some/base/").unwrap();
    assert_eq!(c.base_url, "http://example.com:8080/some/base");

    let c = HttpReplicaClient::new("http://10.0.0.1:9999").unwrap();
    assert_eq!(c.base_url, "http://10.0.0.1:9999");

    let c = HttpReplicaClient::new("http://[::1]:8080").unwrap();
    assert_eq!(c.base_url, "http://[::1]:8080");

    assert!(HttpReplicaClient::new("https://example.com").is_err());
    assert!(HttpReplicaClient::new("file:///tmp/x").is_err());
    assert!(HttpReplicaClient::new("http://user@host").is_err());

    let c = HttpReplicaClient::with_transport(
        "https://example.com/db/x/",
        HttpClientOptions::default(),
    )
    .unwrap();
    assert_eq!(c.base_url, "https://example.com/db/x");
}

#[test]
fn client_options_reject_unsafe_header_values() {
    let url = "http://127.0.0.1:9736";
    for bad in ["", "has space", "crlf\r\ninjected: x", "tab\there", "ünïcode", "del\x7f"] {
        assert!(
            HttpReplicaClient::with_options(url, HttpClientOptions {
                auth_token: Some(bad.into()),
                ..HttpClientOptions::default()
            })
            .is_err(),
            "auth_token {bad:?} should be rejected"
        );
        assert!(
            HttpReplicaClient::with_options(url, HttpClientOptions {
                writer_id: Some(bad.into()),
                ..HttpClientOptions::default()
            })
            .is_err(),
            "writer_id {bad:?} should be rejected"
        );
    }
    HttpReplicaClient::with_options(url, HttpClientOptions {
        auth_token: Some("Abc123._~+/=-".into()),
        writer_id: Some("device-7f3a".into()),
        ..HttpClientOptions::default()
    })
    .unwrap();
}

fn client() -> HttpReplicaClient {
    HttpReplicaClient::with_transport("http://host:9/db/x", HttpClientOptions::default()).unwrap()
}

fn list(level: u8, headers: &[(String, String)], body: &str) -> Result<Vec<liters::ltx::FileInfo>, StorageError> {
    let mut src = Bytes::new(body.as_bytes().to_vec());
    read_listing(level, headers, &mut src, &CancelToken::new())
}

fn length(n: usize) -> Vec<(String, String)> {
    vec![("content-length".to_string(), n.to_string())]
}

#[test]
fn lists_files_through_transport() {
    let listing = "0000000000000001-0000000000000001.ltx 100 -\n\
                   0000000000000002-0000000000000003.ltx 200 1700000000000\n";
    let files = list(0, &length(listing.len()), listing).unwrap();
    assert_eq!(files.len(), 2);
    assert_eq!((files[0].min_txid, files[0].max_txid, files[0].size), (Txid(1), Txid(1), 100));
    assert_eq!((files[1].min_txid, files[1].max_txid, files[1].size), (Txid(2), Txid(3), 200));
    assert_eq!(files[1].created_at, Some(1_700_000_000_000 * 1_000_000));

    let url = client().list_url(0, Txid(0), false);
    assert!(url.starts_with("http://host:9/db/x/ltx/0?seek="), "{url}");
    assert_eq!(url, "http://host:9/db/x/ltx/0?seek=0000000000000000");
    assert_eq!(
        client().list_url(3, Txid(255), true),
        "http://host:9/db/x/ltx/3?seek=00000000000000ff&meta=1"
    );
}

#[test]
fn http_transport_missing_file_maps_to_not_found() {
    let err = match open_answer(0, Txid(5), Txid(5), true, 404, "not found\n") {
        OpenAnswer::Fail(e) => e,
        other => panic!("expected NotFound, got {other:?}"),
    };
    assert!(
        matches!(err, StorageError::NotFound { min_txid: Txid(5), .. }),
        "expected NotFound, got {err:?}"
    );
}

#[test]
fn opens_whole_file_through_transport() {
    let bytes = b"an ltx file body";
    assert!(matches!(open_answer(0, Txid(1), Txid(1), true, 200, ""), OpenAnswer::Spool));
    let mut out: Vec<u8> = Vec::new();
    let mut body = Bytes::new(bytes.to_vec());
    drain(&mut body, &mut out, &CancelToken::new(), "read file body").unwrap();
    assert_eq!(out, bytes);
}

#[test]
fn error_taxonomy_transport_vs_protocol() {
    // Connect refused: transient.
    let (sweep, action) = ConnectSweep::new("127.0.0.1", 9, 1, false);
    assert!(matches!(action, SweepAction::Dial(0)));
    let refused = IoError::new(ErrorKind::ConnectionRefused, "refused");
    let err = match sweep.step(Err(refused), false).1 {
        SweepAction::Finish(Err(e)) => e,
        other => panic!("{other:?}"),
    };
    assert!(matches!(err, StorageError::Unavailable(_)), "connect refused: {err:?}");
    assert!(err.is_transient(), "connect refused must be transient");

    // A foreign server: a violation of the protocol.
    let headers = vec![("content-length".to_string(), "0".to_string())];
    let err = HttpReplicaClient::check_protocol("http://x", 200, &headers).unwrap_err();
    assert!(matches!(err, StorageError::Other(_)), "foreign server: {err:?}");
    assert!(!err.is_transient(), "protocol errors must not be transient");

    // 403 on a write: read-only.
    let err = HttpReplicaClient::status_error("push", true, 403, "");
    assert!(matches!(err, StorageError::ReadOnly(_)), "read-only server: {err:?}");
}

#[test]
fn whole_files_are_spooled_and_ranges_streamed() {
    assert!(matches!(open_answer(0, Txid(1), Txid(1), true, 200, ""), OpenAnswer::Spool));
    assert!(matches!(open_answer(0, Txid(1), Txid(1), false, 200, ""), OpenAnswer::Stream));
    match open_answer(0, Txid(1), Txid(2), true, 500, " boom ") {
        OpenAnswer::Fail(e) => assert_eq!(
            e.message(),
            "open L0 0000000000000001-0000000000000002: http status 500: boom"
        ),
        other => panic!("{other:?}"),
    }
    assert_eq!(
        client().open_url(0, Txid(1), Txid(1), 0, 0),
        "http://host:9/db/x/ltx/0/0000000000000001-0000000000000001.ltx"
    );
    assert_eq!(
        client().open_url(0, Txid(1), Txid(1), 4, 8),
        "http://host:9/db/x/ltx/0/0000000000000001-0000000000000001.ltx?offset=4&size=8"
    );
}

#[test]
fn rejects_response_without_protocol_header() {
    let url = "http://host:9/db/x/ltx/0?seek=0000000000000000";
    let err = HttpReplicaClient::check_protocol(url, 200, &length(3)).unwrap_err();
    assert!(
        matches!(err, StorageError::Other(msg) if msg.contains("not a liters server")),
        "expected protocol-header error"
    );
    let wrong = vec![("x-liters-protocol".to_string(), "2".to_string())];
    let err = HttpReplicaClient::check_protocol(url, 200, &wrong).unwrap_err();
    assert_eq!(
        err.message(),
        "server speaks liters protocol \"2\", this client speaks 1"
    );
    let right = vec![("x-liters-protocol".to_string(), "1".to_string())];
    assert!(HttpReplicaClient::check_protocol(url, 200, &right).is_ok());
}

#[test]
fn sends_authorization_header() {
    let opts = HttpClientOptions { auth_token: Some("s3cr3t".into()), ..Default::default() };
    let c = HttpReplicaClient::with_transport("http://host:9/db/x", opts).unwrap();
    let headers = c.extra_headers(false);
    assert!(
        headers.iter().any(|(n, v)| n == "authorization" && v == "Bearer s3cr3t"),
        "authorization header not sent: {headers:?}"
    );
}

#[test]
fn fencing_headers_go_with_writes_only() {
    let opts = HttpClientOptions {
        writer_id: Some("aaa".into()),
        takeover: true,
        ..HttpClientOptions::default()
    };
    let c = HttpReplicaClient::with_options("http://h", opts).unwrap();
    assert!(c.extra_headers(false).is_empty());
    assert_eq!(
        c.extra_headers(true),
        vec![
            ("x-liters-writer-id".to_string(), "aaa".to_string()),
            ("x-liters-writer-takeover".to_string(), "1".to_string()),
        ]
    );
}

#[test]
fn client_rejects_bad_protocol_responses() {
    let body = "0000000000000001-0000000000000002.ltx 100 1783804999123\n\
                utter garbage\n\
                0000000000000005-0000000000000005.ltx notasize 5\n\
                badname.ltx 10 20\n\
                \n\
                0000000000000003-0000000000000003.ltx 50 -\n";
    let infos = list(0, &length(body.len()), body).unwrap();
    assert_eq!(infos.len(), 2, "parsed {infos:?}");
    assert_eq!((infos[0].min_txid, infos[0].max_txid, infos[0].size), (Txid(1), Txid(2), 100));
    assert_eq!(infos[0].created_at, Some(1_783_804_999_123 * 1_000_000));
    assert_eq!(
        (infos[1].min_txid, infos[1].max_txid, infos[1].size, infos[1].created_at),
        (Txid(3), Txid(3), 50, None)
    );

    let body = "0000000000000001-0000000000000001.ltx 100 -\n";
    let err = list(0, &length(body.len() + 40), body).unwrap_err();
    assert!(err.message().contains("truncated listing"), "unexpected error: {}", err.message());
    assert!(err.is_transient());

    let err = list(0, &[], "").unwrap_err();
    assert!(err.message().contains("content-length"), "unexpected error: {}", err.message());

    let err = list(0, &length(MAX_LISTING as usize + 1), "").unwrap_err();
    assert_eq!(err.message(), "list level 0: implausible listing size 67108865");
}

#[test]
fn a_listing_that_is_no_text_is_refused() {
    let mut src = Bytes::new(vec![0xff, 0xfe]);
    let err = read_listing(4, &length(2), &mut src, &CancelToken::new()).unwrap_err();
    assert_eq!(err.message(), "list level 4: non-utf8 listing");
}

#[test]
fn a_cancelled_listing_is_not_read() {
    let token = CancelToken::new();
    token.cancel();
    let mut src = Bytes::new(Vec::new());
    assert!(matches!(
        read_listing(0, &length(0), &mut src, &token),
        Err(StorageError::Cancelled)
    ));
}

#[test]
fn statuses_map_to_errors() {
    let ctx = request_context("push", 0, Txid(1), Txid(1));
    assert_eq!(ctx, "push L0 0000000000000001-0000000000000001");
    assert!(checked_answer(&ctx, true, 200, "").is_ok());
    assert!(matches!(checked_answer(&ctx, true, 401, ""), Err(StorageError::Unauthorized(_))));
    assert!(matches!(checked_answer(&ctx, true, 403, ""), Err(StorageError::ReadOnly(_))));
    assert!(matches!(checked_answer(&ctx, false, 403, ""), Err(StorageError::Other(_))));
    assert!(matches!(checked_answer(&ctx, true, 409, ""), Err(StorageError::Conflict(_))));
    let e = checked_answer("delete all", true, 500, "\n").unwrap_err();
    assert_eq!(e.message(), "delete all: http status 500");
}

#[test]
fn put_replies_are_listing_lines() {
    let f = read_put_reply(0, "0000000000000001-0000000000000001.ltx 600 1783800000123\n").unwrap();
    assert_eq!((f.level, f.min_txid, f.max_txid, f.size), (0, Txid(1), Txid(1), 600));
    assert_eq!(f.created_at, Some(1_783_800_000_123 * 1_000_000));
    let e = read_put_reply(0, "what\n").unwrap_err();
    assert_eq!(e.message(), "push L0: bad put response \"what\\n\"");
}

#[test]
fn request_targets() {
    let c = HttpReplicaClient::new("http://h:1/p").unwrap();
    assert_eq!(c.wipe_url(), "http://h:1/p/all");
    assert_eq!(c.stream_url(Txid(26)), "http://h:1/p/stream?seek=000000000000001a");
    assert_eq!(
        c.list_url(9, Txid(0), true),
        "http://h:1/p/ltx/9?seek=0000000000000000&meta=1"
    );
    assert_eq!(
        c.open_url(0, Txid(1), Txid(1), 0, 100),
        "http://h:1/p/ltx/0/0000000000000001-0000000000000001.ltx?offset=0&size=100"
    );
}
