use liters::cancel::CancelToken;
use liters::copy::Uncancelled;
use liters::io::{Bytes, ErrorKind, IoError, Source};
use liters::mount::parse_level;
use liters::server::{
    drain_body, has_body, normalize_base, parse_request_line, reason, response_head,
    write_bytes_response, write_reader_response, HttpServerOptions, DRAIN_LIMIT,
};

#[test]
fn base_path_normalization() {
    for spec in [None, Some(""), Some("/"), Some("///")] {
        assert!(normalize_base(spec).is_empty(), "{spec:?}");
    }
    for spec in ["/db", "db", "/db/", "db/"] {
        assert_eq!(normalize_base(Some(spec)), ["db"], "{spec:?}");
    }
    for spec in ["/a/b/c", "a/b/c/", "/a//b/c//"] {
        assert_eq!(normalize_base(Some(spec)), ["a", "b", "c"], "{spec:?}");
    }
}

#[test]
fn request_lines_split_into_method_path_and_query() {
    assert_eq!(
        parse_request_line("GET /ltx/0?seek=1 HTTP/1.1"),
        Some(("GET".to_string(), "/ltx/0".to_string(), "seek=1".to_string()))
    );
    assert_eq!(
        parse_request_line("GET / HTTP/1.1"),
        Some(("GET".to_string(), "/".to_string(), String::new()))
    );
    assert_eq!(parse_request_line("GET"), None);
    assert_eq!(parse_request_line(""), None);
}

#[test]
fn bodies_are_declared_by_length_or_chunking() {
    let h = |n: &str, v: &str| vec![(n.to_string(), v.to_string())];
    assert!(has_body(&h("transfer-encoding", "Chunked")));
    assert!(has_body(&h("content-length", "3")));
    assert!(!has_body(&h("content-length", "0")));
    assert!(!has_body(&h("content-length", "x")));
    assert!(!has_body(&[]));
}

#[test]
fn responses_carry_the_protocol_header() {
    assert_eq!(reason(200), "OK");
    assert_eq!(reason(409), "Conflict");
    let head = response_head(200, &[], Some(3));
    assert!(head.starts_with("HTTP/1.1 200 OK\r\n"), "{head}");
    assert!(head.contains("x-liters-protocol: 1\r\n"), "{head}");
    assert!(head.contains("content-length: 3\r\n"), "{head}");
    assert!(head.ends_with("\r\n\r\n"), "{head}");
}

#[test]
fn servers_are_read_only_by_default() {
    let o = HttpServerOptions::default();
    assert!(!o.writable);
    assert!(!o.mount_options().writable);
    assert_eq!(o.mount_options().lease_ttl.nanos, 86_400 * 1_000_000_000);
}

#[test]
fn levels_are_single_digits() {
    assert_eq!(parse_level("0"), Some(0));
    assert_eq!(parse_level("9"), Some(9));
    for s in ["", "00", "10", "a", "-1", "+1"] {
        assert_eq!(parse_level(s), None, "{s:?}");
    }
}

#[test]
fn responses_are_framed() {
    let headers = vec![("content-type".to_string(), "text/plain".to_string())];
    let mut out: Vec<u8> = Vec::new();
    write_bytes_response(200, &headers, &b"ok\n".to_vec(), &mut out).unwrap();
    let text = String::from_utf8(out).unwrap();
    assert!(text.starts_with("HTTP/1.1 200 OK\r\nx-liters-protocol: 1\r\n"), "{text:?}");
    assert!(text.ends_with("content-length: 3\r\n\r\nok\n"), "{text:?}");

    let mut body = Bytes::new(b"bytes".to_vec());
    let mut out: Vec<u8> = Vec::new();
    write_reader_response(200, &headers, &mut body, &mut out, &Uncancelled).unwrap();
    let text = String::from_utf8(out).unwrap();
    assert!(
        text.ends_with("transfer-encoding: chunked\r\n\r\n5\r\nbytes\r\n0\r\n\r\n"),
        "{text:?}"
    );

    let stop = CancelToken::new();
    stop.cancel();
    let mut body = Bytes::new(b"bytes".to_vec());
    let mut out: Vec<u8> = Vec::new();
    let e = write_reader_response(200, &headers, &mut body, &mut out, &stop).unwrap_err();
    assert_eq!(e.message, "server shutting down");
    assert!(out.ends_with(b"\r\n\r\n") && !out.ends_with(b"0\r\n\r\n"));

    // A source that fails leaves the body without its terminator.
    let mut out: Vec<u8> = Vec::new();
    let e = write_reader_response(200, &headers, &mut Torn(true), &mut out, &Uncancelled);
    assert_eq!(e.unwrap_err().message, "torn");
    let text = String::from_utf8(out).unwrap();
    assert!(text.ends_with("\r\n\r\n3\r\nabc\r\n"), "{text:?}");
}

/// Yields three bytes, and then fails.
struct Torn(bool);

impl Source for Torn {
    fn read(&mut self, buf: &mut [u8]) -> Result<usize, IoError> {
        if std::mem::take(&mut self.0) {
            buf[..3].copy_from_slice(b"abc");
            return Ok(3);
        }
        Err(IoError::new(ErrorKind::Other, "torn"))
    }
}

#[test]
fn unread_bodies_are_drained_up_to_a_bound() {
    let mut body = Bytes::new(vec![0; 10_000]);
    assert_eq!(drain_body(&mut body), 10_000);
    assert_eq!(body.read(&mut [0; 8]).unwrap(), 0);
    assert_eq!(drain_body(&mut Torn(true)), 3);
    let mut body = Bytes::new(vec![0; DRAIN_LIMIT as usize + 100_000]);
    let n = drain_body(&mut body);
    assert!(n >= DRAIN_LIMIT && n < DRAIN_LIMIT + 8192);
}
