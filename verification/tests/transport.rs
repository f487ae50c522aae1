use liters::error::StorageError;
use liters::exchange::{
    head_failure, ConnectSweep, Exchange, ExchangeAction, SweepAction,
};
use liters::cancel::CancelToken;
use liters::copy::{AlreadyCancelled, Uncancelled};
use liters::io::{Bytes, ErrorKind, IoError, Source};
use liters::stream::StoppedClock;
use liters::time::{pause_step, Pause, Span};
use liters::transport::{
    body_outcome, judge_write, parse_http_url, parse_status, read_outcome, request_head, upload,
    write_full, BodyRead, Connection, StdNetTransport, WriteVerdict,
};

#[test]
fn url_parsing() {
    assert_eq!(
        parse_http_url("http://example.com:8080/some/base/ltx/0?seek=1").unwrap(),
        ("example.com".into(), 8080, "/some/base/ltx/0?seek=1".into())
    );
    assert_eq!(
        parse_http_url("http://10.0.0.1:9999").unwrap(),
        ("10.0.0.1".into(), 9999, "/".into())
    );
    assert_eq!(parse_http_url("http://[::1]:8080/x").unwrap(), ("::1".into(), 8080, "/x".into()));
    assert_eq!(parse_http_url("http://localhost/").unwrap(), ("localhost".into(), 80, "/".into()));

    assert!(parse_http_url("https://example.com").is_err());
    assert!(parse_http_url("file:///tmp/x").is_err());
    assert!(parse_http_url("http://host:notaport").is_err());
}

#[test]
fn status_lines_state_a_status() {
    assert_eq!(parse_status("HTTP/1.1 404 Not Found").unwrap(), 404);
    let e = parse_status("HTTP/1.1").unwrap_err();
    assert_eq!(e.message(), "bad status line \"HTTP/1.1\"");
    assert!(parse_status("HTTP/1.1 70000").is_err());
}

#[test]
fn request_heads_end_in_an_empty_line() {
    let h = vec![("authorization".to_string(), "Bearer x".to_string())];
    assert_eq!(
        request_head("GET", "/a?b", "host", 80, &h, false),
        "GET /a?b HTTP/1.1\r\nhost: host:80\r\nauthorization: Bearer x\r\nconnection: close\r\n\r\n"
    );
    assert_eq!(
        request_head("PUT", "/a", "host", 80, &[], true),
        "PUT /a HTTP/1.1\r\nhost: host:80\r\ntransfer-encoding: chunked\r\nconnection: close\r\n\r\n"
    );
}

fn refused() -> Result<(), IoError> {
    Err(IoError::new(ErrorKind::ConnectionRefused, "refused"))
}

#[test]
fn connect_sweep_checks_cancel_between_addresses() {
    // Live token: the sweep runs to exhaustion and reports transport failure.
    let (s, a) = ConnectSweep::new("127.0.0.1", 1, 2, false);
    assert!(matches!(a, SweepAction::Dial(0)));
    let (s, a) = s.step(refused(), false);
    assert!(matches!(a, SweepAction::Dial(1)));
    let (_, a) = s.step(refused(), false);
    match a {
        SweepAction::Finish(Err(StorageError::Unavailable(m))) => {
            assert_eq!(m, "connect 127.0.0.1:1: refused")
        }
        other => panic!("live token: {other:?}"),
    }

    // Cancelled token: the sweep must not dial through the address list.
    let (_, a) = ConnectSweep::new("127.0.0.1", 1, 2, true);
    assert!(matches!(a, SweepAction::Finish(Err(StorageError::Cancelled))), "{a:?}");
    let (s, _) = ConnectSweep::new("127.0.0.1", 1, 2, false);
    let (_, a) = s.step(refused(), true);
    assert!(matches!(a, SweepAction::Finish(Err(StorageError::Cancelled))), "{a:?}");
}

#[test]
fn a_host_without_addresses_is_unavailable() {
    let (_, a) = ConnectSweep::new("nowhere", 80, 0, false);
    match a {
        SweepAction::Finish(Err(StorageError::Unavailable(m))) => {
            assert_eq!(m, "no addresses for nowhere:80")
        }
        other => panic!("{other:?}"),
    }
}

#[test]
fn an_early_answer_counts() {
    let broken = || StorageError::Unavailable("write: broken pipe".into());
    let (x, _) = Exchange::new(true);
    let (x, a) = x.step(Ok(()));
    assert!(matches!(a, ExchangeAction::Send));
    let (x, a) = x.step(Err(broken()));
    assert!(matches!(a, ExchangeAction::ReadHead));
    let (_, a) = x.step(Ok(()));
    assert!(matches!(a, ExchangeAction::Finish(Ok(()))));

    let (x, _) = Exchange::new(true);
    let (x, _) = x.step(Ok(()));
    let (x, _) = x.step(Err(broken()));
    let (_, a) = x.step(Err(StorageError::Unavailable("read response: eof".into())));
    match a {
        ExchangeAction::Finish(Err(e)) => {
            assert_eq!(e.message(), "storage unavailable: write: broken pipe")
        }
        other => panic!("{other:?}"),
    }

    let (x, _) = Exchange::new(true);
    let (x, _) = x.step(Ok(()));
    let (_, a) = x.step(Err(StorageError::Cancelled));
    assert!(matches!(a, ExchangeAction::Finish(Err(StorageError::Cancelled))));
}

#[test]
fn a_failed_head_is_transient_unless_cancelled() {
    let e = IoError::new(ErrorKind::TimedOut, "timed out");
    assert_eq!(head_failure(&e, false).message(), "storage unavailable: read response: timed out");
    assert!(matches!(head_failure(&e, true), StorageError::Cancelled));
}

fn quiet() -> IoError {
    IoError::new(ErrorKind::WouldBlock, "would block")
}

#[test]
fn quiet_bodies_are_idle_only_when_long_lived() {
    assert_eq!(body_outcome(Ok(0), true).unwrap(), BodyRead::Eof);
    assert_eq!(body_outcome(Ok(3), false).unwrap(), BodyRead::Bytes(3));
    assert_eq!(body_outcome(Err(quiet()), true).unwrap(), BodyRead::Idle);
    assert!(body_outcome(Err(quiet()), false).is_err());
    let reset = IoError::new(ErrorKind::ConnectionReset, "reset");
    assert!(body_outcome(Err(reset), true).is_err());
    assert_eq!(read_outcome(Ok(BodyRead::Bytes(3))).unwrap(), 3);
    assert_eq!(read_outcome(Ok(BodyRead::Eof)).unwrap(), 0);
    let e = read_outcome(Ok(BodyRead::Idle)).unwrap_err();
    assert_eq!((e.kind, e.message.as_str()), (ErrorKind::WouldBlock, "idle tick"));
}

#[test]
fn writes_tick_at_least_every_two_seconds() {
    let t = StdNetTransport::new(Span::from_secs(10), Span::from_secs(30));
    assert_eq!(t.write_tick(), Span::from_secs(2));
    let t = StdNetTransport::new(Span::from_secs(10), Span::from_millis(500));
    assert_eq!(t.write_tick(), Span::from_millis(500));
}

/// Takes three bytes at a time, and nothing on every other call.
struct Slow {
    taken: Vec<u8>,
    ready: bool,
}

impl Connection for Slow {
    fn write(&mut self, data: &[u8]) -> Result<usize, IoError> {
        self.ready = !self.ready;
        if !self.ready {
            return Err(quiet());
        }
        let n = data.len().min(3);
        self.taken.extend_from_slice(&data[..n]);
        Ok(n)
    }
}

#[test]
fn a_slow_uplink_is_not_a_stalled_one() {
    let mut conn = Slow { taken: Vec::new(), ready: true };
    let span = Span::from_secs(30);
    write_full(&mut conn, b"twelve bytes", &Uncancelled, &StoppedClock(5), span).unwrap();
    assert_eq!(conn.taken, b"twelve bytes");

    let mut conn = Slow { taken: Vec::new(), ready: true };
    let none = Span::from_secs(0);
    let e = write_full(&mut conn, b"x", &Uncancelled, &StoppedClock(5), none).unwrap_err();
    assert_eq!(e.message(), "storage unavailable: write stalled: no progress for 0s");

    let cancel = CancelToken::new();
    cancel.cancel();
    let r = write_full(&mut conn, b"x", &cancel, &StoppedClock(5), span);
    assert!(matches!(r, Err(StorageError::Cancelled)));
}

#[test]
fn uploads_are_chunked() {
    let mut out: Vec<u8> = Vec::new();
    let mut body = Bytes::new(b"hello".to_vec());
    let span = Span::from_secs(30);
    upload(&mut out, "HEAD\r\n\r\n", &mut body, &Uncancelled, &StoppedClock(0), span).unwrap();
    assert_eq!(out, b"HEAD\r\n\r\n5\r\nhello\r\n0\r\n\r\n");
}

/// Yields three bytes, and then fails.
struct Torn(bool);

impl Source for Torn {
    fn read(&mut self, buf: &mut [u8]) -> Result<usize, IoError> {
        if std::mem::take(&mut self.0) {
            buf[..3].copy_from_slice(b"abc");
            return Ok(3);
        }
        Err(IoError::new(ErrorKind::Other, "torn"))
    }
}

#[test]
fn a_failed_upload_stays_without_its_terminator() {
    let mut out: Vec<u8> = Vec::new();
    let span = Span::from_secs(30);
    let r = upload(&mut out, "HEAD\r\n\r\n", &mut Torn(true), &Uncancelled, &StoppedClock(0), span);
    assert!(matches!(r, Err(StorageError::Io(e)) if e.message == "torn"));
    assert_eq!(out, b"HEAD\r\n\r\n3\r\nabc\r\n");

    let mut out: Vec<u8> = Vec::new();
    let r = upload(&mut out, "HEAD", &mut Torn(true), &AlreadyCancelled, &StoppedClock(0), span);
    assert!(matches!(r, Err(StorageError::Cancelled)));
    assert!(out.is_empty());
}

#[test]
fn failed_writes_are_judged() {
    let (long, short) = (Span::from_secs(30), Span::from_secs(1));
    let fail = |kind| IoError::new(kind, "reset");
    let timeout = fail(ErrorKind::TimedOut);
    assert!(matches!(judge_write(&timeout, short, long, true), WriteVerdict::Retry));
    match judge_write(&timeout, long, long, false) {
        WriteVerdict::Fail(e) => {
            assert_eq!(e.message(), "storage unavailable: write stalled: no progress for 30s")
        }
        other => panic!("{other:?}"),
    }
    let again = judge_write(&fail(ErrorKind::Interrupted), long, short, true);
    assert!(matches!(again, WriteVerdict::Retry));
    match judge_write(&fail(ErrorKind::Other), short, long, false) {
        WriteVerdict::Fail(e) => assert_eq!(e.message(), "storage unavailable: write: reset"),
        other => panic!("{other:?}"),
    }
    assert!(matches!(
        judge_write(&fail(ErrorKind::Other), short, long, true),
        WriteVerdict::Fail(StorageError::Cancelled)
    ));
}

#[test]
fn waits_notice_a_cancellation() {
    assert_eq!(pause_step(true, Span::from_secs(9)), Pause::Cancelled);
    assert_eq!(pause_step(false, Span::from_secs(0)), Pause::Over);
    assert_eq!(pause_step(false, Span::from_millis(7)), Pause::Sleep(Span::from_millis(7)));
    assert_eq!(pause_step(false, Span::from_secs(9)), Pause::Sleep(Span::from_millis(100)));
}
