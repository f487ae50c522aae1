//! A bucket in memory, served by the library's decisions: routing, fencing,
//! accepting pushes and deletions, and feeding followers.
use liters::cancel::CancelToken;
use liters::copy::{send_ltx_frame, spool_put_body, stored_matches_spool};
use liters::error::StorageError;
use liters::feed::{Feed, FeedAction, FeedEvent};
use liters::fence::{
    bucket_max, check_fence, commit_lease, AcceptFile, FenceListing, FencePass, FenceReject,
    PutAction, PutEvent, PutTarget, WriterLease,
};
use liters::io::{Bytes, ErrorKind, IoError, Source};
use liters::listing::parse_listing;
use liters::ltx::{format_filename, FileInfo, Txid};
use liters::mount::{
    listing_reply, open_reply, stream_reply, version_line, Body, MountOptions, Response, Route,
};
use liters::remove::{RemoveAction, RemoveEvent, RemoveRun};
use liters::client::{open_answer, HttpReplicaClient, OpenAnswer};
use liters::s3::{read_range, ReadRange};
use liters::server::{parse_request_line, route, write_bytes_response, ExactLen, ServerRoute};
use liters::storage::StreamEvent;
use liters::stream::{check_silence, parse_frame_line, Clock, HttpLtxStream, HttpStreamState};
use liters::time::Span;
use liters::wire::ChunkedReader;

/// A valid file for this bucket: a header of 100 bytes, then filler.
fn ltx_bytes_with(body_len: usize, seed: u8) -> Vec<u8> {
    let mut v = b"LTX1".to_vec();
    v.resize(100, 0);
    v.extend((0..body_len).map(|i| (i as u8).wrapping_mul(31).wrapping_add(seed)));
    v
}

fn ltx_bytes(min: u64, body_len: usize) -> Vec<u8> {
    ltx_bytes_with(body_len, min as u8)
}

struct Bucket {
    files: Vec<(FileInfo, Vec<u8>)>,
    lease: Option<WriterLease>,
    opts: MountOptions,
    now: u128,
}

type Headers = Vec<(String, String)>;

fn h(pairs: &[(&str, &str)]) -> Headers {
    pairs.iter().map(|(n, v)| (n.to_string(), v.to_string())).collect()
}

fn writer(id: &str) -> Headers {
    h(&[("x-liters-writer-id", id)])
}

fn takeover(id: &str) -> Headers {
    h(&[("x-liters-writer-id", id), ("x-liters-writer-takeover", "1")])
}

impl Bucket {
    fn new(writable: bool) -> Bucket {
        Bucket {
            files: Vec::new(),
            lease: None,
            opts: MountOptions { writable, ..MountOptions::default() },
            now: 0,
        }
    }

    fn list(&self, level: u8, seek: Txid) -> Vec<FileInfo> {
        let mut v: Vec<FileInfo> = self
            .files
            .iter()
            .map(|(f, _)| *f)
            .filter(|f| f.level == level && f.min_txid.0 >= seek.0)
            .collect();
        v.sort_by_key(|f| (f.min_txid.0, f.max_txid.0));
        v
    }

    fn max(&self) -> Txid {
        bucket_max(&(0..=9).map(|l| self.list(l, Txid(0))).collect())
    }

    fn get(&self, level: u8, min: Txid, max: Txid) -> Option<&Vec<u8>> {
        self.files
            .iter()
            .find(|(f, _)| f.level == level && f.min_txid == min && f.max_txid == max)
            .map(|(_, b)| b)
    }

    fn put(&mut self, level: u8, min: u64, max: u64, bytes: Vec<u8>) -> FileInfo {
        let f = FileInfo {
            level,
            min_txid: Txid(min),
            max_txid: Txid(max),
            size: bytes.len() as u64,
            created_at: Some(1_783_800_000_123 * 1_000_000),
        };
        self.files.retain(|(g, _)| {
            !(g.level == level && g.min_txid == f.min_txid && g.max_txid == f.max_txid)
        });
        self.files.push((f, bytes));
        f
    }

    fn fence(&self, headers: &Headers, put: Option<PutTarget>) -> Result<FencePass, FenceReject> {
        let listing = match put {
            None => FenceListing::Unneeded,
            Some(p) if p.level == 0 => FenceListing::L0(Ok(self.list(0, Txid(0)))),
            Some(_) => FenceListing::Bucket(Ok(self.max())),
        };
        check_fence(&self.lease, self.opts.lease_ttl, self.now, headers, put, listing)
    }

    fn accept<R: Source>(&mut self, target: PutTarget, headers: &Headers, body: &mut R) -> Response {
        let (mut run, mut action) = AcceptFile::new(target);
        let mut spool: Vec<u8> = Vec::new();
        loop {
            let ev = match action {
                PutAction::CheckFence | PutAction::LockAndCheckFence => {
                    PutEvent::Fenced(self.fence(headers, Some(target)))
                }
                PutAction::Spool => PutEvent::Spooled(spool_put_body(body, &mut spool)),
                PutAction::Compare(f) => {
                    let stored = self.get(f.level, f.min_txid, f.max_txid).unwrap().clone();
                    let same =
                        stored_matches_spool(&mut Bytes::new(stored), &mut Bytes::new(spool.clone()));
                    PutEvent::Compared(same.map_err(StorageError::Io))
                }
                PutAction::Write => PutEvent::Written(if spool.starts_with(b"LTX1") {
                    Ok(self.put(target.level, target.min_txid.0, target.max_txid.0, spool.clone()))
                } else {
                    Err(StorageError::Ltx("bad magic".into()))
                }),
                PutAction::Accept(claim, r) => {
                    commit_lease(&mut self.lease, claim, self.now);
                    return r;
                }
                PutAction::Reply(r) => return r,
            };
            let (r, a) = run.step(ev);
            run = r;
            action = a;
        }
    }

    fn remove(&mut self, headers: &Headers, target: Option<PutTarget>) -> Response {
        let (mut run, mut action) = RemoveRun::new(target.is_none());
        loop {
            let ev = match action {
                RemoveAction::LockAndCheckFence => RemoveEvent::Fenced(self.fence(headers, None)),
                RemoveAction::Delete => {
                    match target {
                        None => self.files.clear(),
                        Some(t) => self.files.retain(|(f, _)| {
                            !(f.level == t.level
                                && f.min_txid == t.min_txid
                                && f.max_txid == t.max_txid)
                        }),
                    }
                    RemoveEvent::Deleted(Ok(()))
                }
                RemoveAction::Accept(claim, r) => {
                    commit_lease(&mut self.lease, claim, self.now);
                    return r;
                }
                RemoveAction::Reply(r) => return r,
            };
            let (r, a) = run.step(ev);
            run = r;
            action = a;
        }
    }

    fn handle(&mut self, method: &str, path: &str, query: &str, headers: &Headers, body: &[u8]) -> Response {
        match self.opts.route(method, path, query, headers) {
            Route::Text(status, text) => Response::text(status, &text),
            Route::List { level, seek, .. } => listing_reply(Ok(self.list(level, seek))),
            Route::File { level, min_txid, max_txid, .. } => {
                open_reply(match self.get(level, min_txid, max_txid) {
                    Some(_) => Ok(()),
                    None => Err(StorageError::NotFound { level, min_txid, max_txid }),
                })
            }
            Route::Stream { .. } => stream_reply(),
            Route::Put { level, min_txid, max_txid } => {
                let target = PutTarget { level, min_txid, max_txid };
                self.accept(target, headers, &mut Bytes::new(body.to_vec()))
            }
            Route::Delete { level, min_txid, max_txid } => {
                self.remove(headers, Some(PutTarget { level, min_txid, max_txid }))
            }
            Route::DeleteAll => self.remove(headers, None),
        }
    }

    fn push_bytes(&mut self, headers: &Headers, level: u8, min: u64, max: u64, bytes: &[u8]) -> (u16, String) {
        let path = format!("ltx/{level}/{}", format_filename(Txid(min), Txid(max)));
        text(self.handle("PUT", &path, "", headers, bytes))
    }

    fn push(&mut self, headers: &Headers, level: u8, min: u64, max: u64) -> (u16, String) {
        self.push_bytes(headers, level, min, max, &ltx_bytes(min, 200))
    }
}

fn text(r: Response) -> (u16, String) {
    match r.body {
        Body::Bytes(b) => (r.status, String::from_utf8(b).unwrap()),
        _ => (r.status, String::new()),
    }
}

#[test]
fn auth_gates_every_route_class() {
    let mut b = Bucket::new(true);
    b.opts.auth_token = Some("sekrit".into());
    let name = format_filename(Txid(1), Txid(1));
    let file = format!("ltx/0/{name}");
    let routes = [
        ("GET", "ltx/0", ""),
        ("GET", file.as_str(), ""),
        ("GET", "stream", "seek=0000000000000001"),
        ("PUT", file.as_str(), ""),
        ("DELETE", file.as_str(), ""),
        ("DELETE", "all", ""),
        ("GET", "", ""),
        ("GET", "nowhere", ""),
        ("POST", "ltx/0", ""),
    ];
    for bad in [h(&[]), h(&[("authorization", "Bearer wrong")]), h(&[("authorization", "sekrit")])] {
        for (m, p, q) in routes {
            let (status, body) = text(b.handle(m, p, q, &bad, b""));
            assert_eq!(status, 401, "{m} {p}");
            assert_eq!(body, "authorization required\n");
        }
    }

    let good = h(&[("authorization", "bearer sekrit")]);
    assert_eq!(b.push(&good, 0, 1, 1).0, 200);
    assert_eq!(text(b.handle("GET", "ltx/0", "", &good, b"")).1.lines().count(), 1);
    assert_eq!(b.handle("GET", &file, "", &good, b"").status, 200);
    let r = b.handle("GET", "stream", "seek=0000000000000001", &good, b"");
    assert_eq!(r.status, 200);
    assert!(matches!(r.body, Body::Stream));
    assert_eq!(text(b.handle("DELETE", &file, "", &good, b"")), (200, "deleted\n".into()));
    assert_eq!(text(b.handle("DELETE", "all", "", &good, b"")), (200, "deleted\n".into()));

    // The bare root stays open: the server answers it before the mount.
    assert!(matches!(route(&Vec::new(), "GET", "/", &h(&[])), ServerRoute::Health));
}

#[test]
fn fencing_monotonicity_rules() {
    let mut b = Bucket::new(true);
    let plain = h(&[]);

    assert_eq!(b.push(&plain, 0, 1, 1).0, 200);
    assert_eq!(b.push(&plain, 0, 2, 3).0, 200);
    let (status, msg) = b.push(&plain, 0, 5, 5);
    assert_eq!(status, 409);
    assert!(msg.contains("non-monotonic"), "gap message: {msg}");
    assert!(
        msg.contains("0000000000000005-0000000000000005") && msg.contains("0000000000000003"),
        "L0 message must carry the offered range and bucket position: {msg}"
    );
    assert_eq!(b.push(&plain, 0, 3, 3).0, 409);
    assert_eq!(b.push(&plain, 0, 2, 3).0, 200);
    assert_eq!(b.push(&plain, 0, 4, 4).0, 200);

    assert_eq!(b.push(&plain, 1, 1, 3).0, 200);
    assert_eq!(b.push(&plain, 1, 1, 3).0, 200);
    assert_eq!(b.push(&plain, 9, 1, 4).0, 200);
    let (status, msg) = b.push(&plain, 1, 1, 9);
    assert_eq!(status, 409);
    assert!(msg.contains("beyond bucket max"), "L1 message: {msg}");
    assert!(
        msg.contains("0000000000000001-0000000000000009") && msg.contains("0000000000000004"),
        "L1 message must carry the offered range and bucket max: {msg}"
    );
    assert!(msg.contains("L0 backlog"), "L1 message must state the ordering contract: {msg}");
}

#[test]
fn l0_repush_requires_identical_content() {
    let mut b = Bucket::new(true);
    let plain = h(&[]);
    let original = ltx_bytes(1, 300);
    assert_eq!(b.push_bytes(&plain, 0, 1, 1, &original).0, 200);
    assert_eq!(b.push_bytes(&plain, 0, 1, 1, &original).0, 200);

    let same_len = ltx_bytes_with(300, 0x99);
    assert_ne!(same_len, original);
    let (status, msg) = b.push_bytes(&plain, 0, 1, 1, &same_len);
    assert_eq!(status, 409);
    assert!(msg.contains("does not match"), "message: {msg}");

    let longer = ltx_bytes(1, 301);
    assert_eq!(b.push_bytes(&plain, 0, 1, 1, &longer).0, 409);

    assert_eq!(b.get(0, Txid(1), Txid(1)).unwrap(), &original);
}

#[test]
fn fencing_writer_lease() {
    let mut b = Bucket::new(true);
    assert_eq!(b.push(&writer("aaa"), 0, 1, 1).0, 200);

    let (status, msg) = b.push(&writer("bbb"), 0, 2, 2);
    assert_eq!(status, 409);
    assert!(msg.contains("owned by writer aaa"), "lease message: {msg}");
    let file = format!("ltx/0/{}", format_filename(Txid(1), Txid(1)));
    assert_eq!(b.handle("DELETE", &file, "", &writer("bbb"), b"").status, 409);
    assert_eq!(b.handle("DELETE", "all", "", &writer("bbb"), b"").status, 409);

    assert_eq!(b.push(&h(&[]), 0, 2, 2).0, 200);
    assert_eq!(b.push(&h(&[]), 0, 9, 9).0, 409);

    assert_eq!(b.push(&takeover("bbb"), 0, 3, 3).0, 200);
    let (_, msg) = b.push(&writer("aaa"), 0, 4, 4);
    assert!(msg.contains("owned by writer bbb"), "flipped lease: {msg}");
    assert_eq!(b.push(&writer("bbb"), 0, 4, 4).0, 200);
}

#[test]
fn fencing_lease_expires_after_ttl() {
    let mut b = Bucket::new(true);
    b.opts.lease_ttl = Span::from_millis(250);
    assert_eq!(b.push(&writer("aaa"), 0, 1, 1).0, 200);
    b.now = Span::from_millis(249).nanos;
    assert_eq!(b.push(&writer("bbb"), 0, 2, 2).0, 409);
    b.now = Span::from_millis(250).nanos;
    assert_eq!(b.push(&writer("bbb"), 0, 2, 2).0, 200);
}

#[test]
fn rejected_push_never_claims_lease() {
    let mut b = Bucket::new(true);
    assert_eq!(b.push(&h(&[]), 0, 1, 1).0, 200);
    assert_eq!(b.push(&writer("stale"), 0, 9, 9).0, 409);
    assert_eq!(b.push(&writer("good"), 0, 2, 2).0, 200);
    let (_, msg) = b.push(&writer("stale"), 0, 9, 9);
    assert!(msg.contains("owned by writer good"), "lease reveal: {msg}");
    assert_eq!(b.push(&writer("good"), 0, 3, 3).0, 200);
}

#[test]
fn rejected_pushes_do_not_refresh_lease_ttl() {
    let mut b = Bucket::new(true);
    b.opts.lease_ttl = Span::from_millis(300);
    assert_eq!(b.push(&writer("aaa"), 0, 1, 1).0, 200);
    for i in 1..=14u64 {
        b.now = Span::from_millis(50 * i).nanos;
        assert_eq!(b.push(&writer("aaa"), 0, 9, 9).0, 409);
    }
    assert_eq!(b.push(&writer("bbb"), 0, 2, 2).0, 200);
}

#[test]
fn read_only_server_rejects_writes() {
    let mut b = Bucket::new(false);
    let (status, msg) = b.push(&h(&[]), 0, 1, 1);
    assert_eq!(status, 403);
    assert!(msg.contains("read-only"), "unexpected error: {msg}");
    let file = format!("ltx/0/{}", format_filename(Txid(1), Txid(1)));
    assert_eq!(b.handle("DELETE", &file, "", &h(&[]), b"").status, 403);
    assert_eq!(b.handle("DELETE", "all", "", &h(&[]), b"").status, 403);
    assert!(b.list(0, Txid(0)).is_empty());
}

#[test]
fn push_with_garbage_header_rejected() {
    let mut b = Bucket::new(true);
    let (status, msg) = b.push_bytes(&h(&[]), 0, 1, 1, &[9u8; 300]);
    assert_eq!((status, msg.as_str()), (400, "bad ltx file: bad magic\n"));
    assert!(b.list(0, Txid(0)).is_empty());
}

#[test]
fn push_roundtrip_matches_dir_backend() {
    let mut b = Bucket::new(true);
    let bytes = ltx_bytes(1, 500);
    let (status, body) = b.push_bytes(&h(&[]), 0, 1, 1, &bytes);
    assert_eq!(status, 200);
    let info = liters::client::read_put_reply(0, &body).unwrap();
    assert_eq!((info.level, info.min_txid, info.max_txid), (0, Txid(1), Txid(1)));
    assert_eq!(info.size, bytes.len() as u64);
    assert_eq!(info.created_at, Some(1_783_800_000_123 * 1_000_000));
    assert_eq!(b.list(0, Txid(0)).len(), 1);
    assert_eq!(b.push_bytes(&h(&[]), 0, 1, 1, &bytes).0, 200);
    assert_eq!(b.list(0, Txid(0)).len(), 1);
    let file = format!("ltx/0/{}", format_filename(Txid(1), Txid(1)));
    assert_eq!(b.handle("DELETE", &file, "", &h(&[]), b"").status, 200);
    assert!(b.list(0, Txid(0)).is_empty());
    assert_eq!(b.handle("DELETE", &file, "", &h(&[]), b"").status, 200);
    assert_eq!(b.push(&h(&[]), 0, 2, 2).0, 200);
    assert_eq!(b.push(&h(&[]), 9, 1, 2).0, 200);
    assert_eq!(b.handle("DELETE", "all", "", &h(&[]), b"").status, 200);
    assert!(b.list(0, Txid(0)).is_empty() && b.list(9, Txid(0)).is_empty());
}

#[test]
fn listing_matches_dir_backend() {
    let mut b = Bucket::new(false);
    b.put(0, 1, 1, ltx_bytes(1, 0));
    b.put(0, 2, 2, ltx_bytes(2, 157));
    b.put(0, 3, 4, ltx_bytes(3, 7));
    b.put(1, 1, 4, ltx_bytes(4, 924));
    b.put(9, 1, 4, ltx_bytes(5, 3996));
    for (level, seek) in [(0u8, 0u64), (0, 2), (1, 0), (9, 0), (0, 99), (5, 0)] {
        let want = b.list(level, Txid(seek));
        let q = format!("seek={}", Txid(seek).text());
        let (status, body) = text(b.handle("GET", &format!("ltx/{level}"), &q, &h(&[]), b""));
        assert_eq!(status, 200);
        assert_eq!(parse_listing(&body, level), want, "level {level} seek {seek}");
    }
    let seeked = b.list(0, Txid(2));
    assert_eq!(
        seeked.iter().map(|f| (f.min_txid.0, f.max_txid.0)).collect::<Vec<_>>(),
        vec![(2, 2), (3, 4)]
    );
    assert_eq!(b.handle("GET", "ltx/0", "meta=1", &h(&[]), b"").status, 200);
    assert_eq!(b.handle("GET", "ltx/0", "seek=bad", &h(&[]), b"").status, 400);
    assert_eq!(b.handle("GET", "ltx/12", "", &h(&[]), b"").status, 404);
    assert_eq!(b.handle("GET", "ltx/x", "", &h(&[]), b"").status, 404);
}

#[test]
fn bad_requests_are_told_apart() {
    let mut b = Bucket::new(true);
    let name = format_filename(Txid(1), Txid(1));
    assert_eq!(b.handle("GET", &format!("ltx/0/{name}"), "", &h(&[]), b"").status, 404);
    assert_eq!(b.handle("GET", "ltx/0/junk", "", &h(&[]), b"").status, 404);
    assert_eq!(b.handle("GET", &format!("ltx/0/{name}"), "offset=x", &h(&[]), b"").status, 400);
    assert_eq!(b.handle("GET", "stream", "", &h(&[]), b"").status, 400);
    assert_eq!(b.handle("GET", "stream", "seek=0000000000000000", &h(&[]), b"").status, 400);
    assert_eq!(b.handle("PATCH", "ltx/0", "", &h(&[]), b"").status, 405);
    assert_eq!(text(b.handle("GET", "", "", &h(&[]), b"")), (200, "liters 0.1.0\n".into()));
}

#[test]
fn truncated_content_length_push_commits_nothing() {
    let mut b = Bucket::new(true);
    let full = ltx_bytes(3, 400);
    let target = PutTarget { level: 0, min_txid: Txid(3), max_txid: Txid(3) };
    let mut cut = ExactLen::new(Bytes::new(full[..250].to_vec()), full.len() as u64);
    let (status, msg) = text(b.accept(target, &h(&[]), &mut Reading(&mut cut)));
    assert_eq!(status, 400, "{msg}");
    assert!(b.list(0, Txid(0)).is_empty());
}

#[test]
fn truncated_push_leaves_no_file() {
    let mut b = Bucket::new(true);
    let full = ltx_bytes(5, 400);
    let mut wire = format!("{:x}\r\n", 150).into_bytes();
    wire.extend_from_slice(&full[..150]);
    wire.extend_from_slice(b"\r\n1f4\r\n");
    wire.extend_from_slice(&full[150..160]);
    let target = PutTarget { level: 0, min_txid: Txid(5), max_txid: Txid(5) };
    let mut body = ChunkedReader::new(Bytes::new(wire));
    let (status, msg) = text(b.accept(target, &h(&[]), &mut Chunks(&mut body)));
    assert_eq!(status, 400, "{msg}");
    assert!(b.list(0, Txid(0)).is_empty());
}

struct Reading<'a>(&'a mut ExactLen<Bytes>);

impl Source for Reading<'_> {
    fn read(&mut self, buf: &mut [u8]) -> Result<usize, IoError> {
        self.0.read(buf)
    }
}

struct Chunks<'a>(&'a mut ChunkedReader<Bytes>);

impl Source for Chunks<'_> {
    fn read(&mut self, buf: &mut [u8]) -> Result<usize, IoError> {
        self.0.read(buf)
    }
}

#[test]
fn prefixes_are_stripped_and_other_paths_refused() {
    let base = vec!["db".to_string()];
    assert!(matches!(route(&base, "GET", "/", &h(&[])), ServerRoute::Health));
    assert!(matches!(route(&base, "GET", "/ltx/0", &h(&[])), ServerRoute::NotFound));
    match route(&base, "GET", "/db/ltx/0", &h(&[])) {
        ServerRoute::Mount(p, None) => assert_eq!(p, "ltx/0"),
        other => panic!("{other:?}"),
    }
    assert!(matches!(route(&base, "PUT", "/db/ltx/0/x", &h(&[])), ServerRoute::LengthRequired));
    assert!(matches!(
        route(&base, "PUT", "/db/ltx/0/x", &h(&[("content-length", "5")])),
        ServerRoute::Mount(_, Some(_))
    ));
}

// ---------------------------------------------------------------------------
// Following

/// Runs a feed over the bucket until it waits with nothing to send, or ends.
/// Returns the bytes sent and whether the feed goes on.
struct Feeder {
    feed: Option<(Feed, FeedAction)>,
    out: Vec<u8>,
    ended: bool,
}

impl Feeder {
    fn new(seek: u64) -> Feeder {
        let poll = Span::from_millis(50);
        let ping = Span::from_millis(200);
        Feeder { feed: Some(Feed::new(Txid(seek), poll, ping)), out: Vec::new(), ended: false }
    }

    fn run(&mut self, b: &Bucket, until: u64) {
        let mut now = Span::from_millis(1000);
        let until = Span::from_millis(1000 + until).nanos;
        let (mut feed, mut action) = self.feed.take().unwrap();
        loop {
            let ev = match action {
                FeedAction::Emit(line, _) => {
                    self.out.extend_from_slice(line.as_bytes());
                    FeedEvent::Emitted(Ok(()))
                }
                FeedAction::QueryBucketMax => FeedEvent::BucketMax(Some(b.max())),
                FeedAction::PollCancel => FeedEvent::Cancelled(false),
                FeedAction::ListL0 => FeedEvent::Listed(Some(b.list(0, Txid(0)))),
                FeedAction::Send(f) => match b.get(0, f.min_txid, f.max_txid) {
                    Some(bytes) => {
                        let mut src = Bytes::new(bytes.clone());
                        let sent = send_ltx_frame(&f, &mut src, &mut self.out, &CancelToken::new());
                        FeedEvent::Sent(sent.map(|_| true))
                    }
                    None => FeedEvent::Sent(Ok(false)),
                },
                FeedAction::Wait(span) => {
                    if now.nanos >= until {
                        self.feed = Some((feed, FeedAction::Wait(span)));
                        return;
                    }
                    now.nanos += span.nanos.max(1);
                    FeedEvent::Waited
                }
                FeedAction::End => {
                    self.ended = true;
                    return;
                }
                FeedAction::Abort(e) => panic!("aborted: {e:?}"),
            };
            let (f, a) = feed.step(ev, now.nanos);
            feed = f;
            action = a;
        }
    }

    fn events(&self) -> Vec<(StreamEvent, Vec<u8>)> {
        read_events(self.out.clone(), self.ended)
    }
}

struct Still;

impl Clock for Still {
    fn now(&self) -> u128 {
        0
    }
}

/// The events of a stream, with the bytes of its files.
fn read_events(bytes: Vec<u8>, ended: bool) -> Vec<(StreamEvent, Vec<u8>)> {
    let n = bytes.len();
    let mut s = HttpLtxStream::new(Bytes::new(bytes), Span::from_secs(45), 0);
    let mut out = Vec::new();
    for _ in 0..=n {
        let mut sink = Vec::new();
        match s.next(&mut sink, &CancelToken::new(), &Still) {
            Ok(StreamEvent::Closed) => {
                if ended {
                    out.push((StreamEvent::Closed, sink));
                }
                return out;
            }
            Ok(ev) => out.push((ev, sink)),
            Err(e) => panic!("{e:?}"),
        }
    }
    panic!("the stream does not end");
}

fn files_of(events: &[(StreamEvent, Vec<u8>)]) -> Vec<(u64, u64)> {
    events
        .iter()
        .filter_map(|(e, _)| match e {
            StreamEvent::Ltx(f) => Some((f.min_txid.0, f.max_txid.0)),
            _ => None,
        })
        .collect()
}

#[test]
fn stream_delivers_files_then_idles() {
    let mut b = Bucket::new(false);
    for t in 1..=3u64 {
        b.put(0, t, t, ltx_bytes(t, 1000 + t as usize * 100));
    }
    let mut f = Feeder::new(1);
    f.run(&b, 0);
    assert_eq!(files_of(&f.events()), [(1, 1), (2, 2), (3, 3)]);
    for (t, (_, body)) in f.events().iter().enumerate().take(3) {
        assert_eq!(body, b.get(0, Txid(t as u64 + 1), Txid(t as u64 + 1)).unwrap());
    }
    b.put(0, 4, 4, ltx_bytes(4, 1400));
    f.run(&b, 100);
    assert_eq!(files_of(&f.events()), [(1, 1), (2, 2), (3, 3), (4, 4)]);
    assert!(!f.ended);
}

#[test]
fn stream_gap_when_seek_pruned() {
    let mut b = Bucket::new(false);
    b.put(0, 5, 5, ltx_bytes(9, 64));
    let mut f = Feeder::new(1);
    f.run(&b, 0);
    let events = f.events();
    assert!(matches!(events[0].0, StreamEvent::Gap { next: Txid(5) }), "{events:?}");
    assert!(matches!(events[1].0, StreamEvent::Closed), "{events:?}");
    assert!(f.ended);
}

#[test]
fn stream_reset_on_divergence() {
    let mut b = Bucket::new(false);
    for t in 1..=3u64 {
        b.put(0, t, t, ltx_bytes(t, 28));
    }
    b.put(1, 1, 2, ltx_bytes(4, 156));
    let mut f = Feeder::new(10);
    f.run(&b, 0);
    assert!(matches!(f.events()[0].0, StreamEvent::Reset { bucket_max: Txid(3) }));

    let mut f = Feeder::new(2);
    f.run(&b, 0);
    assert_eq!(files_of(&f.events()), [(2, 2), (3, 3)]);
    b.files.retain(|(g, _)| !(g.level == 0 && g.min_txid.0 >= 2));
    f.run(&b, 1000);
    let last = f.events();
    assert!(
        last.iter().any(|(e, _)| matches!(e, StreamEvent::Reset { bucket_max: Txid(2) })),
        "{last:?}"
    );
}

#[test]
fn idle_pings_carry_bucket_max() {
    let mut b = Bucket::new(false);
    b.put(0, 1, 1, ltx_bytes(1, 64));
    b.put(0, 2, 3, ltx_bytes(2, 64));
    b.put(1, 1, 2, ltx_bytes(3, 64));
    let mut f = Feeder::new(4);
    f.run(&b, 1000);
    let pings: Vec<Txid> = f
        .events()
        .iter()
        .filter_map(|(e, _)| match e {
            StreamEvent::Idle { bucket_max: Some(m) } => Some(*m),
            _ => None,
        })
        .collect();
    assert!(pings.len() >= 3, "{pings:?}");
    assert!(pings.iter().all(|m| *m == Txid(3)), "pings carried {pings:?}");
}

#[test]
fn frame_line_parsing() {
    match parse_frame_line("ltx 0 0000000000000005 0000000000000005 1234").unwrap() {
        HttpStreamState::Body { info, remaining } => {
            assert_eq!(info.level, 0);
            assert_eq!(info.min_txid, Txid(5));
            assert_eq!(info.max_txid, Txid(5));
            assert_eq!(info.size, 1234);
            assert_eq!(remaining, 1234);
        }
        _ => panic!("expected body state"),
    }
    assert!(parse_frame_line("ltx 0 xyz 0000000000000005 10").is_err());
    assert!(parse_frame_line("ltx 0 0000000000000005 0000000000000005").is_err());
    assert!(parse_frame_line("ltx 0 0000000000000005 0000000000000005 10 extra").is_err());
    assert!(parse_frame_line("frobnicate").is_err());
}

/// Yields pieces, with an idle tick where a piece is missing.
struct Steps(Vec<Option<Vec<u8>>>);

impl Source for Steps {
    fn read(&mut self, buf: &mut [u8]) -> Result<usize, IoError> {
        if buf.is_empty() || self.0.is_empty() {
            return Ok(0);
        }
        match self.0[0].take() {
            None => {
                self.0.remove(0);
                Err(IoError::new(ErrorKind::WouldBlock, "idle tick"))
            }
            Some(mut d) => {
                let n = d.len().min(buf.len());
                buf[..n].copy_from_slice(&d[..n]);
                d.drain(..n);
                if d.is_empty() {
                    self.0.remove(0);
                } else {
                    self.0[0] = Some(d);
                }
                Ok(n)
            }
        }
    }
}

#[test]
fn stream_frames_idle_and_close() {
    let body = b"liters-stream 1\nltx 0 0000000000000001 0000000000000001 5\nhello";
    let src = Steps(vec![
        Some(body.to_vec()),
        None,
        Some(b"ping 0000000000000001\n".to_vec()),
    ]);
    let mut stream = HttpLtxStream::new(src, Span::from_secs(45), 0);
    let token = CancelToken::new();
    let mut sink = Vec::new();
    match stream.next(&mut sink, &token, &Still).unwrap() {
        StreamEvent::Ltx(info) => {
            assert_eq!((info.min_txid, info.max_txid, info.size), (Txid(1), Txid(1), 5));
        }
        e => panic!("expected Ltx, got {e:?}"),
    }
    assert_eq!(sink, b"hello");
    assert_eq!(
        stream.next(&mut sink, &token, &Still).unwrap(),
        StreamEvent::Idle { bucket_max: None }
    );
    assert_eq!(
        stream.next(&mut sink, &token, &Still).unwrap(),
        StreamEvent::Idle { bucket_max: Some(Txid(1)) }
    );
    assert_eq!(stream.next(&mut sink, &token, &Still).unwrap(), StreamEvent::Closed);
}

#[test]
fn timeouts_lose_nothing() {
    let body = b"liters-stream 1\nltx 0 0000000000000001 0000000000000001 5\nhello\
        ping 0000000000000001\ngap 0000000000000007\n";
    let run = |src: Steps| {
        let mut stream = HttpLtxStream::new(src, Span::from_secs(45), 0);
        let mut got = Vec::new();
        loop {
            let mut sink = Vec::new();
            match stream.next(&mut sink, &CancelToken::new(), &Still).unwrap() {
                StreamEvent::Closed => return got,
                StreamEvent::Idle { bucket_max: None } => assert!(sink.is_empty()),
                e => got.push((e, sink)),
            }
        }
    };
    let want = run(Steps(vec![Some(body.to_vec())]));
    assert_eq!(want.len(), 3);
    assert_eq!(want[0].1, b"hello");
    let mut src = Vec::new();
    for b in body {
        src.push(None);
        src.push(Some(vec![*b]));
    }
    assert_eq!(run(Steps(src)), want);
}

#[test]
fn broken_streams_are_refused() {
    let next = |bytes: &[u8]| {
        let mut s = HttpLtxStream::new(Bytes::new(bytes.to_vec()), Span::from_secs(45), 0);
        s.next(&mut Vec::new(), &CancelToken::new(), &Still)
    };
    let e = next(b"bogus-preamble 1\n").unwrap_err();
    assert!(e.message().contains("preamble"), "{}", e.message());
    let e = next(b"liters-stream 1\nping bogus\n").unwrap_err();
    assert!(e.message().contains("ping"), "{}", e.message());
    let mut cut = b"liters-stream 1\nltx 0 0000000000000001 0000000000000001 100\n".to_vec();
    cut.extend_from_slice(&[0xab; 10]);
    assert!(next(&cut).is_err());
}

struct Late;

impl Clock for Late {
    fn now(&self) -> u128 {
        Span::from_secs(46).nanos
    }
}

#[test]
fn a_silent_stream_is_declared_dead() {
    let src = Steps(vec![None, None]);
    let mut stream = HttpLtxStream::new(src, Span::from_secs(45), 0);
    let e = stream.next(&mut Vec::new(), &CancelToken::new(), &Late).unwrap_err();
    assert_eq!(e.message(), "storage unavailable: ltx stream stalled: no data for 45s");
}

#[test]
fn every_byte_breaks_the_silence() {
    // Part of a line comes before each timeout: the stream is alive.
    let src = Steps(vec![Some(b"lit".to_vec()), None, Some(b"ers".to_vec()), None]);
    let mut stream = HttpLtxStream::new(src, Span::from_secs(45), 0);
    for _ in 0..2 {
        assert_eq!(
            stream.next(&mut Vec::new(), &CancelToken::new(), &Late).unwrap(),
            StreamEvent::Idle { bucket_max: None }
        );
    }
}

#[test]
fn silence_counts_from_the_last_byte() {
    let limit = Span::from_secs(45);
    let at = |secs| Span::from_secs(secs).nanos;
    assert!(check_silence(at(10), at(54), limit).is_ok());
    assert!(check_silence(at(10), at(5), limit).is_ok());
    let e = check_silence(at(10), at(55), limit).unwrap_err();
    assert_eq!(e.message(), "storage unavailable: ltx stream stalled: no data for 45s");
}

#[test]
fn a_cancelled_stream_says_so() {
    let token = CancelToken::new();
    token.cancel();
    let mut stream = HttpLtxStream::new(Bytes::new(Vec::new()), Span::from_secs(45), 0);
    assert!(matches!(
        stream.next(&mut Vec::new(), &token, &Still),
        Err(StorageError::Cancelled)
    ));
}

// ---------------------------------------------------------------------------
// A client against a bucket

/// Reads a file as a client does, through the request's target.
fn read_through(b: &Bucket, f: (u8, u64, u64), offset: u64, size: u64) -> Vec<u8> {
    let c = HttpReplicaClient::new("http://host:1").unwrap();
    let url = c.open_url(f.0, Txid(f.1), Txid(f.2), offset, size);
    let target = url.strip_prefix("http://host:1").unwrap();
    let (method, path, query) = parse_request_line(&format!("GET {target} HTTP/1.1")).unwrap();
    match b.opts.route(&method, &path, &query, &h(&[])) {
        Route::File { level, min_txid, max_txid, offset, size } => {
            let body = b.get(level, min_txid, max_txid).unwrap();
            let at = |n: u64| (n as usize).min(body.len());
            match read_range(offset, size) {
                ReadRange::Whole => body.clone(),
                ReadRange::From(o) => body[at(o)..].to_vec(),
                ReadRange::Bounded(a, z) => body[at(a)..at(z)].to_vec(),
            }
        }
        other => panic!("{other:?}"),
    }
}

#[test]
fn file_reads_match_dir_backend() {
    let mut b = Bucket::new(false);
    let body: Vec<u8> = (0..3000usize).map(|i| (i as u8).wrapping_mul(31).wrapping_add(7)).collect();
    b.put(0, 1, 1, body.clone());
    for (offset, size) in [(0u64, 0u64), (100, 0), (100, 500), (10_000, 0)] {
        let from = (offset as usize).min(body.len());
        let want = match size {
            0 => &body[from..],
            n => &body[from..from + n as usize],
        };
        assert_eq!(read_through(&b, (0, 1, 1), offset, size), want, "offset {offset} size {size}");
    }
    assert_eq!(read_through(&b, (0, 1, 1), 0, 0), body);
    assert_eq!(read_through(&b, (0, 1, 1), 100, 500), &body[100..600]);
    assert!(read_through(&b, (0, 1, 1), 10_000, 0).is_empty());
}

#[test]
fn http_serve_missing_file_maps_to_not_found() {
    let mut b = Bucket::new(false);
    b.put(0, 1, 1, b"x".to_vec());
    let path = format!("ltx/3/{}", format_filename(Txid(0x0a), Txid(0x0b)));
    let (status, body) = text(b.handle("GET", &path, "", &h(&[]), b""));
    match open_answer(3, Txid(0x0a), Txid(0x0b), true, status, &body) {
        OpenAnswer::Fail(StorageError::NotFound { level, min_txid, max_txid }) => {
            assert_eq!((level, min_txid, max_txid), (3, Txid(0x0a), Txid(0x0b)));
        }
        other => panic!("expected NotFound, got {other:?}"),
    }
}

#[test]
fn separate_servers_are_isolated() {
    let mut a = Bucket::new(true);
    let mut b = Bucket::new(true);
    assert_eq!(a.push(&h(&[]), 0, 1, 1).0, 200);
    assert_eq!(a.list(0, Txid(0)).len(), 1);
    let (status, listing) = text(b.handle("GET", "ltx/0", "", &h(&[]), b""));
    assert_eq!(status, 200);
    assert!(parse_listing(&listing, 0).is_empty(), "b sees a's push");
    assert_eq!(read_through(&a, (0, 1, 1), 0, 0), ltx_bytes(1, 200));
}

#[test]
fn health_check_root_endpoint() {
    let (method, path, _) = parse_request_line("GET / HTTP/1.1").unwrap();
    let headers = h(&[("host", "x"), ("connection", "close")]);
    for base in [Vec::new(), vec!["db".to_string()]] {
        assert!(matches!(route(&base, &method, &path, &headers), ServerRoute::Health));
    }
    let r = Response::text(200, &version_line());
    let mut resp: Vec<u8> = Vec::new();
    match r.body {
        Body::Bytes(b) => write_bytes_response(r.status, &r.headers, &b, &mut resp).unwrap(),
        other => panic!("{other:?}"),
    }
    let resp = String::from_utf8(resp).unwrap();
    let (head, body) = resp.split_once("\r\n\r\n").expect("no header/body separator");
    assert!(head.starts_with("HTTP/1.1 200"), "head: {head:?}");
    assert!(
        head.to_ascii_lowercase().contains("x-liters-protocol: 1"),
        "missing protocol header: {head:?}"
    );
    assert!(body.starts_with("liters "), "body: {body:?}");
}
