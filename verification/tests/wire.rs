use liters::io::{Bytes, ErrorKind, IoError, Sink, Source};
use std::cell::RefCell;
use std::rc::Rc;
use liters::wire::{
    header, query_param, read_head, ChunkedReader, ChunkedWriter, LineBuf, MAX_LINE,
};

fn read_all<R: Source>(r: &mut ChunkedReader<R>) -> Result<Vec<u8>, IoError> {
    let mut out = Vec::new();
    let mut buf = [0u8; 4];
    loop {
        let n = r.read(&mut buf)?;
        if n == 0 {
            return Ok(out);
        }
        out.extend_from_slice(&buf[..n]);
    }
}

#[test]
fn chunked_roundtrip() {
    let mut w = ChunkedWriter::new(Vec::new());
    w.chunk(b"hello ").unwrap();
    w.chunk(b"world").unwrap();
    let out = w.finish().unwrap();
    assert_eq!(out, b"6\r\nhello \r\n5\r\nworld\r\n0\r\n\r\n");

    let mut r = ChunkedReader::new(Bytes::new(out));
    let s = String::from_utf8(read_all(&mut r).unwrap()).unwrap();
    assert_eq!(s, "hello world");
}

#[test]
fn chunked_rejects_garbage_size() {
    let mut r = ChunkedReader::new(Bytes::new(b"zz\r\ndata".to_vec()));
    assert!(read_all(&mut r).is_err());
}

#[test]
fn chunked_rejects_a_body_that_is_cut_short() {
    let mut r = ChunkedReader::new(Bytes::new(b"5\r\nhel".to_vec()));
    assert!(read_all(&mut r).is_err());
    let mut r = ChunkedReader::new(Bytes::new(b"3\r\nhel\r\n".to_vec()));
    assert!(read_all(&mut r).is_err());
}

#[test]
fn a_cut_body_never_passes_for_a_whole_one() {
    let mut w = ChunkedWriter::new(Vec::new());
    w.chunk(b"hello ").unwrap();
    w.chunk(b"").unwrap();
    w.chunk(b"world, hello world").unwrap();
    let out = w.finish().unwrap();
    for k in 0..out.len() {
        let mut r = ChunkedReader::new(Bytes::new(out[..k].to_vec()));
        let mut got = Vec::new();
        let mut buf = [0u8; 4];
        let e = loop {
            match r.read(&mut buf) {
                Ok(0) => panic!("a clean end after {k} bytes"),
                Ok(n) => got.extend_from_slice(&buf[..n]),
                Err(e) => break e,
            }
        };
        assert_eq!(e.kind, ErrorKind::UnexpectedEof, "after {k} bytes");
        assert!(b"hello world, hello world".starts_with(&got[..]), "after {k} bytes");
    }
}

#[test]
fn an_empty_chunk_is_not_written() {
    let mut w = ChunkedWriter::new(Vec::new());
    w.chunk(b"").unwrap();
    w.chunk(b"x").unwrap();
    assert_eq!(w.finish().unwrap(), b"1\r\nx\r\n0\r\n\r\n");
}

/// Holds back what is written until it is flushed.
struct Held {
    buf: Vec<u8>,
    out: Rc<RefCell<Vec<u8>>>,
}

impl Sink for Held {
    fn write_all(&mut self, data: &[u8]) -> Result<(), IoError> {
        self.buf.extend_from_slice(data);
        Ok(())
    }

    fn flush(&mut self) -> Result<(), IoError> {
        self.out.borrow_mut().append(&mut self.buf);
        Ok(())
    }
}

#[test]
fn flushing_reaches_the_wrapped_sink() {
    let out = Rc::new(RefCell::new(Vec::new()));
    let mut w = ChunkedWriter::new(Held { buf: Vec::new(), out: out.clone() });
    w.chunk(b"ab").unwrap();
    assert!(out.borrow().is_empty());
    w.flush().unwrap();
    assert_eq!(*out.borrow(), b"2\r\nab\r\n");
    w.finish().unwrap();
    assert_eq!(*out.borrow(), b"2\r\nab\r\n0\r\n\r\n");
}

#[test]
fn line_buf_strips_crlf_and_caps_length() {
    let mut lb = LineBuf::default();
    let mut src = Bytes::new(b"abc\r\n".to_vec());
    assert_eq!(lb.read_line(&mut src).unwrap(), Some("abc".into()));
    let long = vec![b'a'; MAX_LINE + 1];
    let mut lb = LineBuf::default();
    let mut src = Bytes::new(long);
    assert!(lb.read_line(&mut src).is_err());
}

#[test]
fn query_param_basics() {
    assert_eq!(query_param("seek=00000000000000ff&meta=1", "seek"), Some("00000000000000ff"));
    assert_eq!(query_param("seek=1", "meta"), None);
}

/// Yields bytes one at a time, with a timeout before each.
struct Stuttering {
    data: Vec<u8>,
    pos: usize,
    ready: bool,
}

impl Source for Stuttering {
    fn read(&mut self, buf: &mut [u8]) -> Result<usize, IoError> {
        if buf.is_empty() || self.pos == self.data.len() {
            return Ok(0);
        }
        if !self.ready {
            self.ready = true;
            return Err(IoError::new(ErrorKind::WouldBlock, "not yet"));
        }
        self.ready = false;
        buf[0] = self.data[self.pos];
        self.pos += 1;
        Ok(1)
    }
}

#[test]
fn a_partial_line_survives_timeouts() {
    let mut src = Stuttering { data: b"ab\ncd\n".to_vec(), pos: 0, ready: false };
    let mut lb = LineBuf::default();
    let mut lines = Vec::new();
    let mut timeouts = 0;
    loop {
        match lb.read_line(&mut src) {
            Ok(Some(l)) => lines.push(l),
            Ok(None) => break,
            Err(e) => {
                assert_eq!(e.kind, ErrorKind::WouldBlock);
                timeouts += 1;
            }
        }
    }
    assert_eq!(lines, ["ab", "cd"]);
    assert_eq!(timeouts, 6);
}

#[test]
fn an_end_within_a_line_is_an_error() {
    let mut lb = LineBuf::default();
    let mut src = Bytes::new(b"abc".to_vec());
    assert_eq!(lb.read_line(&mut src).unwrap_err().kind, ErrorKind::UnexpectedEof);
}

#[test]
fn heads_are_read_with_lower_case_names() {
    let mut src = Bytes::new(b"GET / HTTP/1.1\r\nHost: x\r\nX-A:  b \r\n\r\nrest".to_vec());
    let (line, headers) = read_head(&mut src).unwrap();
    assert_eq!(line, "GET / HTTP/1.1");
    assert_eq!(header(&headers, "host"), Some("x"));
    assert_eq!(header(&headers, "x-a"), Some("b"));
    assert_eq!(header(&headers, "x-b"), None);
}
