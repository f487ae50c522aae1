//! Buckets in object storage: keys, listings and timestamps.
//!
//! Files have the keys `{prefix}/{level}/{min}-{max}.ltx`, the level as four
//! hexadecimal digits. The time that a file's header states is kept as object
//! metadata.
use crate::dir::{header_nanos, header_time};
use crate::error::StorageError;
use crate::listing::{sort_listing, sorted};
use crate::ltx::{filename, filename_of, format_filename, parse_filename, FileInfo, Txid};
use crate::paths::last_slash;
use crate::replica::HEADER_SIZE;
use crate::text;
use crate::text::{hex_fixed, without_leading, without_trailing};
use vstd::prelude::*;

verus! {

/// The metadata key that carries the time a file's header states.
pub const METADATA_KEY_TIMESTAMP: &'static str = "litestream-timestamp";

/// Nanoseconds in a second.
const NANOS_PER_SEC: i128 = 1_000_000_000;

/// The first second of the year 10000.
pub const YEAR_10000: i64 = 253_402_300_800;

/// Configuration for an S3-compatible endpoint.
#[derive(Debug, Clone)]
pub struct S3Config {
    pub bucket: String,
    /// Key prefix for this database.
    pub prefix: String,
    /// Custom endpoint; none means AWS.
    pub endpoint: Option<String>,
    pub region: Option<String>,
    pub access_key_id: Option<String>,
    pub secret_access_key: Option<String>,
    /// Path-style addressing.
    pub force_path_style: bool,
    /// Permit plain-HTTP endpoints.
    pub allow_http: bool,
}

impl Default for S3Config {
    fn default() -> (r: S3Config)
        ensures
            r.bucket@ == ""@,
            r.prefix@ == ""@,
            r.endpoint is None,
            r.region is None,
            r.access_key_id is None,
            r.secret_access_key is None,
            !r.force_path_style,
            !r.allow_http,
    {
        S3Config {
            bucket: "".to_owned(),
            prefix: "".to_owned(),
            endpoint: None,
            region: None,
            access_key_id: None,
            secret_access_key: None,
            force_path_style: false,
            allow_http: false,
        }
    }
}

/// The key that `object_store` makes of a path.
pub uninterp spec fn object_key(path: Seq<char>) -> Seq<char>;

/// Whether a character stands for itself in a key.
pub open spec fn key_char(c: char) -> bool {
    'a' <= c <= 'z' || 'A' <= c <= 'Z' || '0' <= c <= '9' || c == '-' || c == '_' || c == '.'
}

/// Whether a path is its own key: parts of letters, digits, `-`, `_` and `.`
/// with one `/` between any two, none of which starts with a dot.
pub open spec fn plain_key(s: Seq<char>) -> bool {
    &&& s.len() > 0
    &&& s.last() != '/'
    &&& forall|i: int|
        0 <= i < s.len() ==> {
            &&& key_char(#[trigger] s[i]) || s[i] == '/'
            &&& (i == 0 || s[i - 1] == '/') ==> s[i] != '/' && s[i] != '.'
        }
}

/// The key of a path, by `object_store`'s `Path::from`, which splits it at
/// slashes, leaves out empty parts and percent-encodes what keys should not
/// hold. Claimed: the key depends on the path alone, and a plain path is its
/// own key.
#[verifier::external_body]
fn path_key(path: &str) -> (r: String)
    ensures
        r@ == object_key(path@),
        plain_key(path@) ==> r@ == path@,
{
    String::from(object_store::path::Path::from(path))
}

/// The seconds and nanoseconds from the Unix epoch that `chrono` reads from an
/// RFC 3339 time; nothing if it is none.
pub uninterp spec fn rfc3339_time(s: Seq<char>) -> Option<(i64, u32)>;

/// The RFC 3339 text that `chrono` writes for the seconds and nanoseconds
/// from the Unix epoch; nothing for a time it cannot hold.
pub uninterp spec fn rfc3339_text(secs: i64, nanos: u32) -> Option<Seq<char>>;

/// Reads an RFC 3339 time, by `chrono`'s `DateTime::parse_from_rfc3339`.
/// Claimed: what is read depends on the text alone.
#[verifier::external_body]
fn parse_rfc3339(s: &str) -> (r: Option<(i64, u32)>)
    ensures
        r == rfc3339_time(s@),
{
    match chrono::DateTime::parse_from_rfc3339(s) {
        Ok(t) => Some((t.timestamp(), t.timestamp_subsec_nanos())),
        Err(_) => None,
    }
}

/// The text that was written, if any.
pub open spec fn written(r: Option<String>) -> Option<Seq<char>> {
    match r {
        Some(s) => Some(s@),
        None => None,
    }
}

/// Whether `r` holds a text from which the time is read back, if the time
/// lies from the Unix epoch up to the year 10000.
pub open spec fn reads_back(r: Option<String>, secs: i64, nanos: u32) -> bool {
    0 <= secs < YEAR_10000 && nanos < 1_000_000_000 ==> (r matches Some(s) && rfc3339_time(s@)
        == Some((secs, nanos)))
}

/// Writes a time in RFC 3339, in UTC with as many digits as it needs, by
/// `chrono`'s `DateTime::from_timestamp` and `to_rfc3339_opts`. Claimed: the
/// text depends on the time alone, and from the Unix epoch up to the year
/// 10000, where a year has four digits, there is one and
/// `parse_from_rfc3339` reads the same time from it.
#[verifier::external_body]
fn format_rfc3339(secs: i64, nanos: u32) -> (r: Option<String>)
    ensures
        written(r) == rfc3339_text(secs, nanos),
        reads_back(r, secs, nanos),
{
    match chrono::DateTime::from_timestamp(secs, nanos) {
        Some(t) => Some(t.to_rfc3339_opts(chrono::SecondsFormat::AutoSi, true)),
        None => None,
    }
}

/// A bucket in object storage.
#[derive(Debug)]
pub struct S3ReplicaClient {
    prefix: String,
}

impl View for S3ReplicaClient {
    type V = Seq<char>;

    closed spec fn view(&self) -> Seq<char> {
        self.prefix@
    }
}

/// `rest` below the prefix.
pub open spec fn prefixed(prefix: Seq<char>, rest: Seq<char>) -> Seq<char> {
    if prefix.len() == 0 {
        rest
    } else {
        prefix + "/"@ + rest
    }
}

/// The path of a level.
pub open spec fn level_text(prefix: Seq<char>, level: u8) -> Seq<char> {
    prefixed(prefix, hex_fixed(level as nat, 4))
}

/// The path of a file.
pub open spec fn key_text(prefix: Seq<char>, level: u8, min: Txid, max: Txid) -> Seq<char> {
    prefixed(prefix, hex_fixed(level as nat, 4) + "/"@ + filename(min, max))
}

impl S3ReplicaClient {
    /// The bucket that a configuration describes. Slashes around the prefix
    /// do not count.
    pub fn new(config: &S3Config) -> (r: S3ReplicaClient)
        ensures
            r@ == without_trailing(without_leading(config.prefix@, '/'), '/'),
    {
        let cs = text::chars_of(config.prefix.as_str());
        let p = text::drop_trailing(text::drop_leading(&cs, '/'), '/');
        S3ReplicaClient { prefix: text::string_of(p) }
    }

    fn below(&self, rest: &str) -> (r: String)
        ensures
            r@ == prefixed(self@, rest@),
    {
        let cs = text::chars_of(self.prefix.as_str());
        if cs.len() == 0 {
            rest.to_owned()
        } else {
            let mut s = self.prefix.as_str().to_owned();
            s.append("/");
            s.append(rest);
            s
        }
    }

    /// The key prefix of a level.
    pub fn level_prefix(&self, level: u8) -> (r: String)
        ensures
            r@ == object_key(level_text(self@, level)),
            plain_key(level_text(self@, level)) ==> r@ == level_text(self@, level),
    {
        let l = text::hex_text(level as u64, 4);
        path_key(self.below(l.as_str()).as_str())
    }

    /// The key of a file.
    pub fn ltx_key(&self, level: u8, min: Txid, max: Txid) -> (r: String)
        ensures
            r@ == object_key(key_text(self@, level, min, max)),
            plain_key(key_text(self@, level, min, max)) ==> r@ == key_text(self@, level, min, max),
    {
        let mut l = text::hex_text(level as u64, 4);
        l.append("/");
        l.append(format_filename(min, max).as_str());
        path_key(self.below(l.as_str()).as_str())
    }

    /// The key prefix of the whole bucket; nothing where the bucket has none.
    pub fn bucket_prefix(&self) -> (r: Option<String>)
        ensures
            self@.len() == 0 ==> r is None,
            self@.len() > 0 ==> (r matches Some(p) && p@ == object_key(self@)),
    {
        let cs = text::chars_of(self.prefix.as_str());
        if cs.len() == 0 {
            None
        } else {
            Some(path_key(self.prefix.as_str()))
        }
    }
}

/// Below a plain prefix, or none, every file's path is its own key, so the
/// bucket is laid out exactly as written.
pub proof fn law_layout_is_plain(prefix: Seq<char>, level: u8, min: Txid, max: Txid)
    requires
        prefix.len() == 0 || plain_key(prefix),
    ensures
        plain_key(key_text(prefix, level, min, max)),
{
    let l = hex_fixed(level as nat, 4);
    let f = filename(min, max);
    reveal_strlit("/");
    reveal_strlit("-");
    reveal_strlit(".ltx");
    reveal_with_fuel(text::pow16, 5);
    text::law_hex_fixed_writes_the_number(level as nat, 4);
    crate::ltx::law_txid_text_reads_back(min);
    crate::ltx::law_txid_text_reads_back(max);
    let a = crate::ltx::txid_text(min);
    let b = crate::ltx::txid_text(max);
    lemma_digits_are_key_chars(l);
    lemma_digits_are_key_chars(a);
    lemma_digits_are_key_chars(b);
    assert forall|i: int| 0 <= i < f.len() implies key_char(#[trigger] f[i]) && (i == 0 ==> f[i]
        != '.') by {
        if i < 16 {
            assert(f[i] == a[i]);
        } else if i == 16 {
            assert(f[i] == '-');
        } else if i < 33 {
            assert(f[i] == b[i - 17]);
        } else {
            assert(f[i] == ".ltx"@[i - 33]);
        }
    }
    let rest = l + "/"@ + f;
    assert(plain_key(rest)) by {
        assert forall|i: int| 0 <= i < rest.len() implies {
            &&& key_char(#[trigger] rest[i]) || rest[i] == '/'
            &&& (i == 0 || rest[i - 1] == '/') ==> rest[i] != '/' && rest[i] != '.'
        } by {
            if i < l.len() {
                assert(rest[i] == l[i]);
                if i > 0 {
                    assert(rest[i - 1] == l[i - 1]);
                }
            } else if i == l.len() {
                assert(rest[i] == '/');
                assert(rest[i - 1] == l[i - 1]);
            } else {
                assert(rest[i] == f[i - l.len() - 1]);
                if i > l.len() + 1 {
                    assert(rest[i - 1] == f[i - l.len() - 2]);
                }
            }
        }
        assert(rest.last() == f.last());
    }
    if prefix.len() > 0 {
        let k = prefix + "/"@ + rest;
        assert forall|i: int| 0 <= i < k.len() implies {
            &&& key_char(#[trigger] k[i]) || k[i] == '/'
            &&& (i == 0 || k[i - 1] == '/') ==> k[i] != '/' && k[i] != '.'
        } by {
            let n = prefix.len();
            if i < n {
                assert(k[i] == prefix[i]);
                if i > 0 {
                    assert(k[i - 1] == prefix[i - 1]);
                }
            } else if i == n {
                assert(k[i] == '/');
                assert(k[i - 1] == prefix[n - 1]);
            } else {
                assert(k[i] == rest[i - n - 1]);
                if i > n + 1 {
                    assert(k[i - 1] == rest[i - n - 2]);
                }
            }
        }
        assert(k.last() == rest.last());
    }
}

proof fn lemma_digits_are_key_chars(s: Seq<char>)
    requires
        text::all_digits(s, 16),
    ensures
        forall|i: int|
            0 <= i < s.len() ==> key_char(#[trigger] s[i]) && s[i] != '.' && s[i] != '/',
{
    assert forall|i: int| 0 <= i < s.len() implies key_char(#[trigger] s[i]) && s[i] != '.' && s[i]
        != '/' by {
        assert(text::digit_value(s[i]) < 16);
    }
}

/// What a listing shows of an object.
#[derive(Debug)]
pub struct S3Object {
    pub key: String,
    pub size: u64,
    pub modified: i128,
}

/// The file that an object stands for, if it is one that starts at `seek` or
/// later: the last part of its key is the file's name.
pub open spec fn object_file(o: S3Object, level: u8, seek: Txid) -> Option<FileInfo> {
    match filename_of(o.key@.skip(last_slash(o.key@) + 1)) {
        Some((min_txid, max_txid)) => if min_txid.0 >= seek.0 {
            Some(
                FileInfo {
                    level,
                    min_txid,
                    max_txid,
                    size: o.size,
                    created_at: Some(o.modified),
                },
            )
        } else {
            None
        },
        None => None,
    }
}

/// The files among objects, in their order there.
pub open spec fn object_files(objects: Seq<S3Object>, level: u8, seek: Txid) -> Seq<FileInfo>
    decreases objects.len(),
{
    if objects.len() == 0 {
        Seq::empty()
    } else {
        let rest = object_files(objects.drop_last(), level, seek);
        match object_file(objects.last(), level, seek) {
            Some(f) => rest.push(f),
            None => rest,
        }
    }
}

fn after_last_slash(s: &str) -> (r: String)
    ensures
        r@ == s@.skip(last_slash(s@) + 1),
{
    let cs = text::chars_of(s);
    let mut i: usize = cs.len();
    assert(cs@.take(i as int) =~= cs@);
    while i > 0 && cs[i - 1] != '/'
        invariant
            i <= cs@.len(),
            last_slash(cs@.take(i as int)) == last_slash(cs@),
        decreases i,
    {
        assert(cs@.take(i as int).drop_last() =~= cs@.take(i - 1));
        i -= 1;
    }
    let r = text::part(&cs, i, cs.len());
    assert(r@ =~= cs@.skip(i as int));
    text::string_of(r)
}

/// The files of a level among its objects, in the order of the objects;
/// others are skipped.
pub fn found_files(objects: &Vec<S3Object>, level: u8, seek: Txid) -> (r: Vec<FileInfo>)
    ensures
        r@ == object_files(objects@, level, seek),
{
    let mut infos: Vec<FileInfo> = Vec::new();
    let mut i: usize = 0;
    assert(objects@.take(0) =~= Seq::<S3Object>::empty());
    while i < objects.len()
        invariant
            i <= objects@.len(),
            infos@ == object_files(objects@.take(i as int), level, seek),
        decreases objects@.len() - i,
    {
        assert(objects@.take(i + 1).drop_last() =~= objects@.take(i as int));
        assert(objects@.take(i + 1).last() == objects@[i as int]);
        let o = &objects[i];
        let name = after_last_slash(o.key.as_str());
        if let Some((min_txid, max_txid)) = parse_filename(name.as_str()) {
            if min_txid.0 >= seek.0 {
                infos.push(
                    FileInfo {
                        level,
                        min_txid,
                        max_txid,
                        size: o.size,
                        created_at: Some(o.modified),
                    },
                );
            }
        }
        i += 1;
    }
    assert(objects@.take(i as int) =~= objects@);
    infos
}

/// A time as seconds and nanoseconds, in nanoseconds.
pub open spec fn nanos_of(t: (i64, u32)) -> int {
    t.0 * 1_000_000_000 + t.1
}

/// A file dated by what its metadata was read as; one that has no such time
/// keeps its date.
pub fn dated(info: FileInfo, time: Option<(i64, u32)>) -> (r: FileInfo)
    ensures
        r == match time {
            Some(t) => FileInfo { created_at: Some(nanos_of(t) as i128), ..info },
            None => info,
        },
{
    match time {
        Some((secs, nanos)) => {
            let at: i128 = secs as i128 * NANOS_PER_SEC + nanos as i128;
            FileInfo { created_at: Some(at), ..info }
        },
        None => info,
    }
}

/// A file dated by its metadata: what is no time leaves its date as it is.
pub fn with_metadata(info: FileInfo, metadata: Option<&str>) -> (r: FileInfo)
    ensures
        r == match metadata {
            Some(m) => match rfc3339_time(m@) {
                Some(t) => FileInfo { created_at: Some(nanos_of(t) as i128), ..info },
                None => info,
            },
            None => info,
        },
{
    match metadata {
        Some(m) => dated(info, parse_rfc3339(m)),
        None => info,
    }
}

/// The listing of a level from its files, dated by the metadata of each where
/// that was asked for.
pub open spec fn dated_files(files: Seq<FileInfo>, metadata: Seq<Option<String>>) -> Seq<FileInfo> {
    Seq::new(
        files.len(),
        |i: int|
            if i < metadata.len() {
                match metadata[i] {
                    Some(m) => match rfc3339_time(m@) {
                        Some(t) => FileInfo { created_at: Some(nanos_of(t) as i128), ..files[i] },
                        None => files[i],
                    },
                    None => files[i],
                }
            } else {
                files[i]
            },
    )
}

/// The listing of a level: the files in order, each dated by its metadata as
/// far as that is at hand.
pub fn ltx_files(files: &Vec<FileInfo>, metadata: &Vec<Option<String>>) -> (r: Vec<FileInfo>)
    ensures
        r@ == sorted(dated_files(files@, metadata@)),
{
    let mut out: Vec<FileInfo> = Vec::new();
    let mut i: usize = 0;
    while i < files.len()
        invariant
            i <= files@.len(),
            out@ == dated_files(files@, metadata@).take(i as int),
        decreases files@.len() - i,
    {
        let f = files[i];
        let d = if i < metadata.len() {
            match &metadata[i] {
                Some(m) => with_metadata(f, Some(m.as_str())),
                None => f,
            }
        } else {
            f
        };
        assert(d == dated_files(files@, metadata@)[i as int]);
        out.push(d);
        i += 1;
        assert(out@ =~= dated_files(files@, metadata@).take(i as int));
    }
    assert(dated_files(files@, metadata@).take(i as int) =~= dated_files(files@, metadata@));
    sort_listing(out)
}

/// The metadata that states when a file with this timestamp in its header was
/// created; nothing for a time that cannot be written. Before the year 10000
/// there always is one, and [`with_metadata`] reads the same time from it.
pub fn timestamp_metadata(timestamp: i64) -> (r: Option<String>)
    ensures
        ({
            let t = header_nanos(timestamp);
            let secs = (t / 1_000_000_000) as i64;
            let nanos = (t % 1_000_000_000) as u32;
            &&& written(r) == rfc3339_text(secs, nanos)
            &&& timestamp < YEAR_10000 * 1000 ==> (r matches Some(s) && rfc3339_time(s@) matches Some(
                p,
            ) && nanos_of(p) == t)
        }),
{
    let t = header_time(timestamp);
    let u: u128 = t as u128;
    let secs: i64 = (u / 1_000_000_000) as i64;
    let nanos: u32 = (u % 1_000_000_000) as u32;
    let r = format_rfc3339(secs, nanos);
    proof {
        assert(t / 1_000_000_000 == secs && t % 1_000_000_000 == nanos);
        assert(nanos_of((secs, nanos)) == t);
    }
    r
}

/// Which part of a file is read.
#[derive(Clone, Copy, Debug, PartialEq, Eq, Structural)]
pub enum ReadRange {
    Whole,
    /// From an offset on.
    From(u64),
    /// From an offset up to, and not including, another.
    Bounded(u64, u64),
}

/// Which part of a file is read, for an offset and a size of which zero means
/// all of the rest.
pub fn read_range(offset: u64, size: u64) -> (r: ReadRange)
    requires
        offset + size <= u64::MAX,
    ensures
        r == if size > 0 {
            ReadRange::Bounded(offset, (offset + size) as u64)
        } else if offset > 0 {
            ReadRange::From(offset)
        } else {
            ReadRange::Whole
        },
{
    if offset == 0 && size == 0 {
        ReadRange::Whole
    } else if size == 0 {
        ReadRange::From(offset)
    } else {
        ReadRange::Bounded(offset, offset + size)
    }
}

/// Whether a file is long enough to hold a header.
pub fn check_length(len: u64) -> (r: Result<(), StorageError>)
    ensures
        len >= HEADER_SIZE ==> r is Ok,
        len < HEADER_SIZE ==> (r matches Err(StorageError::Other(m)) && m@
            == "ltx file shorter than header"@),
{
    if len < HEADER_SIZE {
        Err(StorageError::Other("ltx file shorter than header".to_owned()))
    } else {
        Ok(())
    }
}

/// What a failure of the object store means: a missing object is told apart.
pub fn map_err(not_found: bool, message: &str, level: u8, min_txid: Txid, max_txid: Txid) -> (r:
    StorageError)
    ensures
        not_found ==> r == (StorageError::NotFound { level, min_txid, max_txid }),
        !not_found ==> (r matches StorageError::Other(m) && m@ == message@),
{
    if not_found {
        StorageError::NotFound { level, min_txid, max_txid }
    } else {
        StorageError::Other(message.to_owned())
    }
}

} // verus!
