//! A writer's local state, in a hidden directory beside the database: the
//! level-0 files it made, and small files that hold its position and its
//! identity. The newest level-0 file *is* the replication position.
use crate::client::{header_safe, is_header_safe};
use crate::error::Error;
use crate::io::{ErrorKind, IoError};
use crate::ltx::{filename, filename_of, format_filename, parse_filename, txid_of, txid_text, Txid};
use crate::paths::{file_name_of, join_path, joined_path, parent_of, plain_split};
use crate::random::random_bytes;
use crate::text;
use crate::text::{
    all_digits, decimal, digit_value, ends, hex_fixed, is_white, parsed, trim_front, trimmed, words,
    word_len,
};
use vstd::prelude::*;

verus! {

/// What the name of the directory ends in.
pub const META_DIR_SUFFIX: &'static str = "-litestream";

/// The longest writer id that is read back.
pub const MAX_WRITER_ID: usize = 128;

/// Paths for a database's local replication state.
#[derive(Debug)]
pub struct MetaDir {
    root: String,
}

impl View for MetaDir {
    type V = Seq<char>;

    closed spec fn view(&self) -> Seq<char> {
        self.root@
    }
}

/// The directory for the database called `name` in `dir`.
pub open spec fn meta_root(dir: Seq<char>, name: Seq<char>) -> Seq<char> {
    joined_path(dir, "."@ + name + META_DIR_SUFFIX@)
}

/// Whether `root` is the directory for some database.
pub open spec fn is_meta_root(root: Seq<char>) -> bool {
    exists|dir: Seq<char>, name: Seq<char>| root == #[trigger] meta_root(dir, name)
}

/// Where the level-0 files lie.
pub open spec fn l0_dir_of(root: Seq<char>) -> Seq<char> {
    joined_path(joined_path(root, "ltx"@), "0"@)
}

impl MetaDir {
    /// The directory for the database called `name` in `dir`.
    pub fn beside(dir: &str, name: &str) -> (r: MetaDir)
        ensures
            r@ == meta_root(dir@, name@),
    {
        let mut n = crate::error::join(".", name);
        n.append(META_DIR_SUFFIX);
        MetaDir { root: join_path(dir, n.as_str()) }
    }

    /// The directory for the database at `db_path`. How a path that is not
    /// plain falls into directory and name depends on the machine; what
    /// follows for each is [`MetaDir::beside`]'s.
    pub fn for_db(db_path: &str) -> (r: MetaDir)
        ensures
            is_meta_root(r@),
            plain_split(db_path@) matches Some((dir, name)) ==> r@ == meta_root(dir, name),
    {
        let dir = match parent_of(db_path) {
            Some(d) => d,
            None => ".".to_owned(),
        };
        let name = match file_name_of(db_path) {
            Some(n) => n,
            None => "".to_owned(),
        };
        let r = MetaDir::beside(dir.as_str(), name.as_str());
        assert(r@ == meta_root(dir@, name@));
        r
    }

    pub fn root(&self) -> (r: &str)
        ensures
            r@ == self@,
    {
        self.root.as_str()
    }

    /// Where the level-0 files lie.
    pub fn l0_dir(&self) -> (r: String)
        ensures
            r@ == l0_dir_of(self@),
    {
        join_path(join_path(self.root.as_str(), "ltx").as_str(), "0")
    }

    /// The level-0 file of a transaction.
    pub fn l0_path(&self, txid: Txid) -> (r: String)
        ensures
            r@ == joined_path(l0_dir_of(self@), filename(txid, txid)),
    {
        join_path(self.l0_dir().as_str(), format_filename(txid, txid).as_str())
    }

    /// The file of this name in the directory.
    pub fn file(&self, name: &str) -> (r: String)
        ensures
            r@ == joined_path(self@, name@),
    {
        join_path(self.root.as_str(), name)
    }
}

/// Whether a file's name marks it as a staging file that a crash left behind:
/// its extension is `tmp`.
pub open spec fn staging(name: Seq<char>) -> bool {
    name.len() > 4 && ends(name, ".tmp"@)
}

/// Whether a file is a stale staging file.
pub fn is_tmp_file(name: &str) -> (r: bool)
    ensures
        r == staging(name@),
{
    let cs = text::chars_of(name);
    let suffix = text::chars_of(".tmp");
    cs.len() > 4 && text::before_suffix(&cs, &suffix).is_some()
}

/// The last transaction that a file's name states.
pub open spec fn last_txid(name: Seq<char>) -> Option<Txid> {
    match filename_of(name) {
        Some(p) => Some(p.1),
        None => None,
    }
}

/// The last transaction among the files of these names.
pub open spec fn newest_name(names: Seq<String>) -> Option<Txid>
    decreases names.len(),
{
    if names.len() == 0 {
        None
    } else {
        match (newest_name(names.drop_last()), last_txid(names.last()@)) {
            (m, None) => m,
            (None, t) => t,
            (Some(m), Some(t)) => if t.0 > m.0 {
                Some(t)
            } else {
                Some(m)
            },
        }
    }
}

/// The last transaction among the files of these names; names of other files
/// do not count.
pub fn max_l0_txid(names: &Vec<String>) -> (r: Option<Txid>)
    ensures
        r == newest_name(names@),
{
    let mut max: Option<Txid> = None;
    let mut i: usize = 0;
    assert(names@.take(0) =~= Seq::<String>::empty());
    while i < names.len()
        invariant
            i <= names@.len(),
            max == newest_name(names@.take(i as int)),
        decreases names@.len() - i,
    {
        assert(names@.take(i + 1).drop_last() =~= names@.take(i as int));
        assert(names@.take(i + 1).last() == names@[i as int]);
        if let Some((_, t)) = parse_filename(names[i].as_str()) {
            max = match max {
                None => Some(t),
                Some(m) => if t.0 > m.0 {
                    Some(t)
                } else {
                    Some(m)
                },
            };
        }
        i += 1;
    }
    assert(names@.take(i as int) =~= names@);
    max
}

/// Whether the file of this name may be pruned: it ends before `before` and is
/// not the newest.
pub open spec fn prunable(name: Seq<char>, before: Txid, newest: Option<Txid>) -> bool {
    match (last_txid(name), newest) {
        (Some(t), Some(n)) => t.0 < before.0 && t != n,
        _ => false,
    }
}

/// The files that may be pruned, by their indices.
pub open spec fn pruned(names: Seq<String>, n: int, before: Txid, newest: Option<Txid>) -> Seq<
    usize,
>
    decreases n,
{
    if n <= 0 {
        Seq::empty()
    } else if prunable(names[n - 1]@, before, newest) {
        pruned(names, n - 1, before, newest).push((n - 1) as usize)
    } else {
        pruned(names, n - 1, before, newest)
    }
}

/// The files to delete because everything up to `before` is stored remotely:
/// those that end before it. The newest always stays, because the next push
/// verifies against it.
pub fn prune_l0(names: &Vec<String>, before: Txid) -> (r: Vec<usize>)
    ensures
        r@ == pruned(names@, names@.len() as int, before, newest_name(names@)),
{
    let newest = max_l0_txid(names);
    let mut out: Vec<usize> = Vec::new();
    let mut i: usize = 0;
    while i < names.len()
        invariant
            i <= names@.len(),
            newest == newest_name(names@),
            out@ == pruned(names@, i as int, before, newest),
        decreases names@.len() - i,
    {
        if let Some((_, t)) = parse_filename(names[i].as_str()) {
            if let Some(n) = newest {
                if t.0 < before.0 && t.0 != n.0 {
                    out.push(i);
                }
            }
        }
        i += 1;
    }
    out
}

/// Pruning never takes the newest file, nor one that is still needed, nor one
/// that is no replication file.
pub proof fn law_newest_local_file_is_kept(names: Seq<String>, before: Txid, n: int, k: int)
    requires
        0 <= n <= names.len() <= usize::MAX,
        0 <= k < pruned(names, n, before, newest_name(names)).len(),
    ensures
        ({
            let i = pruned(names, n, before, newest_name(names))[k];
            &&& i < n
            &&& last_txid(names[i as int]@) matches Some(t) && t.0 < before.0 && newest_name(names)
                != Some(t)
        }),
    decreases n,
{
    if n > 0 {
        let rest = pruned(names, n - 1, before, newest_name(names));
        if k < rest.len() {
            law_newest_local_file_is_kept(names, before, n - 1, k);
        }
    }
}

/// What the sync-state file holds.
pub open spec fn sync_state(offset: u64) -> Seq<char> {
    decimal(offset as int) + "\n"@
}

/// What the sync-state file holds: how far the log was synced.
pub fn write_sync_state(offset: u64) -> (r: String)
    ensures
        r@ == sync_state(offset),
{
    let mut s = text::decimal_text(offset);
    s.append("\n");
    s
}

/// How far the log was synced, as a sync-state file states it.
pub open spec fn sync_state_of(contents: Seq<char>) -> int {
    if words(contents).len() == 0 {
        0
    } else {
        match parsed(words(contents)[0], 10, u64::MAX as int) {
            Some(n) => n,
            None => 0,
        }
    }
}

/// How far the log was synced, as a sync-state file states it; zero if it
/// makes no sense.
pub fn read_sync_state(contents: &str) -> (r: u64)
    ensures
        r == sync_state_of(contents@),
{
    let cs = text::chars_of(contents);
    let ws = text::split_words(&cs);
    assert(text::views(ws@).len() == ws@.len());
    if ws.len() == 0 {
        return 0;
    }
    assert(text::views(ws@)[0] == ws@[0]@);
    match text::parse_number(ws[0], 10, u64::MAX) {
        Some(n) => n,
        None => 0,
    }
}

proof fn lemma_word_of_line(s: Seq<char>)
    requires
        all_digits(s, 16),
    ensures
        word_len(s.push('\n')) == s.len(),
    decreases s.len(),
{
    let t = s.push('\n');
    if s.len() > 0 {
        assert(digit_value(s[0]) < 16);
        assert(!is_white(t[0]));
        assert(t.skip(1) =~= s.skip(1).push('\n'));
        assert(all_digits(s.skip(1), 16)) by {
            assert forall|k: int| 0 <= k < s.skip(1).len() implies digit_value(
                #[trigger] s.skip(1)[k],
            ) < 16 by {
                assert(s.skip(1)[k] == s[k + 1]);
            }
        }
        lemma_word_of_line(s.skip(1));
    } else {
        assert(t[0] == '\n');
    }
}

/// A recorded log offset reads back.
pub proof fn law_sync_state_reads_back(offset: u64)
    ensures
        sync_state_of(sync_state(offset)) == offset,
{
    text::law_digits_write_the_number(offset as nat, 10);
    text::law_written_number_reads_back(offset as nat, 10, u64::MAX as int);
    reveal_strlit("\n");
    let d = decimal(offset as int);
    let s = sync_state(offset);
    assert(s =~= d.push('\n'));
    assert(all_digits(d, 16)) by {
        assert forall|k: int| 0 <= k < d.len() implies digit_value(#[trigger] d[k]) < 16 by {
            assert(digit_value(d[k]) < 10);
        }
    }
    lemma_word_of_line(d);
    assert(digit_value(d[0]) < 16 && s[0] == d[0]);
    assert(trim_front(s) == s);
    assert(s.take(word_len(s)) =~= d);
    assert(words(s)[0] == d);
}

/// What the verified-position file holds: the highest transaction that this
/// history is known to have placed in the bucket.
pub fn write_verified_pos(txid: Txid) -> (r: String)
    ensures
        r@ == txid_text(txid) + "\n"@,
{
    let mut s = txid.text();
    s.append("\n");
    s
}

/// The position that a verified-position file states; nothing if it makes no
/// sense.
pub fn read_verified_pos(contents: &str) -> (r: Option<Txid>)
    ensures
        r == txid_of(trimmed(contents@)),
{
    let cs = text::chars_of(contents);
    crate::ltx::parse_txid(text::trim(&cs))
}

/// A recorded verified position reads back.
pub proof fn law_verified_pos_reads_back(txid: Txid)
    ensures
        txid_of(trimmed(txid_text(txid) + "\n"@)) == Some(txid),
{
    crate::replica::law_sidecar_reads_back(txid);
}

/// The writer id that a file holds: its text, if that can stand in a request
/// head and is not too long.
pub open spec fn stored_id(contents: Seq<char>) -> Option<Seq<char>> {
    let id = trimmed(contents);
    if header_safe(id) && id.len() <= MAX_WRITER_ID {
        Some(id)
    } else {
        None
    }
}

/// `bytes` in hexadecimal, two digits each.
pub open spec fn hex_bytes(bytes: Seq<u8>) -> Seq<char>
    decreases bytes.len(),
{
    if bytes.len() == 0 {
        Seq::empty()
    } else {
        hex_bytes(bytes.drop_last()) + hex_fixed(bytes.last() as nat, 2)
    }
}

/// The writer id made of `bytes`: their hexadecimal digits.
pub fn id_of_bytes(bytes: &Vec<u8>) -> (r: String)
    ensures
        r@ == hex_bytes(bytes@),
{
    let mut s = "".to_owned();
    let mut i: usize = 0;
    proof {
        reveal_strlit("");
    }
    assert(bytes@.take(0) =~= Seq::<u8>::empty());
    assert(s@ =~= hex_bytes(bytes@.take(0)));
    while i < bytes.len()
        invariant
            i <= bytes@.len(),
            s@ == hex_bytes(bytes@.take(i as int)),
        decreases bytes@.len() - i,
    {
        assert(bytes@.take(i + 1).drop_last() =~= bytes@.take(i as int));
        s.append(text::hex_text(bytes[i] as u64, 2).as_str());
        i += 1;
    }
    assert(bytes@.take(i as int) =~= bytes@);
    s
}

/// A database's writer id.
#[derive(Debug)]
pub enum WriterId {
    /// The one that the file holds.
    Kept(String),
    /// A new one, to be stored before it is used.
    Fresh(String),
}

/// Whether an id was made of sixteen bytes.
pub open spec fn fresh_id(id: Seq<char>) -> bool {
    exists|bytes: Seq<u8>| bytes.len() == 16 && id == #[trigger] hex_bytes(bytes)
}

/// This database's writer id: the stored one, or a new one if there is none
/// yet or what is stored is no id. The id lives exactly as long as the
/// directory: a device that was restored without it presents as a new writer.
pub fn writer_id(stored: Result<String, IoError>) -> (r: Result<WriterId, Error>)
    ensures
        match stored {
            Ok(s) => match stored_id(s@) {
                Some(id) => r matches Ok(WriterId::Kept(k)) && k@ == id,
                None => r matches Ok(WriterId::Fresh(f)) && fresh_id(f@),
            },
            Err(e) => if e.kind is NotFound {
                r matches Ok(WriterId::Fresh(f)) && fresh_id(f@)
            } else {
                r == Err::<WriterId, Error>(Error::Io(e))
            },
        },
{
    match stored {
        Ok(s) => {
            let cs = text::chars_of(s.as_str());
            let t = text::trim(&cs);
            let id = text::string_of(t);
            if is_header_safe(id.as_str()) && t.len() <= MAX_WRITER_ID {
                return Ok(WriterId::Kept(id));
            }
        },
        Err(e) => {
            let missing = match e.kind {
                ErrorKind::NotFound => true,
                _ => false,
            };
            if !missing {
                return Err(Error::Io(e));
            }
        },
    }
    let bytes = random_bytes(16);
    let id = id_of_bytes(&bytes);
    assert(fresh_id(id@));
    Ok(WriterId::Fresh(id))
}

proof fn lemma_hex_bytes(bytes: Seq<u8>)
    ensures
        hex_bytes(bytes).len() == 2 * bytes.len(),
        all_digits(hex_bytes(bytes), 16),
    decreases bytes.len(),
{
    if bytes.len() > 0 {
        lemma_hex_bytes(bytes.drop_last());
        reveal_with_fuel(text::pow16, 3);
        text::law_hex_fixed_writes_the_number(bytes.last() as nat, 2);
        let a = hex_bytes(bytes.drop_last());
        let b = hex_fixed(bytes.last() as nat, 2);
        assert forall|k: int| 0 <= k < (a + b).len() implies digit_value(#[trigger] (a + b)[k])
            < 16 by {
            if k < a.len() {
                assert((a + b)[k] == a[k]);
            } else {
                assert((a + b)[k] == b[k - a.len()]);
            }
        }
    }
}

/// A new writer id is kept once it is stored: the file that holds it as a line
/// gives it back.
pub proof fn law_fresh_id_is_kept(id: Seq<char>)
    requires
        fresh_id(id),
    ensures
        id.len() == 32,
        stored_id(id + "\n"@) == Some(id),
{
    let bytes = choose|bytes: Seq<u8>| bytes.len() == 16 && id == #[trigger] hex_bytes(bytes);
    lemma_hex_bytes(bytes);
    reveal_strlit("\n");
    assert(id + "\n"@ =~= id.push('\n'));
    text::lemma_trim_line(id);
    assert forall|i: int| 0 <= i < id.len() implies '!' <= #[trigger] id[i] <= '~' by {
        assert(digit_value(id[i]) < 16);
    }
}

} // verus!
