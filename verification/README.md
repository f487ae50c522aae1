# liters

SQLite replication for embedded use. A writer copies what a local database
commits into files of transactions and uploads them to a bucket; a replica
keeps a local read-only copy of a bucket up to date. Buckets live in a
directory, in S3-compatible object storage, or behind another instance's HTTP
server, which also streams changes and accepts pushes.

`src/` is the core, verified with Verus: what a write-ahead log holds, which
files restore a database, how a replica catches up and when it has diverged,
the HTTP protocol on both sides, fencing of writers, uploads, checkpoints,
compaction and retention, and the life of databases that are managed in the
background. Each of these is a function with a contract, or a state machine
that tells the embedding program what to do next and takes what came of it.
Properties that span functions stand as public proof functions named `law_*`.

| modules | subject |
| --- | --- |
| `wal`, `db_header` | SQLite's write-ahead log and file header |
| `ltx`, `listing`, `storage`, `dir`, `s3` | files of transactions and where they lie |
| `wire`, `transport`, `exchange`, `client`, `stream` | the HTTP client |
| `server`, `mount`, `fence`, `remove`, `copy`, `feed` | the HTTP server |
| `writer`, `push`, `checkpoint`, `meta` | the write side |
| `compaction`, `maintenance` | compaction, snapshots, retention |
| `plan`, `restore`, `replica`, `sync`, `follow` | the read side |
| `history` | that what is restored and followed is what was written |
| `manager`, `registry` | many databases at once |
| `ffi` | the surface for applications |
| `cancel`, `error`, `io`, `paths`, `random`, `sort`, `text`, `time` | what the others share |

The few calls into outside code that the core makes (random bytes, object
keys, RFC 3339 times, path components, UTF-8 and quoted text) stand behind
functions marked `#[verifier::external_body]`, whose doc comments say what is
taken on trust.

`app/` is ordinary Rust around the core: files, sockets, threads, SQLite. The
codec of the files of transactions, and the check of a log against them, are
supplied by the embedding program (`app/codec.rs`).
