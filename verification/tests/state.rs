//! Local state, buckets in directories and object storage, and the surface
//! for applications.
use liters::compaction::MaintenanceReport;
use liters::dir::{
    header_time, ltx_files, open_failure, stored_info, unless_missing, DirEntry, DirReplicaClient,
};
use liters::error::{Error, StorageError};
use liters::ffi::{
    map_error, ClientConfig, LitersError, MaintenanceSummary, PushSummary, Storage, SyncSummary,
};
use liters::io::{ErrorKind, IoError};
use liters::ltx::{FileInfo, Txid};
use liters::meta::{
    id_of_bytes, is_tmp_file, max_l0_txid, prune_l0, read_sync_state, read_verified_pos, writer_id,
    write_sync_state, write_verified_pos, MetaDir, WriterId,
};
use liters::paths::join_path;
use liters::replica::SyncResult;
use liters::s3::{
    check_length, dated, found_files, map_err, read_range, timestamp_metadata, with_metadata,
    ReadRange, S3Config, S3Object, S3ReplicaClient,
};
use liters::writer::PushResult;

fn names(v: &[&str]) -> Vec<String> {
    v.iter().map(|s| s.to_string()).collect()
}

#[test]
fn paths_join_with_slashes() {
    assert_eq!(join_path("a", "b"), "a/b");
    assert_eq!(join_path("a/", "b"), "a/b");
    assert_eq!(join_path("", "b"), "b");
    assert_eq!(join_path("a", "/b"), "/b");
}

#[test]
fn meta_directories_lie_beside_the_database() {
    let m = MetaDir::for_db("data/app.db");
    assert_eq!(m.root(), "data/.app.db-litestream");
    assert_eq!(m.l0_dir(), "data/.app.db-litestream/ltx/0");
    assert_eq!(
        m.l0_path(Txid(2)),
        "data/.app.db-litestream/ltx/0/0000000000000002-0000000000000002.ltx"
    );
    assert_eq!(MetaDir::for_db("app.db").root(), ".app.db-litestream");
    assert_eq!(MetaDir::for_db("/app.db").root(), "/.app.db-litestream");
    assert_eq!(MetaDir::for_db("a/b/../app.db").root(), "a/b/../.app.db-litestream");
    assert_eq!(m.file("sync-state"), "data/.app.db-litestream/sync-state");
}

#[test]
fn staging_files_are_known_by_extension() {
    assert!(is_tmp_file("0000000000000001-0000000000000001.ltx.tmp"));
    assert!(is_tmp_file("..tmp"));
    assert!(!is_tmp_file(".tmp"));
    assert!(!is_tmp_file("tmp"));
    assert!(!is_tmp_file("a.tmpx"));
}

#[test]
fn the_newest_local_file_is_never_pruned() {
    let v = names(&[
        "0000000000000002-0000000000000002.ltx",
        "junk",
        "0000000000000001-0000000000000001.ltx",
        "0000000000000003-0000000000000003.ltx",
    ]);
    assert_eq!(max_l0_txid(&v), Some(Txid(3)));
    assert_eq!(prune_l0(&v, Txid(2)), [2]);
    assert_eq!(prune_l0(&v, Txid(100)), [0, 2]);
    assert_eq!(max_l0_txid(&names(&["junk"])), None);
}

#[test]
fn recorded_positions_read_back() {
    assert_eq!(write_sync_state(1234), "1234\n");
    assert_eq!(read_sync_state("1234\n"), 1234);
    assert_eq!(read_sync_state("  77 more"), 77);
    assert_eq!(read_sync_state("x"), 0);
    assert_eq!(read_sync_state(""), 0);
    assert_eq!(read_sync_state("18446744073709551616"), 0);
    assert_eq!(write_verified_pos(Txid(16)), "0000000000000010\n");
    assert_eq!(read_verified_pos("0000000000000010\n"), Some(Txid(16)));
    assert_eq!(read_verified_pos("16"), None);
}

#[test]
fn writer_id_is_generated_once_and_stable() {
    let missing = || Err(IoError::new(ErrorKind::NotFound, "no such file"));
    let id = match writer_id(missing()).unwrap() {
        WriterId::Fresh(id) => id,
        other => panic!("{other:?}"),
    };
    assert_eq!(id.len(), 32);
    assert!(id.bytes().all(|b| b.is_ascii_hexdigit()));

    // What was stored is read back as it is.
    for _ in 0..2 {
        match writer_id(Ok(format!("{id}\n"))).unwrap() {
            WriterId::Kept(k) => assert_eq!(k, id),
            other => panic!("{other:?}"),
        }
    }

    // Another one is another one, and a broken file is replaced.
    match writer_id(missing()).unwrap() {
        WriterId::Fresh(other) => assert_ne!(other, id),
        other => panic!("{other:?}"),
    }
    for bad in ["", "  \n", "two words", "\u{fc}"] {
        assert!(matches!(writer_id(Ok(bad.to_string())), Ok(WriterId::Fresh(_))), "{bad:?}");
    }
    assert!(matches!(writer_id(Ok("x".repeat(129))), Ok(WriterId::Fresh(_))));
    assert!(matches!(writer_id(Ok("x".repeat(128))), Ok(WriterId::Kept(_))));
    let denied = Err(IoError::new(ErrorKind::PermissionDenied, "denied"));
    assert!(matches!(writer_id(denied), Err(Error::Io(_))));
    assert_eq!(id_of_bytes(&vec![0, 0x1f, 0xff]), "001fff");
}

// ---------------------------------------------------------------------------
// Directories

fn entry(name: &str, size: u64) -> DirEntry {
    DirEntry { name: name.to_string(), size, modified: Some(5) }
}

#[test]
fn layout_and_listing() {
    let client = DirReplicaClient::new("replica");
    assert_eq!(client.root(), "replica");
    assert!(ltx_files(&Vec::new(), 0, Txid(0)).is_empty());
    assert_eq!(
        client.ltx_path(0, Txid(1), Txid(1)),
        "replica/ltx/0/0000000000000001-0000000000000001.ltx"
    );
    assert_eq!(client.level_dir(9), "replica/ltx/9");
    assert_eq!(
        client.tmp_path(0, Txid(1), Txid(1), 42, 7),
        "replica/ltx/0/0000000000000001-0000000000000001.ltx.42-7.tmp"
    );

    let ts = 1_720_000_000_123i64;
    assert_eq!(header_time(ts), ts as i128 * 1_000_000);
    assert_eq!(header_time(-5), 0);
    let info = stored_info(0, Txid(1), Txid(1), 10, ts);
    assert_eq!(info.created_at, Some(ts as i128 * 1_000_000));

    let entries = vec![
        entry("0000000000000002-0000000000000002.ltx", 20),
        entry("0000000000000001-0000000000000001.ltx.42-7.tmp", 3),
        entry("0000000000000001-0000000000000001.ltx", 10),
        entry("stray", 1),
    ];
    let all = ltx_files(&entries, 0, Txid(0));
    assert_eq!(all.len(), 2);
    assert_eq!((all[0].min_txid, all[0].size), (Txid(1), 10));
    assert_eq!((all[1].min_txid, all[1].size), (Txid(2), 20));

    let seeked = ltx_files(&entries, 0, Txid(2));
    assert_eq!(seeked.len(), 1);
    assert_eq!(seeked[0].min_txid, Txid(2));
}

#[test]
fn missing_files_are_told_apart() {
    let gone = || IoError::new(ErrorKind::NotFound, "gone");
    let denied = || IoError::new(ErrorKind::PermissionDenied, "denied");
    assert!(matches!(
        open_failure(1, Txid(2), Txid(3), gone()),
        StorageError::NotFound { level: 1, min_txid: Txid(2), max_txid: Txid(3) }
    ));
    assert!(matches!(open_failure(1, Txid(2), Txid(3), denied()), StorageError::Io(_)));
    assert!(matches!(unless_missing(Ok(())), Ok(true)));
    assert!(matches!(unless_missing(Err(gone())), Ok(false)));
    assert!(unless_missing(Err(denied())).is_err());
}

// ---------------------------------------------------------------------------
// Object storage

fn bucket(prefix: &str) -> S3ReplicaClient {
    S3ReplicaClient::new(&S3Config { prefix: prefix.into(), ..S3Config::default() })
}

#[test]
fn object_keys_are_laid_out_by_level() {
    let b = bucket("/apps/one/");
    assert_eq!(b.level_prefix(0), "apps/one/0000");
    assert_eq!(
        b.ltx_key(9, Txid(1), Txid(255)),
        "apps/one/0009/0000000000000001-00000000000000ff.ltx"
    );
    assert_eq!(b.bucket_prefix().as_deref(), Some("apps/one"));
    let b = bucket("");
    assert_eq!(b.level_prefix(16), "0010");
    assert_eq!(b.bucket_prefix(), None);
}

#[test]
fn unusual_prefixes_are_encoded() {
    assert_eq!(bucket("a//b").level_prefix(0), "a/b/0000");
    assert_eq!(bucket("a%b").level_prefix(0), "a%25b/0000");
    assert_eq!(bucket("..").level_prefix(0), "%2E%2E/0000");
}

#[test]
fn objects_are_listed_by_their_names() {
    let objects = vec![
        S3Object { key: "p/0000/0000000000000003-0000000000000003.ltx".into(), size: 3, modified: 9 },
        S3Object { key: "p/0000/readme".into(), size: 1, modified: 9 },
        S3Object { key: "0000000000000001-0000000000000001.ltx".into(), size: 1, modified: 8 },
    ];
    let found = found_files(&objects, 0, Txid(0));
    assert_eq!(found.iter().map(|f| f.min_txid.0).collect::<Vec<_>>(), [3, 1]);
    assert_eq!(found[1].created_at, Some(8));
    assert_eq!(found_files(&objects, 0, Txid(2)).len(), 1);
    let meta = vec![Some("1970-01-01T00:00:01.5Z".to_string()), None];
    let listed = liters::s3::ltx_files(&found, &meta);
    assert_eq!(listed.iter().map(|f| f.min_txid.0).collect::<Vec<_>>(), [1, 3]);
    assert_eq!(listed[0].created_at, Some(8));
    assert_eq!(listed[1].created_at, Some(1_500_000_000));
}

#[test]
fn timestamps_read_back_from_metadata() {
    let f = FileInfo { created_at: Some(1), ..FileInfo::default() };
    for ms in [0i64, 1, 1_500, 1_783_800_000_123, 253_402_300_799_999] {
        let m = timestamp_metadata(ms).unwrap();
        assert_eq!(with_metadata(f, Some(&m)).created_at, Some(ms as i128 * 1_000_000), "{m}");
    }
    assert_eq!(timestamp_metadata(0).as_deref(), Some("1970-01-01T00:00:00Z"));
    assert_eq!(timestamp_metadata(-1).as_deref(), Some("1970-01-01T00:00:00Z"));
    assert_eq!(
        timestamp_metadata(1_783_800_000_123).as_deref(),
        Some("2026-07-11T20:00:00.123Z")
    );
    assert_eq!(timestamp_metadata(i64::MAX), None);
    assert_eq!(
        with_metadata(f, Some("1969-12-31T23:59:59.5Z")).created_at,
        Some(-500_000_000)
    );
    assert_eq!(
        with_metadata(f, Some("2026-07-11T22:00:00+02:00")).created_at,
        Some(1_783_800_000_000 * 1_000_000)
    );
    assert_eq!(with_metadata(f, Some("yesterday")), f);
    assert_eq!(with_metadata(f, None), f);
    assert_eq!(dated(f, Some((2, 5))).created_at, Some(2_000_000_005));
}

#[test]
fn read_ranges() {
    assert_eq!(read_range(0, 0), ReadRange::Whole);
    assert_eq!(read_range(5, 0), ReadRange::From(5));
    assert_eq!(read_range(5, 2), ReadRange::Bounded(5, 7));
    assert_eq!(read_range(0, 2), ReadRange::Bounded(0, 2));
}

#[test]
fn object_store_failures() {
    assert!(check_length(100).is_ok());
    assert_eq!(check_length(99).unwrap_err().message(), "ltx file shorter than header");
    assert!(matches!(
        map_err(true, "x", 1, Txid(2), Txid(3)),
        StorageError::NotFound { level: 1, .. }
    ));
    assert_eq!(map_err(false, "x", 1, Txid(2), Txid(3)).message(), "x");
}

// ---------------------------------------------------------------------------
// The surface for applications

#[test]
fn errors_fall_into_three_kinds() {
    let e = Error::Diverged { local: Txid(5), remote: Txid(3) };
    match map_error(&e) {
        LitersError::Diverged { message } => assert_eq!(message, e.message()),
        other => panic!("{other:?}"),
    }
    let e = Error::Storage(StorageError::Unavailable("down".into()));
    let m = map_error(&e);
    assert!(matches!(m, LitersError::Storage { .. }));
    assert_eq!(m.message(), "storage: storage: storage unavailable: down");
    let m = map_error(&Error::Cancelled);
    assert!(matches!(m, LitersError::Other { .. }));
}

#[test]
fn storage_choices_become_clients() {
    match (Storage::Dir { path: "b".into() }).into_client().unwrap() {
        ClientConfig::Dir(c) => assert_eq!(c.root(), "b"),
        other => panic!("{other:?}"),
    }
    match (Storage::Http { url: "http://h:1/x/".into() }).into_client().unwrap() {
        ClientConfig::Http(c) => assert_eq!(c.base_url, "http://h:1/x"),
        other => panic!("{other:?}"),
    }
    assert!((Storage::Http { url: "ftp://h".into() }).into_client().is_err());
    let s3 = Storage::S3 {
        bucket: "b".into(),
        prefix: "p".into(),
        endpoint: None,
        region: Some("r".into()),
        access_key_id: None,
        secret_access_key: None,
        force_path_style: true,
        allow_http: false,
    };
    match s3.into_client().unwrap() {
        ClientConfig::S3(c) => {
            assert_eq!((c.bucket.as_str(), c.prefix.as_str()), ("b", "p"));
            assert!(c.force_path_style && !c.allow_http);
        }
        other => panic!("{other:?}"),
    }
}

#[test]
fn summaries_carry_the_numbers() {
    let p = PushSummary::of(PushResult {
        txid: Txid(4),
        synced: true,
        uploaded: 2,
        remote_txid: Txid(4),
        checkpointed: false,
    });
    assert_eq!((p.txid, p.uploaded, p.remote_txid), (4, 2, 4));
    let s = SyncSummary::of(SyncResult { restored: true, from_txid: Txid(0), to_txid: Txid(7) });
    assert_eq!((s.restored, s.from_txid, s.to_txid), (true, 0, 7));
    let m = MaintenanceSummary::of(MaintenanceReport {
        compacted_levels: vec![1, 2],
        snapshot: Some(Txid(7)),
        deleted: 5,
    });
    assert_eq!(m.compacted_levels, [1, 2]);
    assert_eq!((m.snapshot_txid, m.deleted_files), (Some(7), 5));
}

#[test]
fn error_messages() {
    let cases: Vec<(Error, &str)> = vec![
        (Error::Cancelled, "operation cancelled"),
        (
            Error::Storage(StorageError::NotFound {
                level: 2,
                min_txid: Txid(1),
                max_txid: Txid(2),
            }),
            "storage: ltx file not found: L2 0000000000000001-0000000000000002",
        ),
        (Error::Other("x".into()), "x"),
    ];
    for (e, want) in cases {
        assert_eq!(e.message(), want);
    }
    assert!(Error::Storage(StorageError::Unavailable("x".into())).is_transient());
    assert!(Error::Io(IoError::new(ErrorKind::Other, "x")).is_transient());
    assert!(!Error::Storage(StorageError::Conflict("x".into())).is_transient());
    assert!(!Error::Cancelled.is_transient());
    assert!(matches!(Error::from(StorageError::Cancelled), Error::Cancelled));
}
