//! A database's history, written to a bucket and read back.
use liters::compaction::compact_range;
use liters::ltx::{FileInfo, Txid};
use liters::plan::calc_restore_plan;
use liters::sync::{IncrementalSync, SyncAction};
use liters::wal::{wal_checksum, WAL_MAGIC_BE, WAL_VERSION};
use liters::writer::{
    opened_state, plan_sync, read_full_at, PageSource, SyncInfo, SyncPlan,
};
use std::collections::BTreeMap;

const PAGE: usize = 512;

type Pages = BTreeMap<u32, u8>;

#[derive(Clone, Debug, PartialEq)]
struct Db {
    size: u32,
    pages: Pages,
}

/// The size after each transaction, and the pages that it wrote.
fn transactions() -> Vec<(u32, Vec<(u32, u8)>)> {
    vec![
        (3, vec![(1, 11), (2, 12), (3, 13)]),
        (3, vec![(2, 22)]),
        (4, vec![(1, 31), (4, 34)]),
        (2, vec![(1, 41)]),
        (2, vec![(2, 52)]),
        (3, vec![(1, 61), (3, 63)]),
    ]
}

fn apply(db: &mut Db, size: u32, pages: &Pages) {
    db.size = size;
    for (p, b) in pages {
        db.pages.insert(*p, *b);
    }
    db.pages.retain(|p, _| *p <= size);
}

fn states() -> Vec<Db> {
    let mut db = Db { size: 0, pages: Pages::new() };
    let mut r = vec![db.clone()];
    for (size, pages) in transactions() {
        apply(&mut db, size, &pages.into_iter().collect());
        r.push(db.clone());
    }
    r
}

fn info(level: u8, min: u64, max: u64) -> FileInfo {
    FileInfo { level, min_txid: Txid(min), max_txid: Txid(max), ..Default::default() }
}

/// What a file of these transactions holds.
fn holds(f: &FileInfo) -> (u32, Pages) {
    let all = transactions();
    let mut size = 0;
    let mut pages = Pages::new();
    for t in f.min_txid.0..=f.max_txid.0 {
        let (n, written) = &all[t as usize - 1];
        size = *n;
        pages.extend(written.iter().copied());
        pages.retain(|p, _| *p <= size);
    }
    (size, pages)
}

fn by_level(files: &[FileInfo]) -> Vec<Vec<FileInfo>> {
    (0..9).map(|l| files.iter().filter(|f| f.level == l).copied().collect()).collect()
}

#[test]
fn every_state_can_be_restored() {
    let mut files: Vec<FileInfo> = (1..=6).map(|t| info(0, t, t)).collect();
    files.push(info(1, 1, 3));
    files.push(info(1, 4, 5));
    files.push(info(2, 1, 5));
    let snapshots = vec![info(9, 1, 2), info(9, 1, 4)];
    let want = states();
    for target in 0..=6u64 {
        for snaps in [Vec::new(), snapshots.clone()] {
            let plan = calc_restore_plan(&snaps, &by_level(&files), Txid(target)).unwrap();
            let mut db = Db { size: 0, pages: Pages::new() };
            for f in &plan {
                let (size, pages) = holds(f);
                apply(&mut db, size, &pages);
            }
            let end = if target == 0 { 6 } else { target };
            assert_eq!(db, want[end as usize], "target {target}: {plan:?}");
        }
    }
}

#[test]
fn a_synced_replica_is_always_in_a_state_of_the_history() {
    let files = [info(0, 5, 5), info(0, 6, 6), info(1, 1, 2), info(1, 3, 4), info(9, 1, 4)];
    let want = states();
    for from in 1..=6u64 {
        let mut db = want[from as usize].clone();
        let mut s = IncrementalSync::new(Txid(from));
        let end = loop {
            match s.action() {
                SyncAction::List { level, seek } => s.listed(
                    files
                        .iter()
                        .filter(|f| f.level == level && f.min_txid.0 >= seek.0)
                        .copied()
                        .collect(),
                ),
                SyncAction::CheckCancel => s.clear(),
                SyncAction::Apply(f) => {
                    let (size, pages) = holds(&f);
                    apply(&mut db, size, &pages);
                    assert_eq!(db, want[f.max_txid.0 as usize], "{f:?}");
                    s.applied();
                }
                SyncAction::Persist(_) => s.persisted(),
                SyncAction::Finish(r) => break r.unwrap(),
            }
        };
        assert_eq!(end, Txid(6));
        assert_eq!(db, want[6]);
    }
}

#[test]
fn a_compacted_file_leads_where_its_sources_lead() {
    let want = states();
    let sources = vec![info(0, 2, 2), info(0, 3, 3), info(0, 4, 4)];
    assert_eq!(compact_range(&sources), Some((Txid(2), Txid(4))));
    let (size, pages) = holds(&info(1, 2, 4));
    for from in 1..=4usize {
        let mut db = want[from].clone();
        apply(&mut db, size, &pages);
        assert_eq!(db, want[4]);
    }
}

struct Log {
    bytes: Vec<u8>,
    sums: (u32, u32),
}

impl Log {
    fn new() -> Log {
        let mut h = Vec::new();
        for n in [WAL_MAGIC_BE, WAL_VERSION, PAGE as u32, 0, 1, 2] {
            h.extend_from_slice(&n.to_be_bytes());
        }
        let sums = wal_checksum(true, 0, 0, &h);
        h.extend_from_slice(&sums.0.to_be_bytes());
        h.extend_from_slice(&sums.1.to_be_bytes());
        Log { bytes: h, sums }
    }

    fn frame(&mut self, pgno: u32, commit: u32, byte: u8) {
        let mut h = Vec::new();
        h.extend_from_slice(&pgno.to_be_bytes());
        h.extend_from_slice(&commit.to_be_bytes());
        let data = vec![byte; PAGE];
        let s = wal_checksum(true, self.sums.0, self.sums.1, &h);
        self.sums = wal_checksum(true, s.0, s.1, &data);
        h.extend_from_slice(&1u32.to_be_bytes());
        h.extend_from_slice(&2u32.to_be_bytes());
        h.extend_from_slice(&self.sums.0.to_be_bytes());
        h.extend_from_slice(&self.sums.1.to_be_bytes());
        self.bytes.extend_from_slice(&h);
        self.bytes.extend_from_slice(&data);
    }
}

#[test]
fn syncs_of_a_growing_log_record_each_transaction() {
    let want = states();
    let mut log = Log::new();
    let mut offset = 32u64;
    let db_file: Vec<u8> = Vec::new();
    let mut db = want[0].clone();
    for (t, (size, written)) in transactions().into_iter().enumerate() {
        for (k, (pgno, byte)) in written.iter().enumerate() {
            let commit = if k + 1 == written.len() { size } else { 0 };
            log.frame(*pgno, commit, *byte);
        }
        for snapshotting in [false, true] {
            let info = SyncInfo {
                offset: if snapshotting { 32 } else { offset },
                salt1: 1,
                salt2: 2,
                snapshotting,
                clear_synced_to_wal_end: false,
            };
            let plan = plan_sync(
                &&log.bytes[..],
                0,
                PAGE as u32,
                Txid(t as u64),
                info,
                opened_state(0),
            )
            .unwrap();
            let p = match plan {
                SyncPlan::Encode(p) => p,
                other => panic!("{other:?}"),
            };
            let mut pages = Pages::new();
            for (pgno, src) in &p.pages {
                let data = match src {
                    PageSource::Wal(o) => read_full_at(&&log.bytes[..], PAGE as u32, *o).unwrap(),
                    PageSource::Db(o) => read_full_at(&&db_file[..], PAGE as u32, *o).unwrap(),
                };
                pages.insert(*pgno, data[0]);
            }
            if snapshotting {
                assert_eq!(Db { size: p.commit, pages }, want[t + 1]);
            } else {
                apply(&mut db, p.commit, &pages);
                assert_eq!(db, want[t + 1]);
                offset = p.wal_offset + p.wal_size as u64;
            }
        }
    }
}
