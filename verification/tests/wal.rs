use liters::db_header::DbHeader;
use liters::wal::{
    calc_wal_size, wal_checksum, WalError, WalReader, WAL_MAGIC_BE, WAL_VERSION,
};

#[test]
fn parse_rejects_garbage() {
    assert!(DbHeader::parse(&[0u8; 100]).is_none());
    assert!(DbHeader::parse(b"short").is_none());
}

#[test]
fn parse_page_size_one_means_64k() {
    let mut b = vec![0u8; 100];
    b[..16].copy_from_slice(b"SQLite format 3\0");
    b[16] = 0;
    b[17] = 1; // page size sentinel
    let h = DbHeader::parse(&b).unwrap();
    assert_eq!(h.page_size, 65536);
}

#[test]
fn header_fields_are_read() {
    let mut b = vec![0u8; 100];
    b[..16].copy_from_slice(b"SQLite format 3\0");
    b[16] = 0x10;
    b[18] = 2;
    b[19] = 2;
    b[24..28].copy_from_slice(&7u32.to_be_bytes());
    b[28..32].copy_from_slice(&3u32.to_be_bytes());
    let h = DbHeader::parse(&b).unwrap();
    assert_eq!((h.page_size, h.page_count, h.change_counter), (4096, 3, 7));
    assert_eq!((h.write_version, h.read_version), (2, 2));
}

const PAGE: usize = 512;

/// A log in memory, built frame by frame.
struct Log {
    bytes: Vec<u8>,
    sums: (u32, u32),
}

impl Log {
    fn new(salt1: u32, salt2: u32) -> Log {
        let mut h = Vec::new();
        h.extend_from_slice(&WAL_MAGIC_BE.to_be_bytes());
        h.extend_from_slice(&WAL_VERSION.to_be_bytes());
        h.extend_from_slice(&(PAGE as u32).to_be_bytes());
        h.extend_from_slice(&0u32.to_be_bytes());
        h.extend_from_slice(&salt1.to_be_bytes());
        h.extend_from_slice(&salt2.to_be_bytes());
        let sums = wal_checksum(true, 0, 0, &h);
        h.extend_from_slice(&sums.0.to_be_bytes());
        h.extend_from_slice(&sums.1.to_be_bytes());
        Log { bytes: h, sums }
    }

    fn frame(&mut self, pgno: u32, commit: u32, fill: u8) {
        let salts = self.bytes[16..24].to_vec();
        let mut h = Vec::new();
        h.extend_from_slice(&pgno.to_be_bytes());
        h.extend_from_slice(&commit.to_be_bytes());
        let data = vec![fill; PAGE];
        let s = wal_checksum(true, self.sums.0, self.sums.1, &h);
        self.sums = wal_checksum(true, s.0, s.1, &data);
        self.bytes.extend_from_slice(&h);
        self.bytes.extend_from_slice(&salts);
        self.bytes.extend_from_slice(&self.sums.0.to_be_bytes());
        self.bytes.extend_from_slice(&self.sums.1.to_be_bytes());
        self.bytes.extend_from_slice(&data);
    }
}

#[test]
fn page_map_reflects_committed_state() {
    let mut log = Log::new(1, 2);
    log.frame(1, 0, 0xa1);
    log.frame(2, 2, 0xa2);
    log.frame(1, 3, 0xb1);
    let frame = (24 + PAGE) as u64;
    let mut rd = WalReader::new(&log.bytes[..]).unwrap();
    assert_eq!(rd.page_size(), PAGE as u32);
    let pm = rd.page_map().unwrap();
    assert_eq!(pm.commit, 3);
    assert_eq!(pm.pages.len(), 2);
    assert_eq!(pm.pages[&1], 32 + 2 * frame);
    assert_eq!(pm.pages[&2], 32 + frame);
    assert_eq!(pm.max_offset, 32 + 3 * frame);
    assert_eq!(calc_wal_size(PAGE as u32, 3), 32 + 3 * frame);
}

#[test]
fn uncommitted_tail_excluded() {
    let mut log = Log::new(1, 2);
    log.frame(1, 1, 0xa1);
    let end = log.bytes.len() as u64;
    log.frame(2, 0, 0xa2);
    let mut rd = WalReader::new(&log.bytes[..]).unwrap();
    let pm = rd.page_map().unwrap();
    assert_eq!(pm.commit, 1);
    assert_eq!(pm.pages.len(), 1);
    assert_eq!(pm.max_offset, end);
}

#[test]
fn vacuum_shrink_drops_out_of_range_pages() {
    let mut log = Log::new(1, 2);
    log.frame(1, 0, 1);
    log.frame(5, 5, 5);
    log.frame(1, 2, 9);
    let mut rd = WalReader::new(&log.bytes[..]).unwrap();
    let pm = rd.page_map().unwrap();
    assert_eq!(pm.commit, 2);
    assert!(pm.pages.keys().all(|p| *p <= 2), "{:?}", pm.pages);
    assert!(pm.pages.contains_key(&1));
}

#[test]
fn the_map_ends_where_the_last_committed_frame_does() {
    let mut log = Log::new(1, 2);
    log.frame(1, 0, 1);
    log.frame(5, 2, 5);
    let end = log.bytes.len() as u64;
    let pm = WalReader::new(&log.bytes[..]).unwrap().page_map().unwrap();
    assert_eq!((pm.commit, pm.max_offset, pm.pages.len()), (2, end, 1));
}

#[test]
fn a_stale_tail_changes_nothing() {
    let mut log = Log::new(1, 2);
    log.frame(1, 1, 0xa1);
    let rd = WalReader::new(&log.bytes[..]).unwrap();
    assert_eq!((rd.seq, rd.salt1, rd.salt2), (0, 1, 2));
    let before = { rd }.page_map().unwrap();
    let mut old = Log::new(7, 8);
    old.frame(2, 2, 0xee);
    let mut bytes = log.bytes.clone();
    bytes.extend_from_slice(&old.bytes[32..]);
    let after = WalReader::new(&bytes[..]).unwrap().page_map().unwrap();
    assert_eq!(after.pages, before.pages);
    assert_eq!((after.commit, after.max_offset), (before.commit, before.max_offset));
}

#[test]
fn a_torn_frame_ends_the_log() {
    let mut log = Log::new(1, 2);
    log.frame(1, 1, 0xa1);
    let end = log.bytes.len();
    log.frame(2, 2, 0xa2);
    log.bytes[end + 100] ^= 1;
    let mut rd = WalReader::new(&log.bytes[..]).unwrap();
    let pm = rd.page_map().unwrap();
    assert_eq!((pm.commit, pm.max_offset), (1, end as u64));
}

#[test]
fn a_scan_resumes_where_it_stopped() {
    let mut log = Log::new(1, 2);
    log.frame(1, 1, 0xa1);
    let end = log.bytes.len() as u64;
    log.frame(2, 2, 0xa2);
    let mut rd = WalReader::with_offset(&log.bytes[..], end, 1, 2).unwrap();
    let pm = rd.page_map().unwrap();
    assert_eq!(pm.commit, 2);
    assert_eq!(pm.pages.len(), 1);
    assert_eq!(pm.pages[&2], end);

    assert!(matches!(
        WalReader::with_offset(&log.bytes[..], end, 9, 9),
        Err(WalError::PrevFrameMismatch)
    ));
    assert!(matches!(
        WalReader::with_offset(&log.bytes[..], end + 1, 1, 2),
        Err(WalError::UnalignedOffset { .. })
    ));
    assert!(matches!(
        WalReader::with_offset(&log.bytes[..], 32, 1, 2),
        Err(WalError::OffsetTooSmall(32))
    ));
}

#[test]
fn logs_without_a_header_are_refused() {
    let empty: [u8; 0] = [];
    assert!(matches!(WalReader::new(&empty[..]), Err(WalError::EmptyWal)));
    let mut log = Log::new(1, 2);
    log.bytes[0] = 0;
    assert!(matches!(WalReader::new(&log.bytes[..]), Err(WalError::InvalidMagic(_))));
}

#[test]
fn the_salts_of_all_generations_are_found() {
    let mut log = Log::new(1, 2);
    log.frame(1, 1, 0xa1);
    let mut rd = WalReader::new(&log.bytes[..]).unwrap();
    let salts = rd.frame_salts_until((9, 9)).unwrap();
    assert!(salts.contains(&(1, 2)), "{salts:?}");
}
