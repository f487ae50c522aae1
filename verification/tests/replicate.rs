//! Restore plans, incremental syncs, following, restores and applications.
use liters::error::{Error, StorageError};
use liters::follow::{Follow, FollowAction, FollowEvent, Wait};
use liters::listing::{listing_line, parse_listing, parse_listing_line, render_listing, sort_listing};
use liters::ltx::{
    format_filename, is_contiguous, lock_pgno, parse_filename, FileInfo, Txid,
};
use liters::plan::{calc_restore_plan, candidate_better};
use liters::replica::{
    after_incremental, after_restore, check_plan, check_verdict, page_size_of, parse_sidecar, reset_paths,
    sidecar_text, sync_start, txid_path, IntegrityCheck, SyncNext, SyncStart,
};
use liters::restore::{
    ApplyAction, ApplyEvent, ApplyRun, FileHeader, RestoreAction, RestoreEvent, RestoreRun,
};
use liters::storage::{max_ltx_file_info, StreamEvent};
use liters::sync::{IncrementalSync, SyncAction};

fn info(level: u8, min: u64, max: u64) -> FileInfo {
    FileInfo { level, min_txid: Txid(min), max_txid: Txid(max), ..Default::default() }
}

fn sized(level: u8, min: u64, max: u64) -> FileInfo {
    FileInfo { size: 200, ..info(level, min, max) }
}

#[test]
fn equal_candidates_not_better() {
    let a = info(1, 1, 5);
    assert!(!candidate_better(&a, &a.clone()));
}

#[test]
fn prefers_wider_coverage_then_lower_min_then_higher_level() {
    assert!(candidate_better(&info(1, 1, 5), &info(1, 1, 9)));
    assert!(candidate_better(&info(1, 3, 9), &info(1, 1, 9)));
    assert!(candidate_better(&info(1, 1, 9), &info(2, 1, 9)));
}

fn levels(files: &[FileInfo]) -> Vec<Vec<FileInfo>> {
    let mut v = vec![Vec::new(); 9];
    for f in files {
        v[f.level as usize].push(*f);
    }
    v
}

fn ranges(plan: &[FileInfo]) -> Vec<(u8, u64, u64)> {
    plan.iter().map(|f| (f.level, f.min_txid.0, f.max_txid.0)).collect()
}

#[test]
fn a_plan_starts_at_the_newest_snapshot_and_goes_on() {
    let snaps = vec![info(9, 1, 3), info(9, 1, 6)];
    let ls = levels(&[info(0, 7, 7), info(0, 8, 8), info(1, 5, 7)]);
    let plan = calc_restore_plan(&snaps, &ls, Txid(0)).unwrap();
    assert_eq!(plan[0], info(9, 1, 6));
    assert_eq!(plan.last().unwrap().max_txid, Txid(8));
}

#[test]
fn a_plan_has_no_holes() {
    let ls = levels(&[info(0, 1, 1), info(0, 2, 2), info(0, 4, 4)]);
    assert!(calc_restore_plan(&Vec::new(), &ls, Txid(0)).is_err());
    let ls = levels(&[info(0, 1, 1), info(0, 2, 2), info(0, 4, 4), info(1, 1, 3)]);
    let plan = calc_restore_plan(&Vec::new(), &ls, Txid(0)).unwrap();
    assert_eq!(ranges(&plan), [(1, 1, 3), (0, 4, 4)]);
}

#[test]
fn a_hole_is_named_by_the_highest_level() {
    let files = [info(0, 1, 2), info(0, 5, 5), info(1, 7, 8), info(1, 9, 9), info(2, 1, 2)];
    let e = calc_restore_plan(&Vec::new(), &levels(&files), Txid(0)).unwrap_err();
    assert_eq!(
        e.message(),
        "non-contiguous ltx files: have up to 0000000000000002 \
         but next file starts at 0000000000000007"
    );
}

#[test]
fn an_empty_bucket_has_no_plan() {
    assert!(matches!(
        calc_restore_plan(&Vec::new(), &levels(&[]), Txid(0)),
        Err(Error::TxNotAvailable)
    ));
}

#[test]
fn a_plan_can_stop_at_a_transaction() {
    let snaps = vec![info(9, 1, 2), info(9, 1, 9)];
    let ls = levels(&[info(0, 3, 3), info(0, 4, 4), info(0, 5, 5)]);
    let plan = calc_restore_plan(&snaps, &ls, Txid(4)).unwrap();
    assert_eq!(ranges(&plan), [(9, 1, 2), (0, 3, 3), (0, 4, 4)]);
}

/// Runs an incremental sync over listings in memory.
fn run_sync(files: &[FileInfo], from: u64, missing: &[(u8, u64)]) -> (Result<Txid, Error>, Vec<(u8, u64, u64)>, Option<Txid>) {
    let mut s = IncrementalSync::new(Txid(from));
    let mut applied = Vec::new();
    let mut recorded = None;
    loop {
        match s.action() {
            SyncAction::List { level, seek } => s.listed(
                files
                    .iter()
                    .filter(|f| f.level == level && f.min_txid.0 >= seek.0)
                    .copied()
                    .collect(),
            ),
            SyncAction::CheckCancel => s.clear(),
            SyncAction::Apply(f) => {
                if missing.contains(&(f.level, f.min_txid.0)) {
                    s.missing();
                } else {
                    applied.push((f.level, f.min_txid.0, f.max_txid.0));
                    s.applied();
                }
            }
            SyncAction::Persist(t) => {
                recorded = Some(t);
                s.persisted();
            }
            SyncAction::Finish(r) => return (r, applied, recorded),
        }
    }
}

#[test]
fn a_sync_applies_what_continues_the_position() {
    let files = [info(0, 3, 3), info(0, 4, 4)];
    let (r, applied, recorded) = run_sync(&files, 2, &[]);
    assert!(matches!(r, Ok(Txid(4))));
    assert_eq!(applied, [(0, 3, 3), (0, 4, 4)]);
    assert_eq!(recorded, Some(Txid(4)));
}

#[test]
fn a_gap_is_bridged_through_higher_levels() {
    let files = [info(0, 6, 6), info(1, 3, 5)];
    let (r, applied, _) = run_sync(&files, 2, &[]);
    assert!(matches!(r, Ok(Txid(6))));
    assert_eq!(applied, [(1, 3, 5), (0, 6, 6)]);
}

#[test]
fn a_snapshot_is_the_last_resort() {
    let files = [info(9, 1, 8)];
    let (r, applied, recorded) = run_sync(&files, 2, &[]);
    assert!(matches!(r, Ok(Txid(8))));
    assert_eq!(applied, [(9, 1, 8)]);
    assert_eq!(recorded, Some(Txid(8)));
}

#[test]
fn divergence_needs_files_that_end_below_the_position() {
    let (r, _, _) = run_sync(&[info(0, 1, 3)], 5, &[]);
    assert!(matches!(r, Err(Error::Diverged { local: Txid(5), remote: Txid(3) })));
    let (r, applied, recorded) = run_sync(&[], 5, &[]);
    assert!(matches!(r, Ok(Txid(5))));
    assert!(applied.is_empty() && recorded.is_none());
}

#[test]
fn a_missing_file_only_delays() {
    let files = [info(0, 3, 3), info(9, 1, 8)];
    let (r, applied, recorded) = run_sync(&files, 2, &[(0, 3)]);
    assert!(matches!(r, Ok(Txid(2))), "{r:?}");
    assert!(applied.is_empty() && recorded.is_none());
}

#[test]
fn a_missing_database_is_restored_and_a_bare_one_refused() {
    assert!(matches!(sync_start(false, Txid(7), false, "r.db"), SyncStart::Restore(Txid(0))));
    assert!(matches!(sync_start(true, Txid(7), false, "r.db"), SyncStart::Incremental(Txid(7))));
    assert!(matches!(sync_start(true, Txid(0), true, "r.db"), SyncStart::Restore(Txid(0))));
    match sync_start(true, Txid(0), false, "r.db") {
        SyncStart::Refuse(e) => assert_eq!(
            e.message(),
            "replica exists but has no -txid sidecar; delete r.db to re-restore"
        ),
        other => panic!("{other:?}"),
    }
}

#[test]
fn a_restoring_sync_says_so() {
    let r = after_restore(Txid(3), Ok(Txid(9))).unwrap();
    assert!(r.restored);
    assert_eq!((r.from_txid, r.to_txid), (Txid(3), Txid(9)));
    assert!(matches!(after_restore(Txid(3), Err(Error::Cancelled)), Err(Error::Cancelled)));
}

#[test]
fn divergence_restores_only_when_told_to() {
    let diverged = || Err(Error::Diverged { local: Txid(5), remote: Txid(3) });
    assert!(matches!(after_incremental(Txid(5), diverged(), true), SyncNext::Restore(Txid(5))));
    assert!(matches!(
        after_incremental(Txid(5), diverged(), false),
        SyncNext::Finish(Err(Error::Diverged { .. }))
    ));
    match after_incremental(Txid(5), Ok(Txid(9)), false) {
        SyncNext::Finish(Ok(r)) => {
            assert_eq!((r.restored, r.from_txid, r.to_txid), (false, Txid(5), Txid(9)))
        }
        other => panic!("{other:?}"),
    }
}

// ---------------------------------------------------------------------------
// Restoring

#[test]
fn a_restore_installs_only_a_whole_image() {
    let plan = vec![sized(9, 1, 4), sized(0, 5, 5)];
    let (mut run, mut action) = RestoreRun::new();
    let mut steps = Vec::new();
    let to = loop {
        steps.push(format!("{action:?}").split(['(', ' ']).next().unwrap().to_string());
        let ev = match action {
            RestoreAction::Plan => RestoreEvent::Planned(Ok(plan.clone())),
            RestoreAction::Finish(r) => break r.unwrap(),
            _ => RestoreEvent::Done(Ok(())),
        };
        let (r, a) = run.step(ev, false);
        run = r;
        action = a;
    };
    assert_eq!(to, Txid(5));
    assert_eq!(
        steps,
        [
            "Plan", "Open", "Open", "Merge", "Materialize", "Install", "CheckIntegrity", "Record",
            "Finish"
        ]
    );
}

#[test]
fn a_cancelled_restore_installs_nothing() {
    let (run, _) = RestoreRun::new();
    let (_, a) = run.step(RestoreEvent::Planned(Ok(vec![sized(9, 1, 4)])), true);
    assert!(matches!(a, RestoreAction::Finish(Err(Error::Cancelled))));

    let (run, _) = RestoreRun::new();
    let (run, _) = run.step(RestoreEvent::Planned(Ok(vec![sized(9, 1, 4)])), false);
    let (run, _) = run.step(RestoreEvent::Done(Ok(())), false);
    let (run, a) = run.step(RestoreEvent::Done(Ok(())), false);
    assert!(matches!(a, RestoreAction::Materialize));
    let (_, a) = run.step(RestoreEvent::Done(Ok(())), true);
    assert!(matches!(a, RestoreAction::Finish(Err(Error::Cancelled))));
}

#[test]
fn a_file_too_small_for_a_header_stops_a_restore() {
    let small = FileInfo { size: 99, ..info(0, 5, 5) };
    let (run, _) = RestoreRun::new();
    let (_, a) = run.step(RestoreEvent::Planned(Ok(vec![sized(9, 1, 4), small])), false);
    match a {
        RestoreAction::Finish(Err(e)) => assert_eq!(
            e.message(),
            "invalid ltx file: level=0 min=0000000000000005 max=0000000000000005 has size 99 bytes"
        ),
        other => panic!("{other:?}"),
    }
    assert!(check_plan(&vec![sized(9, 1, 4)]).is_ok());
}

#[test]
fn an_application_verifies_first_and_fixes_up_page_one() {
    let (run, a) = ApplyRun::new(512, true);
    assert!(matches!(a, ApplyAction::Verify));
    let (run, a) = run.step(ApplyEvent::Done(Ok(())));
    assert!(matches!(a, ApplyAction::ReadHeader));
    let hdr = FileHeader { page_size: 512, commit: 3, min_txid: Txid(2), max_txid: Txid(2) };
    let (run, a) = run.step(ApplyEvent::Header(Ok(hdr)));
    assert!(matches!(a, ApplyAction::Lock));
    let (run, _) = run.step(ApplyEvent::Done(Ok(())));
    let (run, a) = run.step(ApplyEvent::Page(Ok(Some((1, vec![7u8; 512])))));
    match a {
        ApplyAction::WritePage(0, data) => {
            assert_eq!((data[18], data[19]), (1, 1));
            assert_eq!((data[17], data[20], data[23], data[28]), (7, 7, 7, 7));
        }
        other => panic!("{other:?}"),
    }
    let (run, _) = run.step(ApplyEvent::Done(Ok(())));
    let (run, a) = run.step(ApplyEvent::Page(Ok(Some((3, vec![9u8; 512])))));
    match a {
        ApplyAction::WritePage(1024, data) => assert_eq!(data, vec![9u8; 512]),
        other => panic!("{other:?}"),
    }
    let (run, _) = run.step(ApplyEvent::Done(Ok(())));
    let (run, a) = run.step(ApplyEvent::Page(Ok(None)));
    assert!(matches!(a, ApplyAction::SetLen(1536)));
    let (run, a) = run.step(ApplyEvent::Done(Ok(())));
    assert!(matches!(a, ApplyAction::EndDecode));
    let (run, a) = run.step(ApplyEvent::Done(Ok(())));
    assert!(matches!(a, ApplyAction::Flush));
    let (_, a) = run.step(ApplyEvent::Done(Ok(())));
    assert!(matches!(a, ApplyAction::Finish(Ok(()))));
}

#[test]
fn another_page_size_means_divergence() {
    let (run, _) = ApplyRun::new(512, false);
    let (run, _) = run.step(ApplyEvent::Done(Ok(())));
    let hdr = FileHeader { page_size: 4096, commit: 3, min_txid: Txid(2), max_txid: Txid(4) };
    let (_, a) = run.step(ApplyEvent::Header(Ok(hdr)));
    assert!(matches!(
        a,
        ApplyAction::Finish(Err(Error::Diverged { local: Txid(2), remote: Txid(4) }))
    ));
}

#[test]
fn change_counters_are_random() {
    let counter = || {
        let (run, _) = ApplyRun::new(512, false);
        let (run, _) = run.step(ApplyEvent::Done(Ok(())));
        let hdr = FileHeader { page_size: 512, commit: 1, min_txid: Txid(1), max_txid: Txid(1) };
        let (run, _) = run.step(ApplyEvent::Header(Ok(hdr)));
        match run.step(ApplyEvent::Page(Ok(Some((1, vec![0u8; 512]))))).1 {
            ApplyAction::WritePage(_, data) => data[24..28].to_vec(),
            other => panic!("{other:?}"),
        }
    };
    let seen: Vec<Vec<u8>> = (0..8).map(|_| counter()).collect();
    assert!(seen.iter().any(|c| c != &seen[0]), "{seen:?}");
}

// ---------------------------------------------------------------------------
// Following

#[test]
fn following_applies_stream_files_and_records_them() {
    let (f, a) = Follow::new(true);
    assert!(matches!(a, FollowAction::PollCancel));
    let (f, a) = f.step(FollowEvent::Cancelled(false));
    assert!(matches!(a, FollowAction::ReadPosition));
    let (f, a) = f.step(FollowEvent::Position(Ok(Txid(3))));
    assert!(matches!(a, FollowAction::Sync));
    let (f, _) = f.step(FollowEvent::Synced(Ok(())));
    let (f, a) = f.step(FollowEvent::Position(Ok(Txid(3))));
    assert!(matches!(a, FollowAction::OpenStream(Txid(4))));
    let (f, a) = f.step(FollowEvent::StreamOpened(Ok(true)));
    assert!(matches!(a, FollowAction::OpenDb));
    let (f, a) = f.step(FollowEvent::DbOpened(Ok(())));
    assert!(matches!(a, FollowAction::PollCancel));
    let (f, a) = f.step(FollowEvent::Cancelled(false));
    assert!(matches!(a, FollowAction::NextEvent));
    let (f, a) = f.step(FollowEvent::Streamed(Ok(StreamEvent::Ltx(info(0, 4, 4)))));
    assert!(matches!(a, FollowAction::Apply));
    let (f, a) = f.step(FollowEvent::Applied(Ok(())));
    assert!(matches!(a, FollowAction::Record(Txid(4))));
    let (f, a) = f.step(FollowEvent::Recorded(Ok(())));
    assert!(matches!(a, FollowAction::PollCancel));
    let (f, a) = f.step(FollowEvent::Cancelled(true));
    assert!(matches!(a, FollowAction::CloseStream), "{a:?}");
    let (_, a) = f.step(FollowEvent::Closed);
    assert!(matches!(a, FollowAction::Stop(Ok(()))), "{a:?}");
}

#[test]
fn an_empty_bucket_is_polled_and_failures_back_off() {
    let start = || {
        let (f, _) = Follow::new(true);
        let (f, _) = f.step(FollowEvent::Cancelled(false));
        f.step(FollowEvent::Position(Ok(Txid(0)))).0
    };
    let (_, a) = start().step(FollowEvent::Synced(Err(Error::TxNotAvailable)));
    assert!(matches!(a, FollowAction::Sleep(Wait::Poll)));
    let gone = || Error::Storage(StorageError::Unavailable("x".into()));
    let (f, a) = start().step(FollowEvent::Synced(Err(gone())));
    assert!(matches!(a, FollowAction::Sleep(Wait::Backoff(0))));
    let (f, _) = f.step(FollowEvent::Slept(false));
    let (f, _) = f.step(FollowEvent::Cancelled(false));
    let (f, _) = f.step(FollowEvent::Position(Ok(Txid(0))));
    let (_, a) = f.step(FollowEvent::Synced(Err(gone())));
    assert!(matches!(a, FollowAction::Sleep(Wait::Backoff(1))));
    let (_, a) = start().step(FollowEvent::Synced(Err(Error::Cancelled)));
    assert!(matches!(a, FollowAction::Stop(Ok(()))));
    let (_, a) = start().step(FollowEvent::Synced(Err(Error::Other("bad".into()))));
    assert!(matches!(a, FollowAction::Stop(Err(Error::Other(_)))));
}

/// Follows a bucket without streams: every level-0 listing fails four times,
/// then shows the next file only. Tells the waits, up to the last position.
fn follow_bursts(files: &[FileInfo], fails_per_cycle: u32) -> (Vec<Wait>, u32, Txid) {
    let last = files.last().unwrap().max_txid;
    let (mut run, mut action) = Follow::new(true);
    let (mut waits, mut cycle, mut injected) = (Vec::new(), 0, 0);
    let mut position = Txid(0);
    loop {
        let ev = match action {
            FollowAction::PollCancel => FollowEvent::Cancelled(position == last),
            FollowAction::ReadPosition => FollowEvent::Position(Ok(position)),
            FollowAction::Sync => {
                if cycle < fails_per_cycle {
                    cycle += 1;
                    injected += 1;
                    let e = StorageError::Unavailable("injected burst failure".into());
                    FollowEvent::Synced(Err(e.into()))
                } else {
                    cycle = 0;
                    let next = files.iter().find(|f| f.min_txid > position).unwrap();
                    if position.is_zero() {
                        let plan =
                            calc_restore_plan(&Vec::new(), &levels(&[*next]), Txid(0)).unwrap();
                        position = check_plan(&plan).unwrap();
                    } else {
                        position = run_sync(&[*next], position.0, &[]).0.unwrap();
                    }
                    FollowEvent::Synced(Ok(()))
                }
            }
            FollowAction::OpenStream(_) => FollowEvent::StreamOpened(Ok(false)),
            FollowAction::Sleep(w) => {
                waits.push(w);
                FollowEvent::Slept(false)
            }
            FollowAction::Stop(r) => {
                r.expect("follow must survive transient bursts and stop cleanly");
                return (waits, injected, position);
            }
            other => panic!("{other:?}"),
        };
        (run, action) = run.step(ev);
    }
}

#[test]
fn follow_backoff_attempt_resets_on_progress() {
    let files: Vec<FileInfo> = (1..=20).map(|i| sized(0, i, i)).collect();
    let (waits, injected, position) = follow_bursts(&files, 4);
    assert_eq!(position, Txid(20));
    assert!(injected >= 40, "only {injected} transient failures injected");
    let attempts: Vec<u32> = waits
        .iter()
        .filter_map(|w| match w {
            Wait::Backoff(n) => Some(*n),
            Wait::Poll => None,
        })
        .collect();
    assert_eq!(attempts, [0u32, 1, 2, 3].repeat(20));
}

#[test]
fn reseed_detected_and_auto_reset() {
    // The bucket was wiped, and a new database pushed three transactions.
    let files: Vec<FileInfo> = (1..=3).map(|i| sized(0, i, i)).collect();
    let (outcome, applied, recorded) = run_sync(&files, 20, &[]);
    assert!(matches!(
        outcome,
        Err(Error::Diverged { local: Txid(20), remote: Txid(3) })
    ));
    assert!(applied.is_empty() && recorded.is_none());
    match after_incremental(Txid(20), outcome, true) {
        SyncNext::Restore(Txid(20)) => {}
        other => panic!("{other:?}"),
    }
    let plan = calc_restore_plan(&Vec::new(), &levels(&files), Txid(0)).unwrap();
    assert_eq!(check_plan(&plan).unwrap(), Txid(3));
}

#[test]
fn gap_bridged_after_l0_prune() {
    // Ten transactions, compacted into level 1; level 0 is pruned to its
    // newest file.
    let files = [sized(1, 1, 10), sized(0, 10, 10)];
    let (r, applied, recorded) = run_sync(&files, 5, &[]);
    assert!(matches!(r, Ok(Txid(10))));
    assert_eq!(applied, [(1, 1, 10)]);
    assert_eq!(recorded, Some(Txid(10)));
    let plan = calc_restore_plan(&Vec::new(), &levels(&files), Txid(0)).unwrap();
    assert_eq!(check_plan(&plan).unwrap(), Txid(10));
}

// ---------------------------------------------------------------------------
// Names, listings and sidecars

#[test]
fn file_names_state_their_transactions() {
    let name = format_filename(Txid(1), Txid(0x1f));
    assert_eq!(name, "0000000000000001-000000000000001f.ltx");
    assert_eq!(parse_filename(&name), Some((Txid(1), Txid(0x1f))));
    assert_eq!(parse_filename("0000000000000001-000000000000001F.ltx"), None);
    assert_eq!(parse_filename("1-2.ltx"), None);
    assert_eq!(parse_filename("0000000000000001-000000000000001f.ltx.tmp"), None);
}

#[test]
fn txids_are_sixteen_hex_digits() {
    assert_eq!(Txid::parse("00000000000000ff"), Some(Txid(255)));
    assert_eq!(Txid::parse("00000000000000FF"), Some(Txid(255)));
    assert_eq!(Txid::parse("ff"), None);
    assert_eq!(Txid::parse("00000000000000fg"), None);
    assert_eq!(Txid(255).text(), "00000000000000ff");
}

#[test]
fn contiguity_allows_overlap_and_no_gap() {
    assert!(is_contiguous(Txid(3), Txid(4), Txid(4)));
    assert!(is_contiguous(Txid(3), Txid(1), Txid(5)));
    assert!(!is_contiguous(Txid(3), Txid(5), Txid(5)));
    assert!(!is_contiguous(Txid(3), Txid(1), Txid(3)));
}

#[test]
fn the_lock_page_depends_on_the_page_size() {
    assert_eq!(lock_pgno(4096), 262145);
    assert_eq!(lock_pgno(65536), 16385);
}

#[test]
fn listing_lines_read_back() {
    let f = FileInfo { size: 7, created_at: Some(1_500_000_000), ..info(2, 3, 9) };
    let line = listing_line(&f);
    assert_eq!(line, "0000000000000003-0000000000000009.ltx 7 1500\n");
    assert_eq!(parse_listing_line(line.trim_end(), 2), Some(f));
    assert_eq!(parse_listing_line("0000000000000003-0000000000000009.ltx 7", 2), None);
    let files = vec![info(0, 1, 1), info(0, 2, 4)];
    assert_eq!(parse_listing(&render_listing(&files), 0), files);
}

#[test]
fn malformed_listing_lines_say_nothing() {
    let name = "0000000000000001-0000000000000001.ltx";
    let ok = |rest: &str| parse_listing_line(&format!("{name} {rest}"), 0);
    assert_eq!(ok("100 -").unwrap().created_at, None);
    assert_eq!(ok("100 7").unwrap().created_at, Some(7_000_000));
    assert!(ok("100 xyz").is_none());
    assert!(ok("100").is_none());
    assert!(ok("100 7 8").is_none());
    assert!(ok("x 7").is_none());
    assert!(parse_listing_line("bogus 100 -", 0).is_none());
}

#[test]
fn listings_are_sorted_by_first_then_last() {
    let v = sort_listing(vec![info(0, 3, 3), info(0, 1, 9), info(0, 1, 2)]);
    assert_eq!(ranges(&v), [(0, 1, 2), (0, 1, 9), (0, 3, 3)]);
    assert_eq!(max_ltx_file_info(&v).map(|f| f.max_txid), Some(Txid(9)));
    assert!(max_ltx_file_info(&Vec::new()).is_none());
}

#[test]
fn sidecars_read_back() {
    assert_eq!(txid_path("a/b.db"), "a/b.db-txid");
    let text = sidecar_text(Txid(0x2a));
    assert_eq!(text, "000000000000002a\n");
    assert!(matches!(parse_sidecar("p", &text), Ok(Txid(0x2a))));
    let e = parse_sidecar("p", "junk\n").unwrap_err();
    assert_eq!(e.message(), "parse txid file \"p\": \"junk\\n\"");
    assert_eq!(reset_paths("r.db"), ["r.db", "r.db-txid", "r.db.tmp", "r.db.apply.tmp"]);
}

#[test]
fn page_sizes_and_verdicts() {
    assert_eq!(page_size_of(0x10, 0), 4096);
    assert_eq!(page_size_of(0, 1), 65536);
    assert!(check_verdict("ok").is_ok());
    assert_eq!(
        check_verdict("row 1 missing").unwrap_err().message(),
        "post-restore integrity check failed: row 1 missing"
    );
    assert_eq!(IntegrityCheck::Quick.pragma(), Some("quick_check"));
    assert_eq!(IntegrityCheck::Off.pragma(), None);
}
