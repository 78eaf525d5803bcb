use send2me::messages::{preflight_reply, ProgressEvent, StreamMessage};
use send2me::transfers::SendProgress;
use send2me::paths::resolve_tilde;
use send2me::bonds::{new_bond, sync_folder_name, BondedDevice, LandingFault, SyncFolder, SyncManager};
use send2me::framing::{check_frame_len, frame, frame_len, unframe, FrameError};
use send2me::hardware::{severity_rank, LagMonitor, LagSeverity};
use send2me::history::{HistoryManager, HistoryRecord};
use send2me::paths::{is_leftover_tmp, resolve_downloads_dir, ExportConflict};
use send2me::receive::{
    abandon_plan, check_chunk, rename_step, stage_heartbeat_percent, ChunkFault, ReceiveState,
    RenameAction, RenameFailure, RenameOutcome, WakeOutcome,
};
use send2me::transfers::{
    bytes_per_second, eta_seconds, failed_send_status, has_enough_space, history_status, is_orphan,
    preflight_outcome, status_after_progress, status_on_close, toggle_pause, LiveTransfer, PreFlight,
    TransferStatus, Volume, NO_SPACE_ETA,
};

#[test]
fn frames_round_trip_and_refuse() {
    let f = frame(b"abc");
    assert_eq!(f, vec![0, 0, 0, 3, b'a', b'b', b'c']);
    let mut buf = f.clone();
    buf.extend_from_slice(b"rest");
    assert_eq!(unframe(&buf, 10), Ok((b"abc".to_vec(), 7)));
    assert_eq!(unframe(&buf, 2), Err(FrameError::TooLarge { len: 3, max: 2 }));
    assert_eq!(unframe(&f[..5], 10), Err(FrameError::Incomplete));
    assert_eq!(frame_len([0, 1, 0, 0]), 65536);
    assert_eq!(check_frame_len(65536, 65536), Ok(65536));
    assert_eq!(check_frame_len(65537, 65536), Err(FrameError::TooLarge { len: 65537, max: 65536 }));
    assert_eq!(frame(b""), vec![0, 0, 0, 0]);
}

#[test]
fn receive_state_flow() {
    let mut s = ReceiveState::new(10, 2);
    s.record_bytes(6);
    assert!(!s.complete_chunk());
    s.record_bytes(4);
    assert!(s.complete_chunk());
    assert!(s.counts_match());
    assert!(s.verified(Some(10)));
    assert!(!s.verified(Some(9)));
    assert!(!s.verified(None));
    // The connection closing after all data arrived fails nothing.
    assert!(!s.on_connection_closed());
    assert_eq!(s.after_wake(true), WakeOutcome::Verify);
}

#[test]
fn first_failure_reason_wins() {
    let mut s = ReceiveState::new(10, 2);
    assert!(s.on_connection_closed());
    assert_eq!(s.failure_reason.as_deref(), Some("connection closed"));
    s.mark_failed("disk full".to_string());
    assert_eq!(s.failure_reason.as_deref(), Some("connection closed"));
    assert!(s.is_terminal());
    assert_eq!(s.after_wake(false), WakeOutcome::Abandon);
    let mut c = ReceiveState::new(1, 1);
    c.mark_cancelled();
    assert_eq!(c.after_wake(true), WakeOutcome::Abandon);
}

#[test]
fn chunk_faults() {
    let d = [1u8; 16];
    let mut e = d;
    e[15] = 2;
    assert_eq!(check_chunk(10, 9, Some(10), d, d), Err(ChunkFault::Truncated { expected: 10, got: 9 }));
    assert_eq!(check_chunk(10, 10, None, d, d), Err(ChunkFault::TrailerMissing));
    assert_eq!(check_chunk(10, 10, Some(8), d, d), Err(ChunkFault::TrailerSizeMismatch { trailer: 8, header: 10 }));
    assert_eq!(check_chunk(10, 10, Some(10), d, e), Err(ChunkFault::ChecksumMismatch));
    assert_eq!(check_chunk(10, 10, Some(10), d, d), Ok(()));
}

#[test]
fn heartbeat_percent_holds_at_95() {
    assert_eq!(stage_heartbeat_percent(0), 0);
    assert_eq!(stage_heartbeat_percent(399), 19);
    assert_eq!(stage_heartbeat_percent(1_900), 95);
    assert_eq!(stage_heartbeat_percent(100_000), 95);
}

#[test]
fn rename_loop_steps() {
    assert_eq!(rename_step(RenameOutcome::Done, false, 3, false), (RenameAction::Finished, 3, false));
    assert_eq!(rename_step(RenameOutcome::Other, false, 3, false), (RenameAction::Fail(RenameFailure::Io), 3, false));
    assert_eq!(rename_step(RenameOutcome::AlreadyExists, true, 0, false), (RenameAction::PickFreeTarget, 1, false));
    assert_eq!(rename_step(RenameOutcome::AlreadyExists, true, 1000, false), (RenameAction::Fail(RenameFailure::TooManyRetries), 1001, false));
    assert_eq!(rename_step(RenameOutcome::Locked, false, 0, false), (RenameAction::RetryAfterPause, 1, false));
    assert_eq!(rename_step(RenameOutcome::Locked, false, 20, false), (RenameAction::RetryAfterPause, 21, true));
    assert_eq!(rename_step(RenameOutcome::Locked, false, 21, true), (RenameAction::RetryAfterPause, 22, false));
    assert_eq!(rename_step(RenameOutcome::Locked, false, 6000, true), (RenameAction::Fail(RenameFailure::StillLocked), 6001, false));
    assert_eq!(rename_step(RenameOutcome::Locked, true, 5, false), (RenameAction::PickFreeTarget, 6, false));
}

#[test]
fn abandoned_transfer_cleanup() {
    assert_eq!(abandon_plan(true, true), (true, TransferStatus::Cancelled));
    assert_eq!(abandon_plan(false, true), (false, TransferStatus::Failed));
    assert_eq!(abandon_plan(false, false), (true, TransferStatus::Failed));
}

#[test]
fn sender_statuses() {
    assert_eq!(preflight_outcome(false, true, true), PreFlight::RejectedByUser);
    assert_eq!(preflight_outcome(true, false, true), PreFlight::InsufficientSpace);
    assert_eq!(preflight_outcome(true, true, true), PreFlight::AlreadyPresent);
    assert_eq!(preflight_outcome(true, true, false), PreFlight::Proceed);
    assert_eq!(status_after_progress(TransferStatus::Connecting), TransferStatus::Sending);
    assert_eq!(status_after_progress(TransferStatus::Cancelled), TransferStatus::Cancelled);
    assert_eq!(status_on_close(TransferStatus::Sending, 10, 10), TransferStatus::Completed);
    assert_eq!(status_on_close(TransferStatus::Sending, 10, 9), TransferStatus::Sending);
    assert_eq!(status_on_close(TransferStatus::Failed, 0, 0), TransferStatus::Failed);
    assert_eq!(history_status(0, 0), "completed");
    assert_eq!(history_status(5, 4), "failed");
    assert_eq!(failed_send_status("Transfer failed: REJECTED_BY_USER", 7), (TransferStatus::Cancelled, 7));
    assert_eq!(failed_send_status("INSUFFICIENT_SPACE", 7), (TransferStatus::Failed, NO_SPACE_ETA));
    assert_eq!(failed_send_status("timeout", 7), (TransferStatus::Failed, 7));
    assert_eq!(toggle_pause(false), (true, TransferStatus::Paused));
    assert_eq!(toggle_pause(true), (false, TransferStatus::Sending));
    assert_eq!(eta_seconds(100, 40, 20), 3);
    assert_eq!(eta_seconds(100, 40, 0), 0);
    assert_eq!(bytes_per_second(5_000, 2_000), 2_500);
    assert_eq!(bytes_per_second(5_000, 0), 0);
}

#[test]
fn disk_space_admission() {
    let gib = 1u64 << 30;
    let vols = vec![
        Volume { mount_point: "/".to_string(), available: 10 * gib },
        Volume { mount_point: "/mnt/data".to_string(), available: gib },
    ];
    // The deepest matching mount decides: "/mnt/data" with 1 GiB, less the 128 MiB margin.
    assert!(!has_enough_space(&vols, "/mnt/data/in", 5 * gib));
    assert!(has_enough_space(&vols, "/mnt/data/in", 800 << 20));
    assert!(!has_enough_space(&vols, "/mnt/data/in", 900 << 20));
    let reversed: Vec<Volume> = vols.iter().rev().cloned().collect();
    assert!(!has_enough_space(&reversed, "/mnt/data/in", 5 * gib));
    // Outside "/mnt/data" the root decides.
    assert!(has_enough_space(&vols, "/home/me", 5 * gib));
    assert!(!has_enough_space(&vols, "/home/me", 10 * gib));
    assert!(has_enough_space(&vec![], "/x", u64::MAX));
    let small = vec![Volume { mount_point: "/".to_string(), available: 100 }];
    assert!(!has_enough_space(&small, "/x", 1));
    assert!(has_enough_space(&small, "/x", 0));
}

#[test]
fn orphan_temp_files() {
    let live = vec![LiveTransfer { id: "tx1".to_string(), status: TransferStatus::Receiving }];
    assert!(is_orphan("a.tx9.send2me.secret", 300, &live));
    assert!(!is_orphan("a.tx1.send2me.secret", 3_000, &live));
    assert!(!is_orphan("a.tx9.send2me.secret", 299, &live));
    assert!(!is_orphan("a.txt", 3_000, &live));
    let done = vec![LiveTransfer { id: "tx1".to_string(), status: TransferStatus::Completed }];
    assert!(is_orphan("a.tx1.send2me.secret", 3_000, &done));
    assert!(is_leftover_tmp("x.send2me.secret"));
    assert!(!is_leftover_tmp("x.send2me.secret.txt"));
}

#[test]
fn downloads_directory() {
    assert_eq!(resolve_downloads_dir("~/Downloads", Some("/home/u"), None), "/home/u/Downloads");
    assert_eq!(resolve_downloads_dir("~\\Downloads", Some("/home/u/"), None), "/home/u/Downloads");
    assert_eq!(resolve_downloads_dir("~/Downloads", None, Some("/dl")), "~/Downloads");
    assert_eq!(resolve_downloads_dir("", Some("/home/u"), Some("/dl")), "/dl");
    assert_eq!(resolve_downloads_dir("", Some("/home/u"), None), "/home/u");
    assert_eq!(resolve_downloads_dir("", None, None), "");
    assert_eq!(resolve_downloads_dir("/data/in", Some("/home/u"), None), "/data/in");
}

#[test]
fn export_conflicts() {
    assert!(ExportConflict::between(&"/o/a.txt".to_string(), &"/o/a.txt".to_string()).is_none());
    let c = ExportConflict::between(&"/o/a.txt".to_string(), &"/o/a (1).txt".to_string()).unwrap();
    assert_eq!((c.original.as_str(), c.resolved.as_str()), ("/o/a.txt", "/o/a (1).txt"));
}

fn record(id: &str) -> HistoryRecord {
    HistoryRecord {
        id: id.to_string(),
        transfer_id: format!("t-{}", id),
        file_name: "f".to_string(),
        file_size: 1,
        direction: "outgoing".to_string(),
        target_device_id: "d".to_string(),
        target_device_name: "D".to_string(),
        status: "completed".to_string(),
        timestamp: "now".to_string(),
        duration_seconds: 1,
    }
}

#[test]
fn history_newest_first() {
    let mut h = HistoryManager::from_records(vec![record("a")]);
    h.add_record(record("b"));
    assert_eq!(h.records.iter().map(|r| r.id.as_str()).collect::<Vec<_>>(), vec!["b", "a"]);
    h.clear();
    assert!(h.records.is_empty());
}

#[test]
fn bonds() {
    let folder = Some(("fid".to_string(), "/home/u/Downloads/send2me-sync".to_string()));
    let d = new_bond("n1".into(), "Laptop".into(), "linux".into(), "2024-01-01T00:00:00Z".into(), folder);
    assert_eq!(d.sync_folders.len(), 1);
    assert_eq!((d.sync_folders[0].status.as_str(), d.sync_folders[0].last_synced.is_none()), ("Idle", true));
    let mut m = SyncManager::from_devices(vec![]);
    assert!(m.add_bonded_device(d));
    let dup = new_bond("n1".into(), "Other".into(), "mac".into(), "x".into(), None);
    assert!(!m.add_bonded_device(dup));
    assert_eq!(m.bonded_devices.len(), 1);
    assert!(m.is_bonded(&"n1".to_string()));
    assert_eq!(m.sync_folder_for(&"n1".to_string()).as_deref(), Ok("/home/u/Downloads/send2me-sync"));
    assert_eq!(m.sync_folder_for(&"n9".to_string()), Err(LandingFault::Unbonded));
    m.add_bonded_device(BondedDevice {
        node_id: "n2".into(),
        device_name: "B".into(),
        os: "linux".into(),
        date_bonded: "x".into(),
        sync_folders: Vec::<SyncFolder>::new(),
    });
    assert_eq!(m.sync_folder_for(&"n2".to_string()), Err(LandingFault::NoFolder));
    m.remove_bonded_device(&"n1".to_string());
    assert!(!m.is_bonded(&"n1".to_string()));
    assert_eq!(sync_folder_name(false, true), "send2me-sync");
    assert_eq!(sync_folder_name(true, false), "sync1");
    assert_eq!(sync_folder_name(true, true), "sync2");
}

#[test]
fn lag_monitor_debounces() {
    assert!(severity_rank(LagSeverity::Critical) > severity_rank(LagSeverity::Warning));
    let mut m = LagMonitor::new(0);
    assert!(m.step(LagSeverity::Critical, 1_500).is_none());
    let r = m.step(LagSeverity::Critical, 3_000).unwrap();
    assert_eq!((r.severity, r.sustained_ms), (LagSeverity::Critical, 0));
    assert!(m.step(LagSeverity::Critical, 4_500).is_none());
    let hb = m.step(LagSeverity::Critical, 18_000).unwrap();
    assert_eq!((hb.severity, hb.sustained_ms), (LagSeverity::Critical, 15_000));
    for t in [19_500u64, 21_000, 22_500] {
        assert!(m.step(LagSeverity::Nominal, t).is_none());
    }
    let back = m.step(LagSeverity::Nominal, 24_000).unwrap();
    assert_eq!(back.severity, LagSeverity::Nominal);
    assert!(m.step(LagSeverity::Nominal, 60_000).is_none());
}

#[test]
fn send_progress_counts() {
    let mut p = SendProgress::new(TransferStatus::Connecting);
    assert!(p.apply(ProgressEvent::InitParts(4)));
    assert_eq!((p.parts, p.status), (4, TransferStatus::Sending));
    assert!(!p.apply(ProgressEvent::Bytes(10)));
    assert!(!p.apply(ProgressEvent::ChunkCompleted(0)));
    assert!(!p.apply(ProgressEvent::Pause));
    assert_eq!((p.total_transferred, p.chunks_completed), (10, 1));
    p.total_transferred = u64::MAX - 1;
    p.apply(ProgressEvent::Bytes(5));
    assert_eq!(p.total_transferred, u64::MAX);
    assert!(p.due_update(200, 0));
    assert!(!p.due_update(199, 0));
    assert!(p.due_update(0, 10));
}

#[test]
fn tilde_expansion() {
    assert_eq!(resolve_tilde("~/dl", Some("/home/u")), "/home/u/dl");
    assert_eq!(resolve_tilde("", Some("/home/u")), "");
    assert_eq!(resolve_tilde("~/dl", None), "~/dl");
    assert_eq!(resolve_tilde("/x", Some("/home/u")), "/x");
}

#[test]
fn test_run_finalization_retries_on_locked_source() {
    // A source held by another process is retried every 50 ms; the loop must
    // keep trying for at least a minute (1200 retries) before giving up.
    let mut attempts = 0u32;
    let mut scanning = false;
    let mut pauses = 0u32;
    loop {
        let (action, next, start_scan) = rename_step(RenameOutcome::Locked, false, attempts, scanning);
        scanning = scanning || start_scan;
        attempts = next;
        match action {
            RenameAction::RetryAfterPause => pauses += 1,
            RenameAction::Fail(RenameFailure::StillLocked) => break,
            other => panic!("unexpected {:?}", other),
        }
    }
    assert!(pauses >= 1200);
    assert_eq!(pauses, 6000);
    assert!(scanning);
}

#[test]
fn preflight_reply_reads_only_preflight_responses() {
    let r = |a, h, e| StreamMessage::PreFlightResponse { accepted: a, has_space: h, already_exists: e };
    assert_eq!(preflight_reply(&r(false, true, true)), Some(PreFlight::RejectedByUser));
    assert_eq!(preflight_reply(&r(true, false, true)), Some(PreFlight::InsufficientSpace));
    assert_eq!(preflight_reply(&r(true, true, true)), Some(PreFlight::AlreadyPresent));
    assert_eq!(preflight_reply(&r(true, true, false)), Some(PreFlight::Proceed));
    assert_eq!(preflight_reply(&StreamMessage::Ping), None);
    assert_eq!(preflight_reply(&StreamMessage::FolderSyncBindResponse { accepted: true }), None);
}

#[test]
fn loaded_duplicate_bonds_use_the_first() {
    let a = new_bond("n1".into(), "A".into(), "linux".into(), "x".into(), Some(("f1".to_string(), "/first".to_string())));
    let b = new_bond("n1".into(), "B".into(), "linux".into(), "y".into(), Some(("f2".to_string(), "/second".to_string())));
    let m = SyncManager::from_devices(vec![a, b]);
    assert_eq!(m.sync_folder_for(&"n1".to_string()).as_deref(), Ok("/first"));
}
