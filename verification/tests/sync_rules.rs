use send2me::sweep::{watch_plan, watcher_intake, RawEventKind};
use send2me::messages::{bind_reply_plan, bind_response_accepted, control_action, BindFault, ControlAction, FileMetadata, StreamMessage};
use send2me::messages::{classify_arrival, Arrival};
use send2me::sweep::{route_event, FileEvent, SyncEvent, WatchRoute};
use send2me::manifest::{FileRecord, FileTable, QueueTable};
use send2me::messages::{
    already_held, bridge_diagnostic, chunk_digest, incoming_file_record, outgoing_sync_metadata,
    parse_queue_intent, sync_payload_size, transfer_verified, ChunkTrailer, IntentType,
    SyncMetadata, TransferStream,
};
use send2me::framing::FrameError;
use send2me::sweep::{
    plan_local_change, record_change, relative_to, settle_action, BootSweeper, Debouncer,
    IgnoreCache, Observed, OpenOutcome, SettleAction,
};

fn f(id: &str, path: &str, hash: Option<&str>, rev: u64, size: u64, deleted: bool) -> FileRecord {
    FileRecord {
        id: id.to_string(),
        folder_id: 1,
        relative_path: path.to_string(),
        blake3_hash: hash.map(|h| h.to_string()),
        revision: rev,
        size,
        is_deleted: deleted,
    }
}

#[test]
fn sweep_creates_unknown_files() {
    let r = BootSweeper::sweep_file(&None, 1, &"new.txt".to_string(), 7, &Some("h".to_string()), &"fresh".to_string());
    let (row, intent) = r.unwrap();
    assert_eq!(intent, IntentType::Create);
    assert_eq!((row.id.as_str(), row.revision, row.size, row.blake3_hash.as_deref()), ("fresh", 1, 7, Some("h")));
    assert!(!row.is_deleted);
}

#[test]
fn sweep_modifies_on_size_or_digest_change() {
    let known = Some(f("id1", "a.txt", Some("h1"), 4, 10, false));
    let path = "a.txt".to_string();
    let fresh = "fresh".to_string();
    let (row, intent) = BootSweeper::sweep_file(&known, 1, &path, 11, &Some("h1".to_string()), &fresh).unwrap();
    assert_eq!((intent, row.id.as_str(), row.revision), (IntentType::Modify, "id1", 5));
    let (row, intent) = BootSweeper::sweep_file(&known, 1, &path, 10, &Some("h2".to_string()), &fresh).unwrap();
    assert_eq!((intent, row.blake3_hash.as_deref()), (IntentType::Modify, Some("h2")));
    assert!(BootSweeper::sweep_file(&known, 1, &path, 10, &Some("h1".to_string()), &fresh).is_none());
    // An unreadable file of the same size is left alone.
    assert!(BootSweeper::sweep_file(&known, 1, &path, 10, &None, &fresh).is_none());
}

#[test]
fn sweep_deletes_rows_missing_from_disk() {
    let rows = vec![f("a", "a.txt", None, 1, 1, false), f("b", "b.txt", Some("h"), 2, 3, false)];
    let visited = vec!["b.txt".to_string()];
    let missing = BootSweeper::missing_from_disk(&rows, &visited);
    assert_eq!(missing.len(), 1);
    let d = BootSweeper::sweep_deletion(&missing[0], 1);
    assert_eq!((d.id.as_str(), d.revision, d.size, d.is_deleted, d.blake3_hash), ("a", 2, 0, true, None));
}

#[test]
fn local_change_ignores_locked_echoed_and_repeated_events() {
    let path = "docs/a.txt".to_string();
    let fresh = "fresh".to_string();
    let known = Some(f("id1", "docs/a.txt", Some("h"), 3, 5, false));
    assert!(plan_local_change("created", &path, &None, &None, &None, &fresh, 1).is_none());
    let same = Some(Observed { size: 5, hash: Some("h".to_string()) });
    assert!(plan_local_change("modified", &path, &None, &known, &same, &fresh, 1).is_none());
    let gone = Some(f("id1", "docs/a.txt", None, 3, 0, true));
    assert!(plan_local_change("deleted", &path, &None, &gone, &None, &fresh, 1).is_none());
    assert!(plan_local_change("chmod", &path, &None, &known, &same, &fresh, 1).is_none());
    assert!(plan_local_change("modified", &String::new(), &None, &None, &same, &fresh, 1).is_none());
}

#[test]
fn local_change_plans_rows_and_intents() {
    let path = "docs/a.txt".to_string();
    let fresh = "fresh".to_string();
    let known = Some(f("id1", "docs/a.txt", Some("h"), 3, 5, false));
    let changed = Some(Observed { size: 6, hash: Some("h2".to_string()) });
    let (row, intent) = plan_local_change("modified", &path, &None, &known, &changed, &fresh, 1).unwrap();
    assert_eq!((row.id.as_str(), row.revision, row.size, intent.as_str()), ("id1", 4, 6, "Modify"));
    let (row, intent) = plan_local_change("created", &path, &None, &None, &changed, &fresh, 9).unwrap();
    assert_eq!((row.id.as_str(), row.revision, row.folder_id, intent.as_str()), ("fresh", 1, 9, "Create"));
    let (row, intent) = plan_local_change("deleted", &path, &None, &known, &None, &fresh, 1).unwrap();
    assert_eq!((row.is_deleted, row.size, row.blake3_hash.is_none(), intent.as_str()), (true, 0, true, "Delete"));
    let new_path = Some("docs/b.txt".to_string());
    let (row, intent) = plan_local_change("renamed", &path, &new_path, &known, &None, &fresh, 1).unwrap();
    assert_eq!((row.relative_path.as_str(), row.revision, row.size), ("docs/b.txt", 4, 0));
    assert_eq!(intent, "Rename:docs/a.txt");
}

#[test]
fn recording_a_change_replaces_earlier_intents() {
    let mut files = FileTable::new();
    let mut queue = QueueTable::new();
    let row = f("id1", "a.txt", Some("h"), 1, 5, false);
    record_change(&mut files, &mut queue, &row, &"Create".to_string(), &"op1".to_string(), 100);
    record_change(&mut files, &mut queue, &row, &"Modify".to_string(), &"op2".to_string(), 200);
    assert_eq!(files.rows.len(), 1);
    assert_eq!(queue.rows.len(), 1);
    assert_eq!((queue.rows[0].op_id.as_str(), queue.rows[0].intent.as_str(), queue.rows[0].status.as_str()), ("op2", "Modify", "Pending"));
    assert_eq!((queue.rows[0].retry_count, queue.rows[0].next_retry_at, queue.rows[0].target_device_id), (0, 200, None));
}

#[test]
fn relative_paths() {
    assert_eq!(relative_to("/home/u/Sync", "/home/u/Sync/a\\b.txt").as_deref(), Some("a/b.txt"));
    assert_eq!(relative_to("/home/u/Sync", "/home/u/Sync").as_deref(), Some(""));
    assert_eq!(relative_to("/home/u/Sync/", "/home/u/Sync/x").as_deref(), Some("x"));
    assert_eq!(relative_to("/home/u/Sync", "/home/u/Sync/dir/").as_deref(), Some("dir"));
    assert!(relative_to("/home/u/Sync", "/home/u/Syncx/a").is_none());
    assert!(relative_to("/home/u/Sync", "/other").is_none());
}

#[test]
fn locked_files_retry_then_report() {
    assert_eq!(settle_action(OpenOutcome::Opened, 0), SettleAction::ReportModified);
    assert_eq!(settle_action(OpenOutcome::NotFound, 2), SettleAction::ReportDeleted);
    assert_eq!(settle_action(OpenOutcome::Locked, 0), SettleAction::RetryLater(1));
    assert_eq!(settle_action(OpenOutcome::Locked, 1), SettleAction::RetryLater(2));
    assert_eq!(settle_action(OpenOutcome::Locked, 2), SettleAction::ReportModified);
}

#[test]
fn ignore_window_expires() {
    let mut c = IgnoreCache::new();
    let p = "/sync/a.txt".to_string();
    c.ignore_temporarily(p.clone(), 1_000, 5_000);
    assert!(c.is_ignored(&p, 5_999));
    assert!(!c.is_ignored(&"/sync/b.txt".to_string(), 2_000));
    assert!(!c.is_ignored(&p, 6_000));
    assert!(c.entries.is_empty());
    c.ignore_temporarily(p.clone(), 10, 10);
    c.ignore_temporarily(p.clone(), 10, 100);
    assert_eq!(c.entries.len(), 1);
    assert!(c.is_ignored(&p, 50));
}

#[test]
fn debounce_waits_for_quiet() {
    let mut d: Debouncer<u8> = Debouncer::new();
    d.touch("a".to_string(), 0, 0);
    d.touch("b".to_string(), 300, 1);
    let out = d.take_settled(500, 500, false);
    assert_eq!(out.iter().map(|e| e.0.as_str()).collect::<Vec<_>>(), vec!["a"]);
    assert_eq!(d.pending.len(), 1);
    d.touch("b".to_string(), 600, 2);
    assert!(d.take_settled(800, 500, false).is_empty());
    let out = d.take_settled(1_100, 500, false);
    assert_eq!((out[0].0.as_str(), out[0].2), ("b", 2));
    d.touch("c".to_string(), 0, 0);
    assert!(d.take_settled(2_000, 2_000, true).is_empty());
    assert_eq!(d.take_settled(2_001, 2_000, true).len(), 1);
}

#[test]
fn queued_intents_read_back() {
    let (k, p) = parse_queue_intent("Rename:docs/a.txt");
    assert_eq!((k, p.as_deref()), (IntentType::Rename, Some("docs/a.txt")));
    let (k, p) = parse_queue_intent("Rename:Rename:x");
    assert_eq!((k, p.as_deref()), (IntentType::Rename, Some("x")));
    assert_eq!(parse_queue_intent("Create").0, IntentType::Create);
    assert_eq!(parse_queue_intent("Delete").0, IntentType::Delete);
    assert_eq!(parse_queue_intent("Modify").0, IntentType::Modify);
    assert_eq!(parse_queue_intent("bogus"), (IntentType::Modify, None));
}

#[test]
fn outgoing_metadata_for_rename_and_modify() {
    let file = f("id1", "docs/b.txt", Some("h"), 7, 42, false);
    let m = outgoing_sync_metadata(&"op".to_string(), "Rename:docs/a.txt", &file, &"me".to_string());
    assert_eq!((m.protocol_version, m.sync_intent, m.revision), (1, IntentType::Rename, 7));
    assert_eq!((m.relative_path.as_str(), m.new_relative_path.as_deref()), ("docs/a.txt", Some("docs/b.txt")));
    assert_eq!((m.file_id.as_str(), m.origin_node_id.as_str(), m.blake3_hash.as_deref()), ("id1", "me", Some("h")));
    let m = outgoing_sync_metadata(&"op".to_string(), "Modify", &file, &"me".to_string());
    assert_eq!((m.relative_path.as_str(), m.new_relative_path), ("docs/b.txt", None));
    assert_eq!(sync_payload_size(IntentType::Delete, 42), 0);
    assert_eq!(sync_payload_size(IntentType::Rename, 42), 0);
    assert_eq!(sync_payload_size(IntentType::Modify, 42), 42);
}

fn meta(intent: IntentType, new_path: Option<&str>, hash: Option<&str>) -> SyncMetadata {
    SyncMetadata {
        protocol_version: 1,
        operation_id: "op".to_string(),
        sync_intent: intent,
        file_id: "id1".to_string(),
        revision: 3,
        blake3_hash: hash.map(|h| h.to_string()),
        origin_node_id: "peer".to_string(),
        relative_path: "a.txt".to_string(),
        new_relative_path: new_path.map(|p| p.to_string()),
    }
}

#[test]
fn incoming_rows() {
    let d = incoming_file_record(&meta(IntentType::Delete, None, Some("h")), 4, 99);
    assert_eq!((d.is_deleted, d.size, d.blake3_hash.is_none(), d.folder_id, d.revision), (true, 0, true, 4, 3));
    let r = incoming_file_record(&meta(IntentType::Rename, Some("b.txt"), Some("h")), 4, 0);
    assert_eq!((r.relative_path.as_str(), r.is_deleted), ("b.txt", false));
    let m = incoming_file_record(&meta(IntentType::Modify, None, Some("h")), 4, 12);
    assert_eq!((m.relative_path.as_str(), m.size, m.blake3_hash.as_deref()), ("a.txt", 12, Some("h")));
}

#[test]
fn receiver_checks() {
    let h = Some("abc".to_string());
    assert!(already_held(IntentType::Modify, Some(5), 5, &h, &"abc".to_string()));
    assert!(!already_held(IntentType::Modify, Some(4), 5, &h, &"abc".to_string()));
    assert!(!already_held(IntentType::Delete, Some(5), 5, &h, &"abc".to_string()));
    assert!(!already_held(IntentType::Create, None, 5, &h, &"abc".to_string()));
    assert!(!already_held(IntentType::Create, Some(5), 5, &None, &"abc".to_string()));
    assert!(transfer_verified(&None, &String::new()));
    assert!(transfer_verified(&h, &"abc".to_string()));
    assert!(!transfer_verified(&h, &String::new()));
}

#[test]
fn bridge_diagnostic_answer() {
    let folders = Some(vec![("/a".to_string(), true), ("/b".to_string(), false)]);
    let r = bridge_diagnostic("n1", &folders, "PC".to_string(), "linux".to_string());
    assert!(r.success);
    assert_eq!((r.remote_folders_ok, r.remote_folders_total, r.remote_disk_free_mb), (1, 2, 10240));
    assert_eq!(r.remote_logs.len(), 7);
    assert_eq!(r.remote_logs[0], "[Receiver] ALPN send2me-sync/1 handshake accepted from n1");
    assert_eq!(r.remote_logs[2], "[Receiver] Verified folder path: /a (OK)");
    assert_eq!(r.remote_logs[3], "[Receiver] Folder path missing: /b (FAIL)");
    assert_eq!(r.remote_logs[6], "[Receiver] Bridge Diagnostic complete. Dispatching ACK...");
    let r = bridge_diagnostic("n2", &None, "PC".to_string(), "linux".to_string());
    assert_eq!((r.remote_folders_ok, r.remote_folders_total, r.remote_logs.len()), (0, 0, 6));
    assert_eq!(r.remote_logs[2], "[Receiver] Sender node ID is bonded on target device");
}

#[test]
fn chunk_trailer_digest_is_blake3_prefix() {
    let payload = b"some chunk bytes";
    let d = chunk_digest(payload);
    assert_eq!(&d[..], &blake3::hash(payload).as_bytes()[..16]);
    let t = ChunkTrailer::for_payload(&"tx".to_string(), 3, payload);
    assert_eq!((t.chunk_index, t.bytes_written, t.hash), (3, payload.len() as u64, d));
    assert_ne!(chunk_digest(b"other"), d);
}

#[test]
fn control_messages_frame_and_bound() {
    let framed = TransferStream::frame_message(b"hi");
    assert_eq!(framed, vec![0, 0, 0, 2, b'h', b'i']);
    assert_eq!(TransferStream::read_stream_message(&framed), Ok((b"hi".to_vec(), 6)));
    assert_eq!(TransferStream::read_bounded_message(&framed, 1), Err(FrameError::TooLarge { len: 2, max: 1 }));
    assert_eq!(TransferStream::read_stream_message(&framed[..4]), Err(FrameError::Incomplete));
    let big = [0u8, 1, 0, 1];
    assert_eq!(TransferStream::read_stream_message(&big), Err(FrameError::TooLarge { len: 65537, max: 65536 }));
}

#[test]
fn incoming_sync_against_local_row() {
    let local = Some(f("id1", "a.txt", Some("h"), 5, 1, false));
    assert_eq!(classify_arrival(&None, &meta(IntentType::Modify, None, Some("x"))), Arrival::Apply);
    // meta() carries revision 3, below the local 5.
    assert_eq!(classify_arrival(&local, &meta(IntentType::Modify, None, Some("x"))), Arrival::ConflictCopy);
    assert_eq!(classify_arrival(&local, &meta(IntentType::Modify, None, Some("h"))), Arrival::Duplicate);
    let older = Some(f("id1", "a.txt", Some("h"), 2, 1, false));
    assert_eq!(classify_arrival(&older, &meta(IntentType::Modify, None, Some("x"))), Arrival::Apply);
}

#[test]
fn watcher_events_are_routed() {
    let folders = vec!["/home/u/A".to_string(), "/home/u/B".to_string()];
    match route_event(SyncEvent::Modified("/home/u/B/x.txt".to_string()), &folders) {
        WatchRoute::Forward(FileEvent::LocalChange { folder_base, absolute_path, event_type, new_abs_path }) => {
            assert_eq!((folder_base.as_str(), absolute_path.as_str(), event_type.as_str()), ("/home/u/B", "/home/u/B/x.txt", "modified"));
            assert!(new_abs_path.is_none());
        }
        _ => panic!("expected forward"),
    }
    match route_event(SyncEvent::Renamed("/home/u/A/a".to_string(), "/home/u/A/b".to_string()), &folders) {
        WatchRoute::Forward(FileEvent::LocalChange { event_type, new_abs_path, .. }) => {
            assert_eq!((event_type.as_str(), new_abs_path.as_deref()), ("renamed", Some("/home/u/A/b")));
        }
        _ => panic!("expected forward"),
    }
    assert!(matches!(route_event(SyncEvent::Deleted("/home/u/A".to_string()), &folders), WatchRoute::RestoreFolder(ref f) if f == "/home/u/A"));
    assert!(matches!(route_event(SyncEvent::Created("/home/u/A".to_string()), &folders), WatchRoute::Drop));
    assert!(matches!(route_event(SyncEvent::Created("/home/u/C/x".to_string()), &folders), WatchRoute::Drop));
    assert!(matches!(route_event(SyncEvent::Created("/home/u/A/x.sync.tmp".to_string()), &folders), WatchRoute::Drop));
    assert!(matches!(
        route_event(SyncEvent::Renamed("/home/u/A/a".to_string(), "/home/u/A/Thumbs.db".to_string()), &folders),
        WatchRoute::Drop
    ));
}

#[test]
fn control_stream_dispatch() {
    let a = control_action(StreamMessage::FolderSyncBindRequest { node_id: "n".into(), device_name: "PC".into(), os: "linux".into() });
    assert!(matches!(a, ControlAction::PromptBind { ref node_id, .. } if node_id == "n"));
    assert!(matches!(control_action(StreamMessage::FolderSyncUnbind { node_id: "n".into() }), ControlAction::Unbind { .. }));
    assert!(matches!(control_action(StreamMessage::Ping), ControlAction::ReplyPong));
    assert!(matches!(control_action(StreamMessage::Pong), ControlAction::Close));
    let meta = FileMetadata { transfer_id: "t".into(), file_name: "f".into(), file_size: 1, chunk_count: 1, sync_metadata: None };
    assert!(matches!(control_action(StreamMessage::Control(meta)), ControlAction::StartTransfer(ref m) if m.transfer_id == "t"));
    assert!(matches!(control_action(StreamMessage::TransferCompleted { success: true }), ControlAction::Refuse));
}

#[test]
fn bond_handshake() {
    assert_eq!(bind_reply_plan(true, Some(true)), (true, true));
    assert_eq!(bind_reply_plan(true, Some(false)), (false, true));
    assert_eq!(bind_reply_plan(true, None), (false, false));
    assert_eq!(bind_reply_plan(false, Some(true)), (false, false));
    assert_eq!(bind_response_accepted(&StreamMessage::FolderSyncBindResponse { accepted: false }), Ok(false));
    assert_eq!(bind_response_accepted(&StreamMessage::Ping), Err(BindFault::UnexpectedResponse));
    let mut m = send2me::bonds::SyncManager::from_devices(vec![]);
    assert_eq!(send2me::messages::bind_precheck(&m, &"n1".to_string()), Ok(()));
    m.add_bonded_device(send2me::bonds::new_bond("n1".into(), "PC".into(), "linux".into(), "t".into(), None));
    assert_eq!(send2me::messages::bind_precheck(&m, &"n1".to_string()), Err(BindFault::AlreadyPaired));
}

#[test]
fn watch_list_follows_bonds() {
    let watched = vec!["/a".to_string(), "/b".to_string()];
    let bonded = vec!["/b".to_string(), "/c".to_string(), "/c".to_string()];
    let (kept, dropped, added) = watch_plan(&watched, &bonded);
    assert_eq!(kept, vec!["/b".to_string()]);
    assert_eq!(dropped, vec!["/a".to_string()]);
    assert_eq!(added, vec!["/c".to_string()]);
}

#[test]
fn watcher_intake_filters_and_routes() {
    let s = |v: &[&str]| v.iter().map(|x| x.to_string()).collect::<Vec<String>>();
    let mut cache = IgnoreCache::new();
    cache.ignore_temporarily("/w/echo.txt".to_string(), 1_000, 5_000);
    // Created or changed paths wait to settle; temp files and ignored paths are dropped.
    let (ev, pend) = watcher_intake(
        RawEventKind::CreateOrModify,
        &s(&["/w/a.txt", "/w/x.sync.tmp", "/w/echo.txt", "/w/desktop.ini", "/w/b.txt"]),
        &mut cache,
        2_000,
    );
    assert!(ev.is_empty());
    assert_eq!(pend, s(&["/w/a.txt", "/w/b.txt"]));
    // Removals go out at once.
    let (ev, pend) = watcher_intake(RawEventKind::Remove, &s(&["/w/a.txt", "/w/echo.txt"]), &mut cache, 2_000);
    assert!(pend.is_empty());
    assert!(matches!(ev.as_slice(), [SyncEvent::Deleted(p)] if p == "/w/a.txt"));
    // A rename needs both names taken in.
    let (ev, _) = watcher_intake(RawEventKind::Rename, &s(&["/w/a.txt", "/w/c.txt"]), &mut cache, 2_000);
    assert!(matches!(ev.as_slice(), [SyncEvent::Renamed(a, b)] if a == "/w/a.txt" && b == "/w/c.txt"));
    let (ev, _) = watcher_intake(RawEventKind::Rename, &s(&["/w/a.txt", "/w/echo.txt"]), &mut cache, 2_000);
    assert!(ev.is_empty());
    // Once the ignore window has passed the path is taken in again.
    let (_, pend) = watcher_intake(RawEventKind::CreateOrModify, &s(&["/w/echo.txt"]), &mut cache, 6_000);
    assert_eq!(pend, s(&["/w/echo.txt"]));
    let (ev, pend) = watcher_intake(RawEventKind::Other, &s(&["/w/a.txt"]), &mut cache, 6_000);
    assert!(ev.is_empty() && pend.is_empty());
}
