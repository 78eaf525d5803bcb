use send2me::manifest::{
    failed_retry, retry_backoff_secs, text_is, DeviceTable, FileRecord, FileTable, FolderTable,
    QueueRecord, QueueTable, RecoveryEngine, SyncQueueEngine, SyncTransactionRecord, TransactionLog,
    MAX_CONCURRENT_TRANSFERS,
};

fn q(op: &str, file: &str, intent: &str, status: &str, retry: u32, next: i64) -> QueueRecord {
    QueueRecord {
        op_id: op.to_string(),
        file_id: file.to_string(),
        target_device_id: None,
        intent: intent.to_string(),
        status: status.to_string(),
        retry_count: retry,
        next_retry_at: next,
    }
}

fn f(id: &str, folder: i64, path: &str, hash: Option<&str>, rev: u64, size: u64, deleted: bool) -> FileRecord {
    FileRecord {
        id: id.to_string(),
        folder_id: folder,
        relative_path: path.to_string(),
        blake3_hash: hash.map(|h| h.to_string()),
        revision: rev,
        size,
        is_deleted: deleted,
    }
}

fn statuses(t: &QueueTable) -> Vec<String> {
    t.rows.iter().map(|r| r.status.clone()).collect()
}

#[test]
fn backoff_doubles_then_caps() {
    let expected = [(0u32, 5u64), (1, 10), (2, 20), (3, 40), (4, 80), (5, 160), (6, 300), (7, 300), (100, 300)];
    for (retry, secs) in expected {
        assert_eq!(retry_backoff_secs(retry), secs, "retry {}", retry);
    }
}

#[test]
fn failed_transfer_is_retried_later() {
    assert_eq!(failed_retry(0, 1_000), (1, 1_010));
    assert_eq!(failed_retry(5, 0), (6, 300));
    assert_eq!(failed_retry(2, -50), (3, -10));
}

#[test]
fn enqueue_drops_fresh_twin_of_pending_intent() {
    let mut t = QueueTable::new();
    t.enqueue_intent(&q("op1", "f1", "Modify", "Pending", 0, 10));
    t.enqueue_intent(&q("op2", "f1", "Modify", "Pending", 0, 20));
    assert_eq!(t.rows.len(), 1);
    assert_eq!(t.rows[0].op_id, "op1");
    // A retry (count above zero) is not deduplicated.
    t.enqueue_intent(&q("op3", "f1", "Modify", "Pending", 1, 30));
    assert_eq!(t.rows.len(), 2);
    // Another intent for the same file is kept.
    t.enqueue_intent(&q("op4", "f1", "Delete", "Pending", 0, 40));
    assert_eq!(t.rows.len(), 3);
}

#[test]
fn enqueue_same_operation_updates_its_row() {
    let mut t = QueueTable::new();
    t.enqueue_intent(&q("op1", "f1", "Create", "Transferring", 0, 10));
    t.enqueue_intent(&q("op1", "other", "Delete", "Failed", 4, 99));
    assert_eq!(t.rows.len(), 1);
    let r = &t.rows[0];
    assert_eq!((r.file_id.as_str(), r.intent.as_str()), ("f1", "Create"));
    assert_eq!((r.status.as_str(), r.retry_count, r.next_retry_at), ("Failed", 4, 99));
}

#[test]
fn dequeue_takes_due_rows_in_order_up_to_limit() {
    let mut t = QueueTable::new();
    t.enqueue_intent(&q("a", "f1", "Create", "Pending", 0, 50));
    t.enqueue_intent(&q("b", "f2", "Create", "Pending", 0, 200));
    t.enqueue_intent(&q("c", "f3", "Create", "Pending", 0, 10));
    t.enqueue_intent(&q("d", "f4", "Create", "Failed", 1, 10));
    let out = t.dequeue_pending(1, 100);
    assert_eq!(out.len(), 1);
    assert_eq!(out[0].op_id, "a");
    assert_eq!(out[0].status, "Transferring");
    assert_eq!(statuses(&t), vec!["Transferring", "Pending", "Pending", "Failed"]);
    // A second dequeue does not hand out the same row again.
    let again = t.dequeue_pending(1, 100);
    assert_eq!(again[0].op_id, "c");
    // A negative limit takes every due row.
    let mut u = QueueTable::new();
    u.enqueue_intent(&q("a", "f1", "Create", "Pending", 0, 1));
    u.enqueue_intent(&q("b", "f2", "Create", "Pending", 0, 2));
    let all = u.dequeue_pending(-1, 5);
    assert_eq!(all.iter().map(|r| r.op_id.as_str()).collect::<Vec<_>>(), vec!["a", "b"]);
    assert!(u.dequeue_pending(-1, 5).is_empty());
}

#[test]
fn failed_item_goes_back_to_pending() {
    let mut t = QueueTable::new();
    t.enqueue_intent(&q("a", "f1", "Create", "Transferring", 0, 50));
    t.update_failed_queue_item(&"a".to_string(), 1, 60);
    assert_eq!((t.rows[0].status.as_str(), t.rows[0].retry_count, t.rows[0].next_retry_at), ("Pending", 1, 60));
    t.update_failed_queue_item(&"missing".to_string(), 9, 9);
    assert_eq!(t.rows.len(), 1);
}

#[test]
fn remove_and_delete_intents() {
    let mut t = QueueTable::new();
    t.enqueue_intent(&q("a", "f1", "Create", "Pending", 0, 0));
    t.enqueue_intent(&q("b", "f2", "Create", "Pending", 0, 0));
    t.enqueue_intent(&q("c", "f1", "Delete", "Pending", 0, 0));
    t.delete_intents_for_file(&"f1".to_string());
    assert_eq!(t.rows.iter().map(|r| r.op_id.as_str()).collect::<Vec<_>>(), vec!["b"]);
    t.remove_queue_item(&"b".to_string());
    assert!(t.rows.is_empty());
}

#[test]
fn recovery_revives_failed_and_stuck_rows() {
    let mut t = QueueTable::new();
    t.enqueue_intent(&q("a", "f1", "Create", "Failed", 2, 0));
    t.enqueue_intent(&q("b", "f2", "Create", "Failed", 10, 0));
    t.enqueue_intent(&q("c", "f3", "Create", "Transferring", 0, 9_000));
    t.enqueue_intent(&q("d", "f4", "Create", "Transferring", 0, 9_800));
    t.enqueue_intent(&q("e", "f5", "Create", "Pending", 0, 1));
    t.enqueue_intent(&q("g", "f6", "Create", "Failed", 7, 0));
    let n = t.recover_stale_intents(10_000);
    assert_eq!(n, 3);
    let rows: Vec<(&str, u32, i64)> =
        t.rows.iter().map(|r| (r.status.as_str(), r.retry_count, r.next_retry_at)).collect();
    assert_eq!(
        rows,
        vec![
            ("Pending", 3, 10_040),
            ("Dead", 10, 0),
            ("Pending", 1, 10_010),
            ("Transferring", 0, 9_800),
            ("Pending", 0, 1),
            ("Pending", 8, 10_640),
        ]
    );
}

#[test]
fn prune_drops_week_old_completed_rows() {
    let now = 1_000_000;
    let mut t = QueueTable::new();
    t.enqueue_intent(&q("old", "f1", "Create", "Completed", 0, now - 604_801));
    t.enqueue_intent(&q("edge", "f2", "Create", "Completed", 0, now - 604_800));
    t.enqueue_intent(&q("pending", "f3", "Create", "Pending", 0, now - 700_000));
    assert_eq!(t.prune_completed_intents(now), 1);
    assert_eq!(t.rows.iter().map(|r| r.op_id.as_str()).collect::<Vec<_>>(), vec!["edge", "pending"]);
}

#[test]
fn recovery_pass_counts_both_steps() {
    let now = 2_000_000;
    let mut t = QueueTable::new();
    t.enqueue_intent(&q("a", "f1", "Create", "Failed", 0, 0));
    t.enqueue_intent(&q("b", "f2", "Create", "Completed", 0, 0));
    let (revived, pruned) = RecoveryEngine::run_pass(&mut t, now);
    assert_eq!((revived, pruned), (1, 1));
    assert_eq!(t.rows.len(), 1);
    assert_eq!(t.rows[0].status, "Pending");
}

#[test]
fn upsert_replaces_rows_sharing_id_or_path() {
    let mut t = FileTable::new();
    t.upsert_file(&f("a", 1, "x.txt", Some("h1"), 1, 10, false));
    t.upsert_file(&f("b", 1, "y.txt", None, 1, 5, false));
    t.upsert_file(&f("c", 1, "x.txt", Some("h2"), 2, 11, false));
    assert_eq!(t.rows.len(), 2);
    let by_path = t.get_file_by_path(1, &"x.txt".to_string()).unwrap();
    assert_eq!((by_path.id.as_str(), by_path.revision, by_path.blake3_hash.as_deref()), ("c", 2, Some("h2")));
    assert!(t.get_file_by_id(&"a".to_string()).is_none());
    assert!(t.get_file_by_path(2, &"x.txt".to_string()).is_none());
    // Same id, new path: the old row is gone.
    t.upsert_file(&f("b", 1, "z.txt", None, 2, 5, false));
    assert!(t.get_file_by_path(1, &"y.txt".to_string()).is_none());
    assert_eq!(t.get_file_by_id(&"b".to_string()).unwrap().relative_path, "z.txt");
}

#[test]
fn active_files_and_logical_delete() {
    let mut t = FileTable::new();
    t.upsert_file(&f("a", 1, "a", None, 1, 1, false));
    t.upsert_file(&f("b", 2, "b", None, 1, 1, false));
    t.upsert_file(&f("c", 1, "c", None, 1, 1, false));
    t.delete_file_logical(&"c".to_string());
    let active: Vec<String> = t.get_all_active_files(1).into_iter().map(|r| r.id).collect();
    assert_eq!(active, vec!["a".to_string()]);
    assert!(t.get_file_by_id(&"c".to_string()).unwrap().is_deleted);
}

#[test]
fn text_compare() {
    assert!(text_is(&"Pending".to_string(), "Pending"));
    assert!(!text_is(&"pending".to_string(), "Pending"));
}

#[test]
fn devices_and_folders_keep_their_ids() {
    let mut d = DeviceTable::new();
    let a = d.upsert_device(&"node-a".to_string(), &"A".to_string(), &"sync".to_string(), 10);
    let b = d.upsert_device(&"node-b".to_string(), &"B".to_string(), &"".to_string(), 11);
    let a2 = d.upsert_device(&"node-a".to_string(), &"A2".to_string(), &"drive".to_string(), 12);
    assert_eq!((a, b, a2), (1, 2, 1));
    assert_eq!(d.rows.len(), 2);
    assert_eq!((d.rows[0].name.as_str(), d.rows[0].capabilities.as_str(), d.rows[0].last_seen), ("A2", "drive", 12));
    let mut f = FolderTable::new();
    let x = f.upsert_folder(&"/s/one".to_string(), &"bonded".to_string());
    let y = f.upsert_folder(&"/s/two".to_string(), &"bonded".to_string());
    assert_eq!(f.upsert_folder(&"/s/one".to_string(), &"paused".to_string()), x);
    assert_eq!((x, y), (1, 2));
    assert_eq!(f.rows[0].status, "paused");
    assert_eq!(f.get_folder_path_by_id(2).as_deref(), Some("/s/two"));
    assert!(f.get_folder_path_by_id(3).is_none());
}

#[test]
fn queue_view_joins_paths_newest_first() {
    let mut files = FileTable::new();
    files.upsert_file(&f("f1", 1, "docs/a.txt", None, 1, 1, false));
    let mut t = QueueTable::new();
    t.enqueue_intent(&q("a", "f1", "Create", "Pending", 0, 1));
    t.enqueue_intent(&q("b", "gone", "Delete", "Pending", 0, 2));
    t.enqueue_intent(&q("c", "f1", "Modify", "Failed", 3, 3));
    let view = t.get_queue_view(&files, 2);
    assert_eq!(view.len(), 2);
    assert_eq!((view[0].op_id.as_str(), view[0].relative_path.as_deref(), view[0].retry_count), ("c", Some("docs/a.txt"), 3));
    assert_eq!((view[1].op_id.as_str(), view[1].relative_path.as_deref()), ("b", None));
    assert_eq!(t.get_queue_view(&files, -1).len(), 3);
    let recs = t.get_all_queue_records(10);
    assert_eq!(recs.iter().map(|r| r.op_id.as_str()).collect::<Vec<_>>(), vec!["c", "b", "a"]);
}

fn tx(op: &str, ts: i64) -> SyncTransactionRecord {
    SyncTransactionRecord {
        op_id: op.to_string(),
        file_name: "f".to_string(),
        file_size: 1,
        direction: "Upload".to_string(),
        speed_bps: 1,
        duration_ms: 1,
        timestamp: ts,
    }
}

#[test]
fn transactions_newest_first() {
    let mut log = TransactionLog::new();
    log.insert_sync_transaction(tx("a", 5));
    log.insert_sync_transaction(tx("b", 9));
    log.insert_sync_transaction(tx("c", 7));
    log.insert_sync_transaction(tx("d", 9));
    let ids: Vec<String> = log.get_transactions(100).into_iter().map(|t| t.op_id).collect();
    assert_eq!(ids, vec!["b", "d", "c", "a"]);
    assert_eq!(log.get_transactions(2).len(), 2);
}

#[test]
fn queue_engine_caps_work_in_flight() {
    let mut t = QueueTable::new();
    for i in 0..6 {
        t.enqueue_intent(&q(&format!("op{}", i), &format!("f{}", i), "Modify", "Pending", 0, 0));
    }
    let mut e = SyncQueueEngine::new();
    let mut claimed = Vec::new();
    for _ in 0..MAX_CONCURRENT_TRANSFERS {
        claimed.push(e.claim_next(&mut t, 100).expect("due row"));
    }
    assert_eq!(e.in_flight, 4);
    assert_eq!(claimed.iter().map(|r| r.op_id.as_str()).collect::<Vec<_>>(), vec!["op0", "op1", "op2", "op3"]);
    // Every slot is taken: nothing more is claimed and the queue is untouched.
    assert!(e.claim_next(&mut t, 100).is_none());
    assert_eq!(statuses(&t), vec!["Transferring", "Transferring", "Transferring", "Transferring", "Pending", "Pending"]);
    // A success frees its slot and removes the row.
    e.finish(&mut t, &claimed[0], true, 100);
    assert_eq!(e.in_flight, 3);
    assert_eq!(t.rows.len(), 5);
    assert!(t.rows.iter().all(|r| r.op_id != "op0"));
    // A failure frees its slot and reschedules the row.
    e.finish(&mut t, &claimed[1], false, 100);
    assert_eq!(e.in_flight, 2);
    let r1 = t.rows.iter().find(|r| r.op_id == "op1").unwrap();
    assert_eq!((r1.status.as_str(), r1.retry_count, r1.next_retry_at), ("Pending", 1, 110));
    // The freed slots take the remaining due rows, not the delayed one.
    assert_eq!(e.claim_next(&mut t, 100).unwrap().op_id, "op4");
    assert_eq!(e.claim_next(&mut t, 100).unwrap().op_id, "op5");
    assert!(e.claim_next(&mut t, 100).is_none());
}

#[test]
fn queue_engine_idle_when_nothing_due() {
    let mut t = QueueTable::new();
    t.enqueue_intent(&q("a", "f", "Create", "Pending", 0, 500));
    let mut e = SyncQueueEngine::new();
    assert!(e.claim_next(&mut t, 100).is_none());
    assert_eq!(e.in_flight, 0);
    assert_eq!(e.claim_next(&mut t, 500).unwrap().op_id, "a");
}
