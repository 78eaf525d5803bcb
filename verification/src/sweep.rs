//! How local file activity becomes manifest rows and queued intents: the
//! boot sweep that reconciles disk and manifest, the handling of a settled
//! watcher event, the short-lived ignore list for files the receiver itself
//! writes, and the watcher's retry of locked files.

use vstd::prelude::*;
use crate::manifest::{
    file_rows, FileRecord, FileRow, FileTable, QueueRecord, QueueRow, QueueTable, enqueue_spec, opt_text,
    copy_opt_text, upsert_file_spec, other_file,
};
use crate::messages::{IntentType, RENAME_PREFIX};
use crate::text::{chars_of, string_from_chars, push_char};

verus! {

broadcast use vstd::seq_lib::group_filter_ensures;

pub open spec fn intent_name(i: IntentType) -> Seq<char> {
    match i {
        IntentType::Create => "Create"@,
        IntentType::Modify => "Modify"@,
        IntentType::Delete => "Delete"@,
        IntentType::Rename => "Rename"@,
    }
}

/// The queue's name for an intent.
pub fn intent_text(i: IntentType) -> (s: String)
    ensures
        s@ == intent_name(i),
{
    match i {
        IntentType::Create => String::from_str("Create"),
        IntentType::Modify => String::from_str("Modify"),
        IntentType::Delete => String::from_str("Delete"),
        IntentType::Rename => String::from_str("Rename"),
    }
}

/// A fresh intent row: pending, untargeted, no retries, due at `now`.
pub fn pending_intent(op_id: &String, file_id: &String, intent: &String, now: i64) -> (q: QueueRecord)
    ensures
        q@ == (QueueRow {
            op_id: op_id@,
            file_id: file_id@,
            target_device_id: None,
            intent: intent@,
            status: "Pending"@,
            retry_count: 0,
            next_retry_at: now,
        }),
{
    QueueRecord {
        op_id: op_id.clone(),
        file_id: file_id.clone(),
        target_device_id: None,
        intent: intent.clone(),
        status: String::from_str("Pending"),
        retry_count: 0,
        next_retry_at: now,
    }
}

/// What the boot sweep decides for a file found on disk, given its manifest
/// row (if any), its size, and its digest (`None` when it could not be
/// read): a new file is a create; a known file is a modify when its size
/// differs, or when its digest was read and differs; otherwise nothing.
pub open spec fn sweep_intent(existing: Option<FileRow>, size: u64, disk_hash: Option<Seq<char>>) -> Option<IntentType> {
    match existing {
        None => Some(IntentType::Create),
        Some(r) => if r.size != size {
            Some(IntentType::Modify)
        } else if disk_hash is Some && r.blake3_hash != disk_hash {
            Some(IntentType::Modify)
        } else {
            None
        },
    }
}

/// The row the sweep writes for a detected change: the known id (or the
/// fresh one), the next revision (1 for a new file), the read digest and size.
pub open spec fn swept_row(existing: Option<FileRow>, folder_id: i64, relative_path: Seq<char>, size: u64, disk_hash: Option<Seq<char>>, fresh_id: Seq<char>) -> FileRow {
    FileRow {
        id: match existing {
            Some(r) => r.id,
            None => fresh_id,
        },
        folder_id,
        relative_path,
        blake3_hash: disk_hash,
        revision: match existing {
            Some(r) => (r.revision + 1) as u64,
            None => 1,
        },
        size,
        is_deleted: false,
    }
}

/// The row the sweep writes for a manifest file gone from disk.
pub open spec fn deleted_row(r: FileRow, folder_id: i64) -> FileRow {
    FileRow {
        id: r.id,
        folder_id,
        relative_path: r.relative_path,
        blake3_hash: None,
        revision: (r.revision + 1) as u64,
        size: 0,
        is_deleted: true,
    }
}

pub open spec fn opt_row(o: Option<FileRecord>) -> Option<FileRow> {
    match o {
        Some(r) => Some(r@),
        None => None,
    }
}

/// Reconciles the disk with the manifest at start-up.
pub struct BootSweeper;

impl BootSweeper {
    /// The decision for one file found on disk, with the row to write.
    pub fn sweep_file(
        existing: &Option<FileRecord>,
        folder_id: i64,
        relative_path: &String,
        size: u64,
        disk_hash: &Option<String>,
        fresh_id: &String,
    ) -> (r: Option<(FileRecord, IntentType)>)
        requires
            existing matches Some(e) ==> e.revision < u64::MAX,
        ensures
            match r {
                Some((row, i)) => sweep_intent(opt_row(*existing), size, opt_text(*disk_hash)) == Some(i)
                    && row@ == swept_row(opt_row(*existing), folder_id, relative_path@, size, opt_text(*disk_hash), fresh_id@),
                None => sweep_intent(opt_row(*existing), size, opt_text(*disk_hash)) is None,
            },
    {
        let intent = match existing {
            None => IntentType::Create,
            Some(e) => {
                let differs = if e.size != size {
                    true
                } else {
                    match disk_hash {
                        Some(h) => match &e.blake3_hash {
                            Some(k) => !(*k == *h),
                            None => true,
                        },
                        None => false,
                    }
                };
                if !differs {
                    return None;
                }
                IntentType::Modify
            },
        };
        let (id, revision) = match existing {
            Some(e) => (e.id.clone(), e.revision + 1),
            None => (fresh_id.clone(), 1),
        };
        let row = FileRecord {
            id,
            folder_id,
            relative_path: relative_path.clone(),
            blake3_hash: copy_opt_text(disk_hash),
            revision,
            size,
            is_deleted: false,
        };
        Some((row, intent))
    }

    /// The row written for a manifest file no longer on disk.
    pub fn sweep_deletion(record: &FileRecord, folder_id: i64) -> (r: FileRecord)
        requires
            record.revision < u64::MAX,
        ensures
            r@ == deleted_row(record@, folder_id),
    {
        FileRecord {
            id: record.id.clone(),
            folder_id,
            relative_path: record.relative_path.clone(),
            blake3_hash: None,
            revision: record.revision + 1,
            size: 0,
            is_deleted: true,
        }
    }

    /// The manifest rows whose path was not seen on disk, in manifest order.
    pub fn missing_from_disk(active: &Vec<FileRecord>, visited: &Vec<String>) -> (r: Vec<FileRecord>)
        ensures
            file_rows(r@) == file_rows(active@).filter(unseen(visited@)),
    {
        let ghost rows = file_rows(active@);
        let ghost keep = unseen(visited@);
        let mut out: Vec<FileRecord> = Vec::new();
        let mut i: usize = 0;
        while i < active.len()
            invariant
                i <= active@.len(),
                rows == file_rows(active@),
                keep == unseen(visited@),
                file_rows(out@) == rows.take(i as int).filter(keep),
            decreases active@.len() - i,
        {
            proof {
                assert(rows.take(i + 1) =~= rows.take(i as int).push(rows[i as int]));
                rows.take(i as int).lemma_filter_push(rows[i as int], keep);
            }
            let a = &active[i];
            let mut seen = false;
            let mut v: usize = 0;
            while v < visited.len()
                invariant
                    v <= visited@.len(),
                    seen <==> exists|w: int| 0 <= w < v && (#[trigger] visited@[w])@ == a.relative_path@,
                decreases visited@.len() - v,
            {
                if visited[v] == a.relative_path {
                    seen = true;
                }
                v = v + 1;
            }
            assert(seen == path_seen(visited@, rows[i as int].relative_path));
            if !seen {
                let d = a.duplicate();
                let ghost po = out@;
                out.push(d);
                assert(file_rows(out@) =~= file_rows(po).push(d@));
            }
            i = i + 1;
        }
        assert(rows.take(rows.len() as int) =~= rows);
        out
    }
}

pub open spec fn unseen(visited: Seq<String>) -> spec_fn(FileRow) -> bool {
    |x: FileRow| !path_seen(visited, x.relative_path)
}

/// Whether some visited path equals `p`.
pub open spec fn path_seen(visited: Seq<String>, p: Seq<char>) -> bool {
    exists|w: int| 0 <= w < visited.len() && (#[trigger] visited[w])@ == p
}

/// A settled watcher event for a file under a synced folder.
#[derive(Debug, Clone)]
pub enum FileEvent {
    LocalChange {
        folder_base: String,
        absolute_path: String,
        event_type: String,
        new_abs_path: Option<String>,
    },
}

/// What was observed of the file when a create or modify settled: `None`
/// when it could not be opened (still being written); otherwise its size and
/// its digest, if it could be read.
pub struct Observed {
    pub size: u64,
    pub hash: Option<String>,
}

pub open spec fn event_intent(event_type: Seq<char>) -> Option<IntentType> {
    if event_type == "created"@ {
        Some(IntentType::Create)
    } else if event_type == "modified"@ {
        Some(IntentType::Modify)
    } else if event_type == "deleted"@ {
        Some(IntentType::Delete)
    } else if event_type == "renamed"@ {
        Some(IntentType::Rename)
    } else {
        None
    }
}

/// The row and queue intent a settled local change leads to, or `None` when
/// it leads to nothing: an unknown event kind, the folder root itself, a
/// create or modify of a file that cannot be opened yet, a create or modify
/// that leaves the file as the manifest already has it (the echo of a sync
/// this device received), or a delete of a row already deleted.
pub open spec fn local_change_spec(
    event_type: Seq<char>,
    relative_path: Seq<char>,
    new_relative_path: Option<Seq<char>>,
    existing: Option<FileRow>,
    observed: Option<(u64, Option<Seq<char>>)>,
    fresh_id: Seq<char>,
    folder_id: i64,
) -> Option<(FileRow, Seq<char>)> {
    match event_intent(event_type) {
        None => None,
        Some(i) => if relative_path.len() == 0 {
            None
        } else {
            let (size, hash): (u64, Option<Seq<char>>) = if i == IntentType::Create || i == IntentType::Modify {
                match observed {
                    Some(o) => o,
                    None => (0, None),
                }
            } else {
                (0, None)
            };
            if (i == IntentType::Create || i == IntentType::Modify) && observed is None {
                None
            } else if (i == IntentType::Create || i == IntentType::Modify) && (existing matches Some(e)
                && !e.is_deleted && e.size == size && e.blake3_hash == hash) {
                None
            } else if i == IntentType::Delete && (existing matches Some(e) && e.is_deleted) {
                None
            } else {
                let row = FileRow {
                    id: match existing {
                        Some(e) => e.id,
                        None => fresh_id,
                    },
                    folder_id,
                    relative_path: match new_relative_path {
                        Some(p) => p,
                        None => relative_path,
                    },
                    blake3_hash: hash,
                    revision: match existing {
                        Some(e) => (e.revision + 1) as u64,
                        None => 1,
                    },
                    size,
                    is_deleted: i == IntentType::Delete,
                };
                let intent = if i == IntentType::Rename {
                    RENAME_PREFIX@ + relative_path
                } else {
                    intent_name(i)
                };
                Some((row, intent))
            }
        },
    }
}

pub open spec fn opt_observed(o: Option<Observed>) -> Option<(u64, Option<Seq<char>>)> {
    match o {
        Some(x) => Some((x.size, opt_text(x.hash))),
        None => None,
    }
}

fn event_intent_exec(event_type: &str) -> (r: Option<IntentType>)
    ensures
        r == event_intent(event_type@),
{
    let s = String::from_str(event_type);
    if s == String::from_str("created") {
        Some(IntentType::Create)
    } else if s == String::from_str("modified") {
        Some(IntentType::Modify)
    } else if s == String::from_str("deleted") {
        Some(IntentType::Delete)
    } else if s == String::from_str("renamed") {
        Some(IntentType::Rename)
    } else {
        None
    }
}

fn opt_text_eq(a: &Option<String>, b: &Option<String>) -> (r: bool)
    ensures
        r == (opt_text(*a) == opt_text(*b)),
{
    match (a, b) {
        (Some(x), Some(y)) => *x == *y,
        (None, None) => true,
        _ => false,
    }
}

/// Turns a settled local change into a manifest row and an intent string
/// (see `local_change_spec`).
pub fn plan_local_change(
    event_type: &str,
    relative_path: &String,
    new_relative_path: &Option<String>,
    existing: &Option<FileRecord>,
    observed: &Option<Observed>,
    fresh_id: &String,
    folder_id: i64,
) -> (r: Option<(FileRecord, String)>)
    requires
        existing matches Some(e) ==> e.revision < u64::MAX,
    ensures
        match r {
            Some((row, intent)) => local_change_spec(
                event_type@,
                relative_path@,
                opt_text(*new_relative_path),
                opt_row(*existing),
                opt_observed(*observed),
                fresh_id@,
                folder_id,
            ) == Some((row@, intent@)),
            None => local_change_spec(
                event_type@,
                relative_path@,
                opt_text(*new_relative_path),
                opt_row(*existing),
                opt_observed(*observed),
                fresh_id@,
                folder_id,
            ) is None,
        },
{
    let i = match event_intent_exec(event_type) {
        Some(i) => i,
        None => {
            return None;
        },
    };
    if relative_path.as_str().unicode_len() == 0 {
        return None;
    }
    let content = i == IntentType::Create || i == IntentType::Modify;
    let (size, hash): (u64, Option<String>) = if content {
        match observed {
            Some(o) => (o.size, copy_opt_text(&o.hash)),
            None => {
                return None;
            },
        }
    } else {
        (0, None)
    };
    match existing {
        Some(e) => {
            if content && !e.is_deleted && e.size == size && opt_text_eq(&e.blake3_hash, &hash) {
                return None;
            }
            if i == IntentType::Delete && e.is_deleted {
                return None;
            }
        },
        None => {},
    }
    let (id, revision) = match existing {
        Some(e) => (e.id.clone(), e.revision + 1),
        None => (fresh_id.clone(), 1),
    };
    let path = match new_relative_path {
        Some(p) => p.clone(),
        None => relative_path.clone(),
    };
    let row = FileRecord {
        id,
        folder_id,
        relative_path: path,
        blake3_hash: hash,
        revision,
        size,
        is_deleted: i == IntentType::Delete,
    };
    let intent = if i == IntentType::Rename {
        let mut s = String::from_str(RENAME_PREFIX);
        let rel = chars_of(relative_path.as_str());
        let mut k: usize = 0;
        while k < rel.len()
            invariant
                k <= rel@.len(),
                rel@ == relative_path@,
                s@ == RENAME_PREFIX@ + rel@.take(k as int),
            decreases rel@.len() - k,
        {
            push_char(&mut s, rel[k]);
            assert(rel@.take(k as int).push(rel@[k as int]) =~= rel@.take(k + 1));
            k = k + 1;
        }
        assert(rel@.take(rel@.len() as int) =~= rel@);
        s
    } else {
        intent_text(i)
    };
    Some((row, intent))
}

/// Records a planned change: the row is upserted, the file's earlier intents
/// are dropped, and the new intent is queued.
pub fn record_change(
    files: &mut FileTable,
    queue: &mut QueueTable,
    row: &FileRecord,
    intent: &String,
    op_id: &String,
    now: i64,
)
    requires
        old(files).wf(),
        old(queue).wf(),
    ensures
        final(files).wf(),
        final(queue).wf(),
        final(files)@ == upsert_file_spec(old(files)@, row@),
        final(queue)@ == enqueue_spec(
            old(queue)@.filter(other_file(row@.id)),
            QueueRow {
                op_id: op_id@,
                file_id: row@.id,
                target_device_id: None,
                intent: intent@,
                status: "Pending"@,
                retry_count: 0,
                next_retry_at: now,
            },
        ),
{
    files.upsert_file(row);
    queue.delete_intents_for_file(&row.id);
    let q = pending_intent(op_id, &row.id, intent, now);
    queue.enqueue_intent(&q);
}

pub open spec fn is_sep(c: char) -> bool {
    c == '/' || c == '\\'
}

/// Separators at the front dropped.
pub open spec fn trim_leading_seps(s: Seq<char>) -> Seq<char>
    decreases s.len(),
{
    if s.len() > 0 && is_sep(s[0]) {
        trim_leading_seps(s.skip(1))
    } else {
        s
    }
}

/// Separators at the end dropped.
pub open spec fn trim_trailing_seps(s: Seq<char>) -> Seq<char>
    decreases s.len(),
{
    if s.len() > 0 && is_sep(s.last()) {
        trim_trailing_seps(s.drop_last())
    } else {
        s
    }
}

pub open spec fn forward_slashes(s: Seq<char>) -> Seq<char> {
    s.map_values(|c: char| if c == '\\' { '/' } else { c })
}

/// `path` relative to `base`, written with forward slashes: `None` unless
/// `base` is a leading part of `path` that ends at a separator (or at the
/// end of `path`).
pub open spec fn relative_to_spec(base: Seq<char>, path: Seq<char>) -> Option<Seq<char>> {
    if base.len() <= path.len() && path.take(base.len() as int) == base && (base.len() == path.len()
        || (base.len() > 0 && is_sep(base.last())) || is_sep(path[base.len() as int])) {
        Some(forward_slashes(trim_trailing_seps(trim_leading_seps(path.skip(base.len() as int)))))
    } else {
        None
    }
}

pub fn relative_to(base: &str, path: &str) -> (r: Option<String>)
    ensures
        opt_text(r) == relative_to_spec(base@, path@),
{
    let b = chars_of(base);
    let p = chars_of(path);
    if b.len() > p.len() {
        return None;
    }
    let mut i: usize = 0;
    while i < b.len()
        invariant
            b@ == base@,
            p@ == path@,
            i <= b@.len() <= p@.len(),
            forall|k: int| 0 <= k < i ==> b@[k] == p@[k],
        decreases b@.len() - i,
    {
        if b[i] != p[i] {
            assert(p@.take(b@.len() as int)[i as int] != b@[i as int]);
            return None;
        }
        i = i + 1;
    }
    assert(p@.take(b@.len() as int) =~= b@);
    let at_boundary = b.len() == p.len() || (b.len() > 0 && (b[b.len() - 1] == '/' || b[b.len()
        - 1] == '\\')) || (p[b.len()] == '/' || p[b.len()] == '\\');
    if !at_boundary {
        return None;
    }
    let mut start: usize = b.len();
    while start < p.len() && (p[start] == '/' || p[start] == '\\')
        invariant
            b@.len() <= start <= p@.len(),
            trim_leading_seps(p@.skip(start as int)) == trim_leading_seps(p@.skip(b@.len() as int)),
        decreases p@.len() - start,
    {
        assert(p@.skip(start as int).skip(1) =~= p@.skip(start + 1));
        start = start + 1;
    }
    let mut end: usize = p.len();
    while end > start && (p[end - 1] == '/' || p[end - 1] == '\\')
        invariant
            start <= end <= p@.len(),
            trim_leading_seps(p@.skip(start as int)) == p@.skip(start as int) || start == p@.len(),
            trim_trailing_seps(p@.subrange(start as int, end as int)) == trim_trailing_seps(
                p@.skip(start as int),
            ),
        decreases end - start,
    {
        assert(p@.subrange(start as int, end as int).drop_last() =~= p@.subrange(
            start as int,
            end - 1,
        ));
        end = end - 1;
    }
    assert(p@.subrange(start as int, p@.len() as int) =~= p@.skip(start as int));
    let mut out = String::new();
    let mut k: usize = start;
    while k < end
        invariant
            start <= k <= end <= p@.len(),
            out@ == forward_slashes(p@.subrange(start as int, k as int)),
        decreases end - k,
    {
        let c = if p[k] == '\\' {
            '/'
        } else {
            p[k]
        };
        push_char(&mut out, c);
        assert(forward_slashes(p@.subrange(start as int, k + 1)) =~= forward_slashes(
            p@.subrange(start as int, k as int),
        ).push(c));
        k = k + 1;
    }
    proof {
        let rest = p@.skip(start as int);
        if start < p@.len() {
            assert(!is_sep(rest[0]));
        }
        assert(trim_leading_seps(rest) == rest);
        let sub = p@.subrange(start as int, end as int);
        if end > start {
            assert(!is_sep(sub.last()));
        }
        assert(trim_trailing_seps(sub) == sub);
    }
    Some(out)
}

/// Events the folder watcher reports.
#[derive(Debug, Clone)]
pub enum SyncEvent {
    Created(String),
    Modified(String),
    Deleted(String),
    Renamed(String, String),
}

/// Times a locked file is retried before it is reported anyway.
pub const MAX_FILE_OPEN_RETRIES: u8 = 3;

/// How opening a settled file went.
#[derive(Debug, Clone, Copy, PartialEq, Eq, Structural)]
pub enum OpenOutcome {
    Opened,
    NotFound,
    Locked,
}

/// What the watcher does with a settled path.
#[derive(Debug, Clone, Copy, PartialEq, Eq, Structural)]
pub enum SettleAction {
    ReportModified,
    ReportDeleted,
    RetryLater(u8),
}

/// An opened file is reported modified and a missing one deleted; a locked
/// one is retried until the retry count reaches the limit, then reported
/// modified anyway (the hash check downstream catches stale data).
pub open spec fn settle_spec(outcome: OpenOutcome, retries: u8) -> SettleAction {
    match outcome {
        OpenOutcome::Opened => SettleAction::ReportModified,
        OpenOutcome::NotFound => SettleAction::ReportDeleted,
        OpenOutcome::Locked => if retries + 1 < MAX_FILE_OPEN_RETRIES {
            SettleAction::RetryLater((retries + 1) as u8)
        } else {
            SettleAction::ReportModified
        },
    }
}

pub fn settle_action(outcome: OpenOutcome, retries: u8) -> (a: SettleAction)
    ensures
        a == settle_spec(outcome, retries),
{
    match outcome {
        OpenOutcome::Opened => SettleAction::ReportModified,
        OpenOutcome::NotFound => SettleAction::ReportDeleted,
        OpenOutcome::Locked => {
            if retries < MAX_FILE_OPEN_RETRIES - 1 {
                SettleAction::RetryLater(retries + 1)
            } else {
                SettleAction::ReportModified
            }
        },
    }
}

/// A file that stays locked is still reported: from a first attempt, the
/// third locked attempt reports it modified.
pub proof fn lemma_locked_file_reported()
    ensures
        settle_spec(OpenOutcome::Locked, 0) == SettleAction::RetryLater(1),
        settle_spec(OpenOutcome::Locked, 1) == SettleAction::RetryLater(2),
        settle_spec(OpenOutcome::Locked, 2) == SettleAction::ReportModified,
        forall|r: u8| r >= 2 ==> #[trigger] settle_spec(OpenOutcome::Locked, r) == SettleAction::ReportModified,
{
}

/// Paths the receiver is writing, each ignored by the watcher until its
/// expiry (in milliseconds). At most one entry per path.
pub struct IgnoreCache {
    pub entries: Vec<(String, u64)>,
}

pub open spec fn entry_paths_unique(e: Seq<(String, u64)>) -> bool {
    forall|i: int, j: int|
        0 <= i < e.len() && 0 <= j < e.len() && i != j ==> (#[trigger] e[i]).0@ != (#[trigger] e[j]).0@
}

pub open spec fn expiry_of(e: Seq<(String, u64)>, path: Seq<char>) -> Option<u64> {
    if exists|k: int| 0 <= k < e.len() && (#[trigger] e[k]).0@ == path {
        let k = choose|k: int| 0 <= k < e.len() && (#[trigger] e[k]).0@ == path;
        Some(e[k].1)
    } else {
        None
    }
}

impl IgnoreCache {
    pub fn new() -> (c: Self)
        ensures
            c.entries@.len() == 0,
    {
        IgnoreCache { entries: Vec::new() }
    }

    pub open spec fn wf(&self) -> bool {
        entry_paths_unique(self.entries@)
    }

    pub open spec fn expiry(&self, path: Seq<char>) -> Option<u64> {
        expiry_of(self.entries@, path)
    }

    fn position(&self, path: &String) -> (r: Option<usize>)
        requires
            self.wf(),
        ensures
            match r {
                Some(k) => k < self.entries@.len() && self.entries@[k as int].0@ == path@
                    && self.expiry(path@) == Some(self.entries@[k as int].1),
                None => self.expiry(path@) is None && forall|k: int| 0 <= k < self.entries@.len() ==> (#[trigger] self.entries@[k]).0@ != path@,
            },
    {
        let mut i: usize = 0;
        while i < self.entries.len()
            invariant
                entry_paths_unique(self.entries@),
                i <= self.entries@.len(),
                forall|k: int| 0 <= k < i ==> (#[trigger] self.entries@[k]).0@ != path@,
            decreases self.entries@.len() - i,
        {
            if self.entries[i].0 == *path {
                proof {
                    let e = self.entries@;
                    let c = choose|k: int| 0 <= k < e.len() && (#[trigger] e[k]).0@ == path@;
                    if c != i {
                        assert(e[c].0@ != e[i as int].0@);
                    }
                }
                return Some(i);
            }
            i = i + 1;
        }
        None
    }

    /// Ignores `path` until `now_ms + duration_ms`, replacing any earlier
    /// entry for it.
    pub fn ignore_temporarily(&mut self, path: String, now_ms: u64, duration_ms: u64)
        requires
            old(self).wf(),
            now_ms + duration_ms <= u64::MAX,
        ensures
            final(self).wf(),
            final(self).expiry(path@) == Some((now_ms + duration_ms) as u64),
            forall|p: Seq<char>| p != path@ ==> #[trigger] final(self).expiry(p) == old(self).expiry(p),
    {
        let until = now_ms + duration_ms;
        let ghost before = self.entries@;
        match self.position(&path) {
            Some(k) => {
                let ghost p = path@;
                self.entries.set(k, (path, until));
                proof {
                    let e = self.entries@;
                    assert forall|i: int, j: int|
                        0 <= i < e.len() && 0 <= j < e.len() && i != j implies (#[trigger] e[i]).0@
                        != (#[trigger] e[j]).0@ by {
                        if i != k && j != k {
                            assert(e[i] == before[i] && e[j] == before[j]);
                        } else if i == k {
                            assert(e[j] == before[j]);
                            assert(before[k as int].0@ == p);
                        } else {
                            assert(e[i] == before[i]);
                            assert(before[k as int].0@ == p);
                        }
                    }
                    assert(e[k as int].0@ == p);
                    assert forall|q: Seq<char>| q != p implies #[trigger] expiry_of(e, q) == expiry_of(before, q) by {
                        if exists|m: int| 0 <= m < e.len() && (#[trigger] e[m]).0@ == q {
                            let m = choose|m: int| 0 <= m < e.len() && (#[trigger] e[m]).0@ == q;
                            assert(m != k);
                            assert(before[m] == e[m]);
                        }
                        if exists|m: int| 0 <= m < before.len() && (#[trigger] before[m]).0@ == q {
                            let m = choose|m: int| 0 <= m < before.len() && (#[trigger] before[m]).0@ == q;
                            assert(m != k);
                            assert(before[m] == e[m]);
                        }
                    }
                }
            },
            None => {
                let ghost p = path@;
                self.entries.push((path, until));
                proof {
                    let e = self.entries@;
                    assert(e[before.len() as int].0@ == p);
                    assert forall|i: int, j: int|
                        0 <= i < e.len() && 0 <= j < e.len() && i != j implies (#[trigger] e[i]).0@
                        != (#[trigger] e[j]).0@ by {
                        if i < before.len() {
                            assert(e[i] == before[i]);
                        }
                        if j < before.len() {
                            assert(e[j] == before[j]);
                        }
                    }
                    assert forall|q: Seq<char>| q != p implies #[trigger] expiry_of(e, q) == expiry_of(before, q) by {
                        if exists|m: int| 0 <= m < e.len() && (#[trigger] e[m]).0@ == q {
                            let m = choose|m: int| 0 <= m < e.len() && (#[trigger] e[m]).0@ == q;
                            assert(m < before.len());
                            assert(before[m] == e[m]);
                        }
                        if exists|m: int| 0 <= m < before.len() && (#[trigger] before[m]).0@ == q {
                            let m = choose|m: int| 0 <= m < before.len() && (#[trigger] before[m]).0@ == q;
                            assert(before[m] == e[m]);
                        }
                    }
                }
            },
        }
    }

    /// Whether `path` is ignored at `now_ms`. An expired entry is removed.
    pub fn is_ignored(&mut self, path: &String, now_ms: u64) -> (r: bool)
        requires
            old(self).wf(),
        ensures
            final(self).wf(),
            r == (old(self).expiry(path@) matches Some(t) && now_ms < t),
            !r ==> final(self).expiry(path@) is None,
            r ==> final(self).expiry(path@) == old(self).expiry(path@),
            forall|p: Seq<char>| p != path@ ==> #[trigger] final(self).expiry(p) == old(self).expiry(p),
    {
        let ghost before = self.entries@;
        match self.position(path) {
            None => false,
            Some(k) => {
                if now_ms < self.entries[k].1 {
                    return true;
                }
                let ghost p = path@;
                self.entries.remove(k);
                proof {
                    let e = self.entries@;
                    assert(e =~= before.remove(k as int));
                    assert forall|i: int, j: int|
                        0 <= i < e.len() && 0 <= j < e.len() && i != j implies (#[trigger] e[i]).0@
                        != (#[trigger] e[j]).0@ by {
                        let bi = if i < k { i } else { i + 1 };
                        let bj = if j < k { j } else { j + 1 };
                        assert(e[i] == before[bi] && e[j] == before[bj]);
                    }
                    assert forall|m: int| 0 <= m < e.len() implies (#[trigger] e[m]).0@ != p by {
                        let bm = if m < k { m } else { m + 1 };
                        assert(e[m] == before[bm]);
                    }
                    assert forall|q: Seq<char>| q != p implies #[trigger] expiry_of(e, q) == expiry_of(before, q) by {
                        if exists|m: int| 0 <= m < e.len() && (#[trigger] e[m]).0@ == q {
                            let m = choose|m: int| 0 <= m < e.len() && (#[trigger] e[m]).0@ == q;
                            let bm = if m < k { m } else { m + 1 };
                            assert(e[m] == before[bm]);
                        }
                        if exists|m: int| 0 <= m < before.len() && (#[trigger] before[m]).0@ == q {
                            let m = choose|m: int| 0 <= m < before.len() && (#[trigger] before[m]).0@ == q;
                            assert(m != k);
                            let em = if m < k { m } else { m - 1 };
                            assert(e[em] == before[m]);
                        }
                    }
                }
                false
            },
        }
    }
}

/// A path ignored at `now_ms` for `duration_ms` reads as ignored exactly
/// until `now_ms + duration_ms`: the receiver writing a file does not make the
/// watcher queue an echo of it, and the path is watched again afterwards.
pub proof fn lemma_ignore_window(c: IgnoreCache, path: Seq<char>, now_ms: u64, duration_ms: u64, query_ms: u64)
    requires
        now_ms + duration_ms <= u64::MAX,
        c.expiry(path) == Some((now_ms + duration_ms) as u64),
    ensures
        (c.expiry(path) matches Some(t) && query_ms < t) <==> query_ms < now_ms + duration_ms,
{
}


/// Whether activity at `last_ms` has settled by `now_ms`: at least
/// `quiet_ms` have passed (strictly more when `strict`).
pub open spec fn settled(last_ms: u64, now_ms: u64, quiet_ms: u64, strict: bool) -> bool {
    let elapsed = if now_ms >= last_ms { now_ms - last_ms } else { 0 };
    if strict {
        elapsed > quiet_ms
    } else {
        elapsed >= quiet_ms
    }
}

pub open spec fn settled_entry<T>(now_ms: u64, quiet_ms: u64, strict: bool) -> spec_fn((String, u64, T)) -> bool {
    |e: (String, u64, T)| settled(e.1, now_ms, quiet_ms, strict)
}

pub open spec fn unsettled_entry<T>(now_ms: u64, quiet_ms: u64, strict: bool) -> spec_fn((String, u64, T)) -> bool {
    |e: (String, u64, T)| !settled(e.1, now_ms, quiet_ms, strict)
}

pub open spec fn other_path<T>(p: Seq<char>) -> spec_fn((String, u64, T)) -> bool {
    |e: (String, u64, T)| e.0@ != p
}

/// Paths waiting for activity to settle, each with the time of its last
/// activity and what is carried for it (the watcher's retry count, or the
/// state manager's latest event). At most one entry per path: new activity
/// replaces the entry.
pub struct Debouncer<T> {
    pub pending: Vec<(String, u64, T)>,
}

impl<T> Debouncer<T> {
    pub fn new() -> (d: Self)
        ensures
            d.pending@.len() == 0,
    {
        Debouncer { pending: Vec::new() }
    }

    /// Records activity on `path` at `now_ms`, replacing its earlier entry.
    pub fn touch(&mut self, path: String, now_ms: u64, value: T)
        ensures
            final(self).pending@.len() > 0,
            final(self).pending@.last().0@ == path@,
            final(self).pending@.last().1 == now_ms,
            final(self).pending@.last().2 == value,
            final(self).pending@.drop_last() == old(self).pending@.filter(other_path::<T>(path@)),
    {
        let ghost before = self.pending@;
        let ghost keep = other_path::<T>(path@);
        let mut kept: Vec<(String, u64, T)> = Vec::new();
        let mut old_list: Vec<(String, u64, T)> = Vec::new();
        std::mem::swap(&mut old_list, &mut self.pending);
        let n = old_list.len();
        let mut i: usize = 0;
        while i < n
            invariant
                n == before.len(),
                i <= n,
                old_list@ == before.skip(i as int),
                keep == other_path::<T>(path@),
                kept@ == before.take(i as int).filter(keep),
            decreases n - i,
        {
            proof {
                assert(before.take(i + 1) =~= before.take(i as int).push(before[i as int]));
                before.take(i as int).lemma_filter_push(before[i as int], keep);
            }
            let e = old_list.remove(0);
            assert(e == before[i as int]);
            assert(old_list@ =~= before.skip(i + 1));
            if !(e.0 == path) {
                kept.push(e);
            }
            i = i + 1;
        }
        assert(before.take(n as int) =~= before);
        let ghost k = kept@;
        kept.push((path, now_ms, value));
        assert(kept@.drop_last() =~= k);
        self.pending = kept;
    }

    /// Takes out the settled entries, in order; the others stay.
    pub fn take_settled(&mut self, now_ms: u64, quiet_ms: u64, strict: bool) -> (out: Vec<(String, u64, T)>)
        ensures
            out@ == old(self).pending@.filter(settled_entry::<T>(now_ms, quiet_ms, strict)),
            final(self).pending@ == old(self).pending@.filter(unsettled_entry::<T>(now_ms, quiet_ms, strict)),
    {
        let ghost before = self.pending@;
        let ghost take = settled_entry::<T>(now_ms, quiet_ms, strict);
        let ghost keep = unsettled_entry::<T>(now_ms, quiet_ms, strict);
        let mut kept: Vec<(String, u64, T)> = Vec::new();
        let mut out: Vec<(String, u64, T)> = Vec::new();
        let mut old_list: Vec<(String, u64, T)> = Vec::new();
        std::mem::swap(&mut old_list, &mut self.pending);
        let n = old_list.len();
        let mut i: usize = 0;
        while i < n
            invariant
                n == before.len(),
                i <= n,
                old_list@ == before.skip(i as int),
                take == settled_entry::<T>(now_ms, quiet_ms, strict),
                keep == unsettled_entry::<T>(now_ms, quiet_ms, strict),
                kept@ == before.take(i as int).filter(keep),
                out@ == before.take(i as int).filter(take),
            decreases n - i,
        {
            proof {
                assert(before.take(i + 1) =~= before.take(i as int).push(before[i as int]));
                before.take(i as int).lemma_filter_push(before[i as int], keep);
                before.take(i as int).lemma_filter_push(before[i as int], take);
            }
            let e = old_list.remove(0);
            assert(e == before[i as int]);
            assert(old_list@ =~= before.skip(i + 1));
            let elapsed = if now_ms >= e.1 {
                now_ms - e.1
            } else {
                0
            };
            let done = if strict {
                elapsed > quiet_ms
            } else {
                elapsed >= quiet_ms
            };
            if done {
                out.push(e);
            } else {
                kept.push(e);
            }
            i = i + 1;
        }
        assert(before.take(n as int) =~= before);
        self.pending = kept;
        out
    }
}

/// Quiet time after which the folder watcher checks a changed path.
pub const WATCHER_SETTLE_MS: u64 = 500;
/// Quiet time (strictly exceeded) after which a local change is processed.
pub const CHANGE_SETTLE_MS: u64 = 2000;


/// Sweeping twice finds nothing the second time: the row a sweep writes for
/// a file matches that file's size and digest.
pub proof fn lemma_sweep_settles(existing: Option<FileRow>, folder_id: i64, relative_path: Seq<char>, size: u64, disk_hash: Option<Seq<char>>, fresh_id: Seq<char>)
    ensures
        sweep_intent(Some(swept_row(existing, folder_id, relative_path, size, disk_hash, fresh_id)), size, disk_hash) is None,
{
}

/// No echo: once a received create or modify is recorded, the watcher event
/// its write causes (same path, same size, same digest) queues nothing.
pub proof fn lemma_received_write_not_echoed(
    file_id: Seq<char>,
    intent: IntentType,
    relative_path: Seq<char>,
    hash: Seq<char>,
    revision: u64,
    folder_id: i64,
    file_size: u64,
    fresh_id: Seq<char>,
)
    requires
        intent == IntentType::Create || intent == IntentType::Modify,
        relative_path.len() > 0,
    ensures
        local_change_spec(
            "modified"@,
            relative_path,
            None,
            Some(crate::messages::incoming_row_spec(file_id, intent, relative_path, None, Some(hash), revision, folder_id, file_size)),
            Some((file_size, Some(hash))),
            fresh_id,
            folder_id,
        ) is None,
{
    reveal_strlit("modified");
    reveal_strlit("created");
    assert("modified"@ != "created"@) by {
        assert("modified"@[0] != "created"@[0]);
    }
}

/// A delete already recorded (received from the peer) is not sent back.
pub proof fn lemma_received_delete_not_echoed(
    file_id: Seq<char>,
    relative_path: Seq<char>,
    revision: u64,
    folder_id: i64,
    fresh_id: Seq<char>,
)
    requires
        relative_path.len() > 0,
    ensures
        local_change_spec(
            "deleted"@,
            relative_path,
            None,
            Some(crate::messages::incoming_row_spec(file_id, IntentType::Delete, relative_path, None, None, revision, folder_id, 0)),
            None,
            fresh_id,
            folder_id,
        ) is None,
{
    reveal_strlit("deleted");
    reveal_strlit("created");
    reveal_strlit("modified");
    assert("deleted"@ != "created"@) by {
        assert("deleted"@[0] != "created"@[0]);
    }
    assert("deleted"@ != "modified"@) by {
        assert("deleted"@[0] != "modified"@[0]);
    }
}


/// Where a watcher event goes.
pub enum WatchRoute {
    /// Dropped: a sync artifact, or outside every bonded folder.
    Drop,
    /// The bonded folder itself was deleted: it is made again.
    RestoreFolder(String),
    /// Handed to the change processing.
    Forward(FileEvent),
}

pub open spec fn event_parts(e: SyncEvent) -> (Seq<char>, Seq<char>, Option<Seq<char>>) {
    match e {
        SyncEvent::Created(p) => (p@, "created"@, None),
        SyncEvent::Modified(p) => (p@, "modified"@, None),
        SyncEvent::Deleted(p) => (p@, "deleted"@, None),
        SyncEvent::Renamed(a, b) => (a@, "renamed"@, Some(b@)),
    }
}

/// Whether the file name of `p` (empty when it has none) is a sync artifact.
pub open spec fn artifact_path(p: Seq<char>) -> bool {
    crate::paths::is_sync_artifact_name(match crate::paths::file_name_of(p) {
        Some(n) => n,
        None => Seq::<char>::empty(),
    })
}

/// The first bonded folder holding `path`, by index.
pub open spec fn first_holder(folders: Seq<String>, path: Seq<char>, k: int) -> Option<int>
    decreases folders.len() - k,
{
    if k >= folders.len() || k < 0 {
        None
    } else if relative_to_spec(folders[k]@, path) is Some {
        Some(k)
    } else {
        first_holder(folders, path, k + 1)
    }
}

/// Routes a watcher event: artifacts (by either name of a rename) are
/// dropped; so is a path under no bonded folder; an event on a bonded folder
/// itself restores the folder when it was a deletion and is dropped
/// otherwise; anything else is forwarded with its folder.
pub fn route_event(event: SyncEvent, bonded_folders: &Vec<String>) -> (r: WatchRoute)
    ensures
        ({
            let (abs, kind, new_abs) = event_parts(event);
            let artifact = artifact_path(abs) || (new_abs matches Some(n) && artifact_path(n));
            match r {
                WatchRoute::Drop => artifact || first_holder(bonded_folders@, abs, 0) is None
                    || (relative_to_spec(bonded_folders@[first_holder(bonded_folders@, abs, 0)->0]@, abs) == Some(Seq::<char>::empty())
                        && kind != "deleted"@),
                WatchRoute::RestoreFolder(f) => !artifact && first_holder(bonded_folders@, abs, 0) is Some
                    && f@ == bonded_folders@[first_holder(bonded_folders@, abs, 0)->0]@
                    && relative_to_spec(f@, abs) == Some(Seq::<char>::empty()) && kind == "deleted"@,
                WatchRoute::Forward(FileEvent::LocalChange { folder_base, absolute_path, event_type, new_abs_path }) => !artifact
                    && first_holder(bonded_folders@, abs, 0) is Some
                    && folder_base@ == bonded_folders@[first_holder(bonded_folders@, abs, 0)->0]@
                    && (relative_to_spec(folder_base@, abs) matches Some(rel) && rel.len() > 0)
                    && absolute_path@ == abs && event_type@ == kind && opt_text(new_abs_path) == new_abs,
            }
        }),
{
    let (abs, kind, new_abs, is_delete): (String, &str, Option<String>, bool) = match event {
        SyncEvent::Created(p) => (p, "created", None, false),
        SyncEvent::Modified(p) => (p, "modified", None, false),
        SyncEvent::Deleted(p) => (p, "deleted", None, true),
        SyncEvent::Renamed(a, b) => (a, "renamed", Some(b), false),
    };
    proof {
        reveal_strlit("created");
        reveal_strlit("modified");
        reveal_strlit("deleted");
        reveal_strlit("renamed");
    }
    if crate::paths::is_sync_artifact(abs.as_str()) {
        return WatchRoute::Drop;
    }
    match &new_abs {
        Some(n) => {
            if crate::paths::is_sync_artifact(n.as_str()) {
                return WatchRoute::Drop;
            }
        },
        None => {},
    }
    assert((abs@, kind@, opt_text(new_abs)) == event_parts(event));
    assert("created"@ != "deleted"@ && "modified"@ != "deleted"@ && "renamed"@ != "deleted"@) by {
        assert("created"@[0] != "deleted"@[0]);
        assert("modified"@[0] != "deleted"@[0]);
        assert("renamed"@[0] != "deleted"@[0]);
    }
    assert(is_delete == (kind@ == "deleted"@));
    let mut k: usize = 0;
    while k < bonded_folders.len()
        invariant
            k <= bonded_folders@.len(),
            first_holder(bonded_folders@, abs@, 0) == first_holder(bonded_folders@, abs@, k as int),
            (abs@, kind@, opt_text(new_abs)) == event_parts(event),
            is_delete == (kind@ == "deleted"@),
            !artifact_path(abs@),
            new_abs matches Some(n) ==> !artifact_path(n@),
        decreases bonded_folders@.len() - k,
    {
        match relative_to(bonded_folders[k].as_str(), abs.as_str()) {
            Some(rel) => {
                let folder = bonded_folders[k].clone();
                if rel.as_str().unicode_len() == 0 {
                    if is_delete {
                        return WatchRoute::RestoreFolder(folder);
                    }
                    return WatchRoute::Drop;
                }
                return WatchRoute::Forward(FileEvent::LocalChange {
                    folder_base: folder,
                    absolute_path: abs,
                    event_type: String::from_str(kind),
                    new_abs_path: new_abs,
                });
            },
            None => {},
        }
        k = k + 1;
    }
    WatchRoute::Drop
}


pub open spec fn texts(v: Seq<String>) -> Seq<Seq<char>> {
    v.map_values(|s: String| s@)
}

pub open spec fn in_list(list: Seq<Seq<char>>) -> spec_fn(Seq<char>) -> bool {
    |p: Seq<char>| list.contains(p)
}

pub open spec fn not_in_list(list: Seq<Seq<char>>) -> spec_fn(Seq<char>) -> bool {
    |p: Seq<char>| !list.contains(p)
}

/// `list` followed by each item of `items` not already present, in order.
pub open spec fn extend_unique(list: Seq<Seq<char>>, items: Seq<Seq<char>>) -> Seq<Seq<char>>
    decreases items.len(),
{
    if items.len() == 0 {
        list
    } else {
        let l = extend_unique(list, items.drop_last());
        if l.contains(items.last()) {
            l
        } else {
            l.push(items.last())
        }
    }
}

fn list_contains(v: &Vec<String>, p: &String) -> (r: bool)
    ensures
        r == texts(v@).contains(p@),
{
    let mut i: usize = 0;
    while i < v.len()
        invariant
            i <= v@.len(),
            forall|k: int| 0 <= k < i ==> (#[trigger] v@[k])@ != p@,
        decreases v@.len() - i,
    {
        if v[i] == *p {
            assert(texts(v@)[i as int] == p@);
            return true;
        }
        i = i + 1;
    }
    proof {
        if texts(v@).contains(p@) {
            let k = choose|k: int| 0 <= k < texts(v@).len() && texts(v@)[k] == p@;
            assert(v@[k]@ == p@);
        }
    }
    false
}

/// How the watched folders follow a change of the bonds: the watched
/// folders still bonded stay, in order (`r.0`), the others are unwatched
/// (`r.1`), and each bonded folder not yet watched is added once, in bond
/// order (`r.2`); the new watch list is `r.0` followed by `r.2`.
pub fn watch_plan(watched: &Vec<String>, bonded: &Vec<String>) -> (r: (Vec<String>, Vec<String>, Vec<String>))
    ensures
        texts(r.0@) == texts(watched@).filter(in_list(texts(bonded@))),
        texts(r.1@) == texts(watched@).filter(not_in_list(texts(bonded@))),
        texts(r.0@) + texts(r.2@) == extend_unique(texts(r.0@), texts(bonded@)),
{
    let ghost w = texts(watched@);
    let ghost b = texts(bonded@);
    let mut kept: Vec<String> = Vec::new();
    let mut dropped: Vec<String> = Vec::new();
    let mut i: usize = 0;
    while i < watched.len()
        invariant
            i <= watched@.len(),
            w == texts(watched@),
            b == texts(bonded@),
            texts(kept@) == w.take(i as int).filter(in_list(b)),
            texts(dropped@) == w.take(i as int).filter(not_in_list(b)),
        decreases watched@.len() - i,
    {
        proof {
            assert(w.take(i + 1) =~= w.take(i as int).push(w[i as int]));
            w.take(i as int).lemma_filter_push(w[i as int], in_list(b));
            w.take(i as int).lemma_filter_push(w[i as int], not_in_list(b));
        }
        let p = watched[i].clone();
        let ghost pk = kept@;
        let ghost pd = dropped@;
        if list_contains(bonded, &p) {
            kept.push(p);
            assert(texts(kept@) =~= texts(pk).push(w[i as int]));
        } else {
            dropped.push(p);
            assert(texts(dropped@) =~= texts(pd).push(w[i as int]));
        }
        i = i + 1;
    }
    assert(w.take(w.len() as int) =~= w);
    let ghost base = texts(kept@);
    let mut all = kept.clone();
    let mut added: Vec<String> = Vec::new();
    let mut j: usize = 0;
    assert(texts(kept@) =~= base);
    while j < bonded.len()
        invariant
            j <= bonded@.len(),
            b == texts(bonded@),
            texts(all@) == extend_unique(base, b.take(j as int)),
            texts(all@) == base + texts(added@),
        decreases bonded@.len() - j,
    {
        proof {
            assert(b.take(j + 1).drop_last() =~= b.take(j as int));
            assert(b.take(j + 1).last() == b[j as int]);
        }
        let p = bonded[j].clone();
        if !list_contains(&all, &p) {
            let ghost pa = all@;
            let ghost pad = added@;
            all.push(p.clone());
            added.push(p);
            assert(texts(all@) =~= texts(pa).push(b[j as int]));
            assert(texts(added@) =~= texts(pad).push(b[j as int]));
            assert(base + texts(added@) =~= (base + texts(pad)).push(b[j as int]));
        }
        j = j + 1;
    }
    assert(b.take(b.len() as int) =~= b);
    (kept, dropped, added)
}

/// What the file-system notifier reported, by kind.
#[derive(Debug, Clone, Copy, PartialEq, Eq, Structural)]
pub enum RawEventKind {
    /// A rename; with exactly two paths they are the old and new name.
    Rename,
    /// A file was created or its contents changed.
    CreateOrModify,
    Remove,
    /// Anything else (access, metadata).
    Other,
}

pub open spec fn ignored_at(c: IgnoreCache, p: Seq<char>, now_ms: u64) -> bool {
    c.expiry(p) matches Some(t) && now_ms < t
}

/// A watched path is taken in unless it is a temporary or system file or
/// the ignore cache still holds it.
pub open spec fn admitted(c: IgnoreCache, p: Seq<char>, now_ms: u64) -> bool {
    !crate::paths::is_system_temp_path(p) && !ignored_at(c, p, now_ms)
}

pub open spec fn admitted_fn(c: IgnoreCache, now_ms: u64) -> spec_fn(Seq<char>) -> bool {
    |p: Seq<char>| admitted(c, p, now_ms)
}

/// The cache after intake differs from the one before only by expired
/// entries dropped, so it ignores the same paths at `now_ms`.
pub open spec fn cache_agrees(c0: IgnoreCache, c1: IgnoreCache, now_ms: u64) -> bool {
    forall|p: Seq<char>| #[trigger] c1.expiry(p) == c0.expiry(p) || (c1.expiry(p) is None && !ignored_at(c0, p, now_ms))
}

pub open spec fn deleted_paths(ev: Seq<SyncEvent>) -> Seq<Seq<char>> {
    ev.map_values(|e: SyncEvent| match e {
        SyncEvent::Deleted(p) => p@,
        _ => Seq::<char>::empty(),
    })
}

fn admit_path(cache: &mut IgnoreCache, p: &String, now_ms: u64) -> (r: bool)
    requires
        old(cache).wf(),
    ensures
        final(cache).wf(),
        r == admitted(*old(cache), p@, now_ms),
        cache_agrees(*old(cache), *final(cache), now_ms),
{
    if crate::paths::is_system_temp_file(p.as_str()) {
        return false;
    }
    let ignored = cache.is_ignored(p, now_ms);
    !ignored
}

proof fn lemma_agrees_chain(c0: IgnoreCache, c1: IgnoreCache, c2: IgnoreCache, now_ms: u64)
    requires
        cache_agrees(c0, c1, now_ms),
        cache_agrees(c1, c2, now_ms),
    ensures
        cache_agrees(c0, c2, now_ms),
        forall|p: Seq<char>| #[trigger] admitted(c1, p, now_ms) == admitted(c0, p, now_ms),
{
    assert forall|p: Seq<char>| #[trigger] c2.expiry(p) == c0.expiry(p) || (c2.expiry(p) is None && !ignored_at(c0, p, now_ms)) by {
        assert(c1.expiry(p) == c0.expiry(p) || (c1.expiry(p) is None && !ignored_at(c0, p, now_ms)));
        assert(c2.expiry(p) == c1.expiry(p) || (c2.expiry(p) is None && !ignored_at(c1, p, now_ms)));
    }
    assert forall|p: Seq<char>| #[trigger] admitted(c1, p, now_ms) == admitted(c0, p, now_ms) by {
        assert(c1.expiry(p) == c0.expiry(p) || (c1.expiry(p) is None && !ignored_at(c0, p, now_ms)));
    }
}

/// The watcher's intake of one notifier report at `now_ms`: a two-path
/// rename is passed on at once when both names are taken in; removals of
/// taken-in paths are passed on at once as deletions; created or changed
/// paths (and the paths of any other rename) that are taken in are handed
/// back to wait for their writes to settle. Nothing else comes out. The
/// cache only drops entries that have expired.
pub fn watcher_intake(kind: RawEventKind, paths: &Vec<String>, cache: &mut IgnoreCache, now_ms: u64) -> (r: (Vec<SyncEvent>, Vec<String>))
    requires
        old(cache).wf(),
    ensures
        final(cache).wf(),
        cache_agrees(*old(cache), *final(cache), now_ms),
        kind == RawEventKind::Rename && paths@.len() == 2 ==> {
            &&& r.1@.len() == 0
            &&& if admitted(*old(cache), paths@[0]@, now_ms) && admitted(*old(cache), paths@[1]@, now_ms) {
                r.0@.len() == 1 && (r.0@[0] matches SyncEvent::Renamed(a, b) && a@ == paths@[0]@ && b@ == paths@[1]@)
            } else {
                r.0@.len() == 0
            }
        },
        (kind == RawEventKind::CreateOrModify || (kind == RawEventKind::Rename && paths@.len() != 2)) ==> {
            &&& r.0@.len() == 0
            &&& texts(r.1@) == texts(paths@).filter(admitted_fn(*old(cache), now_ms))
        },
        kind == RawEventKind::Remove ==> {
            &&& r.1@.len() == 0
            &&& forall|k: int| 0 <= k < r.0@.len() ==> (#[trigger] r.0@[k]) is Deleted
            &&& deleted_paths(r.0@) == texts(paths@).filter(admitted_fn(*old(cache), now_ms))
        },
        kind == RawEventKind::Other ==> r.0@.len() == 0 && r.1@.len() == 0,
{
    let ghost c0 = *cache;
    let mut events: Vec<SyncEvent> = Vec::new();
    let mut pending: Vec<String> = Vec::new();
    if kind == RawEventKind::Other {
        return (events, pending);
    }
    if kind == RawEventKind::Rename && paths.len() == 2 {
        let a = &paths[0];
        let b = &paths[1];
        let ghost c_a = *cache;
        let ok_a = admit_path(cache, a, now_ms);
        let ghost c_b = *cache;
        let ok_b = if ok_a { admit_path(cache, b, now_ms) } else { false };
        proof {
            if ok_a {
                lemma_agrees_chain(c0, c_b, *cache, now_ms);
            } else {
                assert(*cache == c_b);
                lemma_agrees_chain(c0, c_b, *cache, now_ms);
            }
            lemma_agrees_chain(c0, c_b, c_b, now_ms);
        }
        if ok_a && ok_b {
            events.push(SyncEvent::Renamed(a.clone(), b.clone()));
        }
        return (events, pending);
    }
    let ghost all = texts(paths@);
    let ghost keep = admitted_fn(c0, now_ms);
    let mut i: usize = 0;
    while i < paths.len()
        invariant
            i <= paths@.len(),
            all == texts(paths@),
            keep == admitted_fn(c0, now_ms),
            cache.wf(),
            c0.wf(),
            cache_agrees(c0, *cache, now_ms),
            kind != RawEventKind::Other,
            !(kind == RawEventKind::Rename && paths@.len() == 2),
            kind == RawEventKind::Remove ==> {
                &&& pending@.len() == 0
                &&& forall|k: int| 0 <= k < events@.len() ==> (#[trigger] events@[k]) is Deleted
                &&& deleted_paths(events@) == all.take(i as int).filter(keep)
            },
            kind != RawEventKind::Remove ==> {
                &&& events@.len() == 0
                &&& texts(pending@) == all.take(i as int).filter(keep)
            },
        decreases paths@.len() - i,
    {
        let p = &paths[i];
        proof {
            assert(all.take(i + 1) =~= all.take(i as int).push(all[i as int]));
            all.take(i as int).lemma_filter_push(all[i as int], keep);
            assert(all[i as int] == p@);
        }
        let ghost ci = *cache;
        let ok = admit_path(cache, p, now_ms);
        proof {
            lemma_agrees_chain(c0, ci, *cache, now_ms);
            assert(ok == admitted(c0, p@, now_ms));
        }
        if ok {
            if kind == RawEventKind::Remove {
                let ghost before = events@;
                events.push(SyncEvent::Deleted(p.clone()));
                proof {
                    assert(deleted_paths(events@) =~= deleted_paths(before).push(p@));
                }
            } else {
                let ghost before = pending@;
                pending.push(p.clone());
                proof {
                    assert(texts(pending@) =~= texts(before).push(p@));
                }
            }
        }
        i = i + 1;
    }
    assert(all.take(all.len() as int) =~= all);
    (events, pending)
}

/// The row already holds the observed size and digest.
pub open spec fn matches_observed(e: FileRow, o: (u64, Option<Seq<char>>)) -> bool {
    let (size, hash) = o;
    e.size == size && e.blake3_hash == hash
}

/// What a settled local change records: a create or modify that leads to a
/// row records the file as observed (its size and digest); a change to a
/// known row keeps its id and raises its revision by one, a new file starts
/// at revision 1 under the fresh id; only a delete marks the row deleted.
pub proof fn lemma_local_change_meaning(
    event_type: Seq<char>,
    relative_path: Seq<char>,
    new_relative_path: Option<Seq<char>>,
    existing: Option<FileRow>,
    observed: Option<(u64, Option<Seq<char>>)>,
    fresh_id: Seq<char>,
    folder_id: i64,
)
    ensures
        local_change_spec(event_type, relative_path, new_relative_path, existing, observed, fresh_id, folder_id) matches Some((row, intent)) ==> {
            &&& (event_intent(event_type) == Some(IntentType::Delete) || event_intent(event_type) == Some(IntentType::Rename))
                ==> row.size == 0 && row.blake3_hash is None
            &&& event_intent(event_type) == Some(IntentType::Rename) ==> intent == RENAME_PREFIX@ + relative_path
            &&& event_intent(event_type) == Some(IntentType::Create) ==> intent == "Create"@
            &&& event_intent(event_type) == Some(IntentType::Modify) ==> intent == "Modify"@
            &&& event_intent(event_type) == Some(IntentType::Delete) ==> intent == "Delete"@
            &&& (event_intent(event_type) == Some(IntentType::Create) || event_intent(event_type) == Some(IntentType::Modify)) ==> (
                observed matches Some((size, hash)) && row.size == size && row.blake3_hash == hash)
            &&& existing matches Some(e) ==> row.id == e.id && (e.revision < u64::MAX ==> row.revision == e.revision + 1)
            &&& existing is None ==> row.id == fresh_id && row.revision == 1
            &&& row.is_deleted == (event_intent(event_type) == Some(IntentType::Delete))
            &&& row.folder_id == folder_id
            &&& row.relative_path == (match new_relative_path {
                Some(p) => p,
                None => relative_path,
            })
        },
        ((event_intent(event_type) == Some(IntentType::Create) || event_intent(event_type) == Some(IntentType::Modify))
            && relative_path.len() > 0 && observed is Some && !(existing is Some && !existing->0.is_deleted
            && matches_observed(existing->0, observed->0)))
            ==> local_change_spec(event_type, relative_path, new_relative_path, existing, observed, fresh_id, folder_id) is Some,
{
}

/// What the boot sweep records for a file found on disk: a change to a known
/// row keeps its id and raises its revision by one, a new file starts at
/// revision 1 under the fresh id; either way the row holds the size and
/// digest read from disk and is not deleted. A known row is reported as
/// changed exactly when its size differs or a digest was read and differs.
pub proof fn lemma_sweep_file_meaning(existing: Option<FileRow>, folder_id: i64, relative_path: Seq<char>, size: u64, disk_hash: Option<Seq<char>>, fresh_id: Seq<char>)
    requires
        existing matches Some(e) ==> e.revision < u64::MAX,
    ensures
        ({
            let row = swept_row(existing, folder_id, relative_path, size, disk_hash, fresh_id);
            &&& existing matches Some(e) ==> row.id == e.id && row.revision == e.revision + 1
            &&& existing is None ==> row.id == fresh_id && row.revision == 1
            &&& row.size == size && row.blake3_hash == disk_hash && !row.is_deleted
            &&& row.folder_id == folder_id && row.relative_path == relative_path
            &&& existing is None ==> sweep_intent(existing, size, disk_hash) == Some(IntentType::Create)
            &&& existing matches Some(e) ==> ((sweep_intent(existing, size, disk_hash) is Some)
                <==> (e.size != size || (disk_hash is Some && e.blake3_hash != disk_hash)))
            &&& existing is Some && sweep_intent(existing, size, disk_hash) is Some ==> sweep_intent(existing, size, disk_hash) == Some(IntentType::Modify)
        }),
{
}

} // verus!
