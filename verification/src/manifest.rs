//! The folder-sync manifest: the rows it keeps for devices, folders, files,
//! queued intents and finished transactions, and the rules by which the
//! file table and the intent queue change.

use vstd::prelude::*;

verus! {

broadcast use vstd::seq_lib::group_filter_ensures;

#[derive(Debug, Clone)]
pub struct DeviceRecord {
    pub id: i64,
    pub node_id: String,
    pub name: String,
    pub capabilities: String,
    pub last_seen: i64,
}

#[derive(Debug, Clone)]
pub struct FolderRecord {
    pub id: i64,
    pub path: String,
    pub status: String,
}

#[derive(Debug, Clone)]
pub struct FileRecord {
    pub id: String,
    pub folder_id: i64,
    pub relative_path: String,
    pub blake3_hash: Option<String>,
    pub revision: u64,
    pub size: u64,
    pub is_deleted: bool,
}

#[derive(Debug, Clone)]
pub struct QueueRecord {
    pub op_id: String,
    pub file_id: String,
    pub target_device_id: Option<i64>,
    pub intent: String,
    pub status: String,
    pub retry_count: u32,
    pub next_retry_at: i64,
}

#[derive(Debug, Clone)]
pub struct QueueViewRecord {
    pub op_id: String,
    pub relative_path: Option<String>,
    pub intent: String,
    pub status: String,
    pub retry_count: u32,
    pub next_retry_at: i64,
}

#[derive(Debug, Clone)]
pub struct SyncTransactionRecord {
    pub op_id: String,
    pub file_name: String,
    pub file_size: u64,
    pub direction: String,
    pub speed_bps: u64,
    pub duration_ms: u64,
    pub timestamp: i64,
}

/// A file row as plain values.
pub struct FileRow {
    pub id: Seq<char>,
    pub folder_id: i64,
    pub relative_path: Seq<char>,
    pub blake3_hash: Option<Seq<char>>,
    pub revision: u64,
    pub size: u64,
    pub is_deleted: bool,
}

/// A queue row as plain values.
pub struct QueueRow {
    pub op_id: Seq<char>,
    pub file_id: Seq<char>,
    pub target_device_id: Option<i64>,
    pub intent: Seq<char>,
    pub status: Seq<char>,
    pub retry_count: u32,
    pub next_retry_at: i64,
}

pub open spec fn opt_text(o: Option<String>) -> Option<Seq<char>> {
    match o {
        Some(s) => Some(s@),
        None => None,
    }
}

impl View for FileRecord {
    type V = FileRow;

    open spec fn view(&self) -> FileRow {
        FileRow {
            id: self.id@,
            folder_id: self.folder_id,
            relative_path: self.relative_path@,
            blake3_hash: opt_text(self.blake3_hash),
            revision: self.revision,
            size: self.size,
            is_deleted: self.is_deleted,
        }
    }
}

impl View for QueueRecord {
    type V = QueueRow;

    open spec fn view(&self) -> QueueRow {
        QueueRow {
            op_id: self.op_id@,
            file_id: self.file_id@,
            target_device_id: self.target_device_id,
            intent: self.intent@,
            status: self.status@,
            retry_count: self.retry_count,
            next_retry_at: self.next_retry_at,
        }
    }
}

pub fn copy_opt_text(o: &Option<String>) -> (r: Option<String>)
    ensures
        opt_text(r) == opt_text(*o),
{
    match o {
        Some(s) => Some(s.clone()),
        None => None,
    }
}

/// Whether `s` holds exactly the text `lit`.
pub fn text_is(s: &String, lit: &str) -> (r: bool)
    ensures
        r == (s@ == lit@),
{
    *s == String::from_str(lit)
}

impl FileRecord {
    pub fn duplicate(&self) -> (r: Self)
        ensures
            r@ == self@,
    {
        FileRecord {
            id: self.id.clone(),
            folder_id: self.folder_id,
            relative_path: self.relative_path.clone(),
            blake3_hash: copy_opt_text(&self.blake3_hash),
            revision: self.revision,
            size: self.size,
            is_deleted: self.is_deleted,
        }
    }
}

impl QueueRecord {
    pub fn duplicate(&self) -> (r: Self)
        ensures
            r@ == self@,
    {
        QueueRecord {
            op_id: self.op_id.clone(),
            file_id: self.file_id.clone(),
            target_device_id: self.target_device_id,
            intent: self.intent.clone(),
            status: self.status.clone(),
            retry_count: self.retry_count,
            next_retry_at: self.next_retry_at,
        }
    }
}

pub open spec fn file_rows(v: Seq<FileRecord>) -> Seq<FileRow> {
    v.map_values(|r: FileRecord| r@)
}

pub open spec fn queue_rows(v: Seq<QueueRecord>) -> Seq<QueueRow> {
    v.map_values(|r: QueueRecord| r@)
}

/// No two entries of `s` share a key.
pub open spec fn keys_unique<A, K>(s: Seq<A>, key: spec_fn(A) -> K) -> bool {
    forall|i: int, j: int|
        0 <= i < s.len() && 0 <= j < s.len() && i != j ==> key(#[trigger] s[i]) != key(
            #[trigger] s[j],
        )
}

/// Dropping entries keeps keys unique.
pub proof fn lemma_filter_keeps_unique<A, K>(s: Seq<A>, key: spec_fn(A) -> K, pred: spec_fn(A) -> bool)
    requires
        keys_unique(s, key),
    ensures
        keys_unique(s.filter(pred), key),
    decreases s.len(),
{
    if s.len() > 0 {
        let init = s.drop_last();
        let a = s.last();
        assert(s =~= init.push(a));
        assert(keys_unique(init, key)) by {
            assert forall|i: int, j: int|
                0 <= i < init.len() && 0 <= j < init.len() && i != j implies key(
                #[trigger] init[i],
            ) != key(#[trigger] init[j]) by {
                assert(init[i] == s[i] && init[j] == s[j]);
            }
        }
        lemma_filter_keeps_unique(init, key, pred);
        init.lemma_filter_push(a, pred);
        if pred(a) {
            let f = init.filter(pred);
            assert forall|k: int| 0 <= k < f.len() implies key(#[trigger] f[k]) != key(a) by {
                assert(f.contains(f[k]));
                init.lemma_filter_contains_rev(pred, f[k]);
                let m = choose|m: int| 0 <= m < init.len() && init[m] == f[k];
                assert(s[m] == init[m]);
                assert(s[s.len() - 1] == a);
            }
            let g = f.push(a);
            assert forall|i: int, j: int|
                0 <= i < g.len() && 0 <= j < g.len() && i != j implies key(#[trigger] g[i]) != key(
                #[trigger] g[j],
            ) by {
                if i < f.len() && j < f.len() {
                    assert(g[i] == f[i] && g[j] == f[j]);
                } else if i < f.len() {
                    assert(g[i] == f[i]);
                } else if j < f.len() {
                    assert(g[j] == f[j]);
                }
            }
        }
    }
}

// ---------------------------------------------------------------- the file table

pub open spec fn file_id_key() -> spec_fn(FileRow) -> Seq<char> {
    |r: FileRow| r.id
}

pub open spec fn file_path_key() -> spec_fn(FileRow) -> (i64, Seq<char>) {
    |r: FileRow| (r.folder_id, r.relative_path)
}

/// Rows that an insert of `r` leaves in place: those that share neither its
/// id nor its folder and path.
pub open spec fn unclashing(r: FileRow) -> spec_fn(FileRow) -> bool {
    |x: FileRow| x.id != r.id && !(x.folder_id == r.folder_id && x.relative_path == r.relative_path)
}

pub open spec fn active_in(folder_id: i64) -> spec_fn(FileRow) -> bool {
    |x: FileRow| x.folder_id == folder_id && !x.is_deleted
}

/// An insert that replaces every row it clashes with.
pub open spec fn upsert_file_spec(rows: Seq<FileRow>, r: FileRow) -> Seq<FileRow> {
    rows.filter(unclashing(r)).push(r)
}

pub open spec fn files_wf(rows: Seq<FileRow>) -> bool {
    keys_unique(rows, file_id_key()) && keys_unique(rows, file_path_key())
}

/// The `files` table, rows in insertion order. Ids are unique, and so is each
/// folder-and-path pair.
pub struct FileTable {
    pub rows: Vec<FileRecord>,
}

impl View for FileTable {
    type V = Seq<FileRow>;

    open spec fn view(&self) -> Seq<FileRow> {
        file_rows(self.rows@)
    }
}

impl FileTable {
    pub fn new() -> (t: Self)
        ensures
            t@ == Seq::<FileRow>::empty(),
            files_wf(t@),
    {
        let t = FileTable { rows: Vec::new() };
        assert(t@ =~= Seq::<FileRow>::empty());
        t
    }

    pub open spec fn wf(&self) -> bool {
        files_wf(self@)
    }

    /// Inserts `record`, first removing any row with its id or with its
    /// folder and path.
    pub fn upsert_file(&mut self, record: &FileRecord)
        requires
            old(self).wf(),
        ensures
            final(self).wf(),
            final(self)@ == upsert_file_spec(old(self)@, record@),
    {
        let ghost before = self@;
        let ghost keep = unclashing(record@);
        let mut kept: Vec<FileRecord> = Vec::new();
        let mut i: usize = 0;
        while i < self.rows.len()
            invariant
                i <= self.rows@.len(),
                before == file_rows(self.rows@),
                keep == unclashing(record@),
                file_rows(kept@) == before.take(i as int).filter(keep),
            decreases self.rows@.len() - i,
        {
            let x = &self.rows[i];
            proof {
                assert(before.take(i + 1) =~= before.take(i as int).push(before[i as int]));
                before.take(i as int).lemma_filter_push(before[i as int], keep);
            }
            if !(x.id == record.id) && !(x.folder_id == record.folder_id
                && x.relative_path == record.relative_path) {
                let d = x.duplicate();
                let ghost old_kept = kept@;
                kept.push(d);
                proof {
                    assert(file_rows(kept@) =~= file_rows(old_kept).push(d@));
                }
            }
            i = i + 1;
        }
        assert(before.take(before.len() as int) =~= before);
        let ghost old_kept = kept@;
        kept.push(record.duplicate());
        assert(file_rows(kept@) =~= file_rows(old_kept).push(record@));
        self.rows = kept;
        proof {
            lemma_filter_keeps_unique(before, file_id_key(), keep);
            lemma_filter_keeps_unique(before, file_path_key(), keep);
            let f = before.filter(keep);
            let g = f.push(record@);
            assert forall|k: int| 0 <= k < f.len() implies #[trigger] keep(f[k]) by {}
            assert forall|i: int, j: int|
                0 <= i < g.len() && 0 <= j < g.len() && i != j implies (file_id_key())(
                #[trigger] g[i],
            ) != (file_id_key())(#[trigger] g[j]) by {
                if i < f.len() {
                    assert(g[i] == f[i]);
                    assert(keep(f[i]));
                }
                if j < f.len() {
                    assert(g[j] == f[j]);
                    assert(keep(f[j]));
                }
            }
            assert forall|i: int, j: int|
                0 <= i < g.len() && 0 <= j < g.len() && i != j implies (file_path_key())(
                #[trigger] g[i],
            ) != (file_path_key())(#[trigger] g[j]) by {
                if i < f.len() {
                    assert(g[i] == f[i]);
                    assert(keep(f[i]));
                }
                if j < f.len() {
                    assert(g[j] == f[j]);
                    assert(keep(f[j]));
                }
            }
        }
    }

    /// The row with `id`, if there is one.
    pub fn get_file_by_id(&self, id: &String) -> (r: Option<FileRecord>)
        ensures
            match r {
                Some(f) => exists|k: int| 0 <= k < self@.len() && self@[k] == f@ && f@.id == id@,
                None => forall|k: int| 0 <= k < self@.len() ==> (#[trigger] self@[k]).id != id@,
            },
    {
        let mut i: usize = 0;
        while i < self.rows.len()
            invariant
                i <= self.rows@.len(),
                forall|k: int| 0 <= k < i ==> (#[trigger] file_rows(self.rows@)[k]).id != id@,
            decreases self.rows@.len() - i,
        {
            if self.rows[i].id == *id {
                let f = self.rows[i].duplicate();
                assert(self@[i as int] == f@);
                return Some(f);
            }
            i = i + 1;
        }
        None
    }

    /// The row for `relative_path` in folder `folder_id`, if there is one.
    pub fn get_file_by_path(&self, folder_id: i64, relative_path: &String) -> (r: Option<FileRecord>)
        ensures
            match r {
                Some(f) => exists|k: int|
                    0 <= k < self@.len() && self@[k] == f@ && f@.folder_id == folder_id
                        && f@.relative_path == relative_path@,
                None => forall|k: int|
                    0 <= k < self@.len() ==> !((#[trigger] self@[k]).folder_id == folder_id
                        && self@[k].relative_path == relative_path@),
            },
    {
        let mut i: usize = 0;
        while i < self.rows.len()
            invariant
                i <= self.rows@.len(),
                forall|k: int|
                    0 <= k < i ==> !((#[trigger] file_rows(self.rows@)[k]).folder_id == folder_id
                        && file_rows(self.rows@)[k].relative_path == relative_path@),
            decreases self.rows@.len() - i,
        {
            if self.rows[i].folder_id == folder_id && self.rows[i].relative_path == *relative_path {
                let f = self.rows[i].duplicate();
                assert(self@[i as int] == f@);
                return Some(f);
            }
            i = i + 1;
        }
        None
    }

    /// The rows of `folder_id` that are not marked deleted, in table order.
    pub fn get_all_active_files(&self, folder_id: i64) -> (r: Vec<FileRecord>)
        ensures
            file_rows(r@) == self@.filter(active_in(folder_id)),
    {
        let ghost rows = self@;
        let ghost keep = active_in(folder_id);
        let mut out: Vec<FileRecord> = Vec::new();
        let mut i: usize = 0;
        while i < self.rows.len()
            invariant
                i <= self.rows@.len(),
                rows == file_rows(self.rows@),
                keep == active_in(folder_id),
                file_rows(out@) == rows.take(i as int).filter(keep),
            decreases self.rows@.len() - i,
        {
            proof {
                assert(rows.take(i + 1) =~= rows.take(i as int).push(rows[i as int]));
                rows.take(i as int).lemma_filter_push(rows[i as int], keep);
            }
            if self.rows[i].folder_id == folder_id && !self.rows[i].is_deleted {
                let d = self.rows[i].duplicate();
                let ghost old_out = out@;
                out.push(d);
                assert(file_rows(out@) =~= file_rows(old_out).push(d@));
            }
            i = i + 1;
        }
        assert(rows.take(rows.len() as int) =~= rows);
        out
    }

    /// Marks the row with `id` deleted; other rows are untouched.
    pub fn delete_file_logical(&mut self, id: &String)
        requires
            old(self).wf(),
        ensures
            final(self).wf(),
            final(self)@.len() == old(self)@.len(),
            forall|k: int|
                0 <= k < old(self)@.len() ==> #[trigger] final(self)@[k] == (if old(self)@[k].id == id@ {
                    FileRow { is_deleted: true, ..old(self)@[k] }
                } else {
                    old(self)@[k]
                }),
    {
        let ghost before = self@;
        let mut i: usize = 0;
        while i < self.rows.len()
            invariant
                i <= self.rows@.len(),
                self@.len() == before.len(),
                forall|k: int|
                    0 <= k < i ==> #[trigger] self@[k] == (if before[k].id == id@ {
                        FileRow { is_deleted: true, ..before[k] }
                    } else {
                        before[k]
                    }),
                forall|k: int| i <= k < before.len() ==> #[trigger] self@[k] == before[k],
            decreases self.rows@.len() - i,
        {
            if self.rows[i].id == *id {
                let r = &self.rows[i];
                let updated = FileRecord {
                    id: r.id.clone(),
                    folder_id: r.folder_id,
                    relative_path: r.relative_path.clone(),
                    blake3_hash: copy_opt_text(&r.blake3_hash),
                    revision: r.revision,
                    size: r.size,
                    is_deleted: true,
                };
                let ghost prev = self.rows@;
                self.rows.set(i, updated);
                assert(file_rows(self.rows@) =~= file_rows(prev).update(i as int, updated@));
                assert(before[i as int] == file_rows(prev)[i as int]);
                assert(updated@ == FileRow { is_deleted: true, ..before[i as int] });
            }
            i = i + 1;
        }
        proof {
            let a = self@;
            assert forall|x: int, y: int|
                0 <= x < a.len() && 0 <= y < a.len() && x != y implies (file_id_key())(
                #[trigger] a[x],
            ) != (file_id_key())(#[trigger] a[y]) by {
                assert(a[x].id == before[x].id && a[y].id == before[y].id);
                assert((file_id_key())(before[x]) != (file_id_key())(before[y]));
            }
            assert forall|x: int, y: int|
                0 <= x < a.len() && 0 <= y < a.len() && x != y implies (file_path_key())(
                #[trigger] a[x],
            ) != (file_path_key())(#[trigger] a[y]) by {
                assert(a[x].folder_id == before[x].folder_id && a[y].folder_id == before[y].folder_id);
                assert(a[x].relative_path == before[x].relative_path);
                assert(a[y].relative_path == before[y].relative_path);
                assert((file_path_key())(before[x]) != (file_path_key())(before[y]));
            }
        }
    }
}

/// What a read gives back of a write: after `record` is upserted, it is the
/// one row found under its id and the one row found under its folder and path.
pub proof fn lemma_upsert_then_lookup(rows: Seq<FileRow>, record: FileRow)
    requires
        files_wf(rows),
    ensures
        ({
            let after = upsert_file_spec(rows, record);
            &&& after[after.len() - 1] == record
            &&& forall|k: int| 0 <= k < after.len() && (#[trigger] after[k]).id == record.id ==> after[k] == record
            &&& forall|k: int|
                0 <= k < after.len() && (#[trigger] after[k]).folder_id == record.folder_id
                    && after[k].relative_path == record.relative_path ==> after[k] == record
        }),
{
    let f = rows.filter(unclashing(record));
    let after = f.push(record);
    assert forall|k: int| 0 <= k < after.len() && (#[trigger] after[k]).id == record.id implies after[k] == record by {
        if k < f.len() {
            assert(after[k] == f[k]);
            assert((unclashing(record))(f[k]));
        }
    }
    assert forall|k: int|
        0 <= k < after.len() && (#[trigger] after[k]).folder_id == record.folder_id
            && after[k].relative_path == record.relative_path implies after[k] == record by {
        if k < f.len() {
            assert(after[k] == f[k]);
            assert((unclashing(record))(f[k]));
        }
    }
}


// ---------------------------------------------------------------- the intent queue

pub open spec fn op_key() -> spec_fn(QueueRow) -> Seq<char> {
    |r: QueueRow| r.op_id
}

pub open spec fn queue_wf(rows: Seq<QueueRow>) -> bool {
    keys_unique(rows, op_key())
}

pub open spec fn with_status(r: QueueRow, status: Seq<char>) -> QueueRow {
    QueueRow { status: status, ..r }
}

/// A fresh intent (no retries yet) is dropped while an identical one, same
/// file and same intent, still waits as `Pending`.
pub open spec fn has_pending_twin(rows: Seq<QueueRow>, r: QueueRow) -> bool {
    r.retry_count == 0 && exists|k: int|
        0 <= k < rows.len() && (#[trigger] rows[k]).file_id == r.file_id && rows[k].intent == r.intent
            && rows[k].status == "Pending"@
}

pub open spec fn has_op(rows: Seq<QueueRow>, op_id: Seq<char>) -> bool {
    exists|k: int| 0 <= k < rows.len() && (#[trigger] rows[k]).op_id == op_id
}

pub open spec fn op_index(rows: Seq<QueueRow>, op_id: Seq<char>) -> int {
    choose|k: int| 0 <= k < rows.len() && (#[trigger] rows[k]).op_id == op_id
}

/// Enqueueing: a pending twin makes it a no-op; a row with the same
/// operation id takes the new status, retry count and retry time; otherwise
/// the row is appended.
pub open spec fn enqueue_spec(rows: Seq<QueueRow>, r: QueueRow) -> Seq<QueueRow> {
    if has_pending_twin(rows, r) {
        rows
    } else if has_op(rows, r.op_id) {
        let k = op_index(rows, r.op_id);
        rows.update(
            k,
            QueueRow {
                status: r.status,
                retry_count: r.retry_count,
                next_retry_at: r.next_retry_at,
                ..rows[k]
            },
        )
    } else {
        rows.push(r)
    }
}

pub open spec fn is_due(r: QueueRow, now: i64) -> bool {
    r.status == "Pending"@ && r.next_retry_at <= now
}

/// Dequeueing: the first `limit` due rows, in table order (all of them when
/// `limit` is negative), are marked `Transferring` and handed out.
pub open spec fn dequeue_spec(rows: Seq<QueueRow>, now: i64, limit: i64) -> (Seq<QueueRow>, Seq<QueueRow>)
    decreases rows.len(),
{
    if rows.len() == 0 {
        (rows, Seq::empty())
    } else {
        let prev = dequeue_spec(rows.drop_last(), now, limit);
        let r = rows.last();
        if is_due(r, now) && (limit < 0 || prev.1.len() < limit) {
            let m = with_status(r, "Transferring"@);
            (prev.0.push(m), prev.1.push(m))
        } else {
            (prev.0.push(r), prev.1)
        }
    }
}

pub open spec fn other_op(op_id: Seq<char>) -> spec_fn(QueueRow) -> bool {
    |r: QueueRow| r.op_id != op_id
}

pub open spec fn other_file(file_id: Seq<char>) -> spec_fn(QueueRow) -> bool {
    |r: QueueRow| r.file_id != file_id
}

/// 2 to the power `n`.
pub open spec fn two_pow(n: nat) -> nat
    decreases n,
{
    if n == 0 {
        1
    } else {
        2 * two_pow((n - 1) as nat)
    }
}

pub fn two_pow_exec(n: u32) -> (r: u64)
    requires
        n <= 6,
    ensures
        r == two_pow(n as nat),
        1 <= r <= 64,
{
    let mut r: u64 = 1;
    let mut i: u32 = 0;
    while i < n
        invariant
            i <= n <= 6,
            r == two_pow(i as nat),
            1 <= r <= 64,
        decreases n - i,
    {
        proof {
            lemma_two_pow_small((i + 1) as nat);
        }
        r = r * 2;
        i = i + 1;
    }
    r
}

pub proof fn lemma_two_pow_small(n: nat)
    requires
        n <= 6,
    ensures
        1 <= two_pow(n) <= 64,
        n < 6 ==> two_pow(n) <= 32,
{
    reveal_with_fuel(two_pow, 7);
    assert(n == 0 || n == 1 || n == 2 || n == 3 || n == 4 || n == 5 || n == 6);
}

/// Whether the recovery pass marks a row `Dead`: failed ten times or more.
pub open spec fn exhausted(r: QueueRow) -> bool {
    r.status == "Failed"@ && r.retry_count >= 10
}

/// A row after the first recovery step.
pub open spec fn after_reaping(r: QueueRow) -> QueueRow {
    if exhausted(r) {
        with_status(r, "Dead"@)
    } else {
        r
    }
}

/// Whether the recovery pass revives a row: failed, or stuck transferring
/// for more than five minutes past its retry time.
pub open spec fn stale(r: QueueRow, now: i64) -> bool {
    r.status == "Failed"@ || (r.status == "Transferring"@ && r.next_retry_at < now - 300)
}

pub open spec fn min_int(a: int, b: int) -> int {
    if a <= b {
        a
    } else {
        b
    }
}

/// Delay before a revived row is due again: `10 * 2^min(retries, 6)` seconds.
pub open spec fn recovery_delay(retry_count: u32) -> int {
    10 * (two_pow(min_int(retry_count as int, 6) as nat) as int)
}

pub open spec fn recover_row(r: QueueRow, now: i64) -> QueueRow {
    let a = after_reaping(r);
    if stale(a, now) {
        QueueRow {
            status: "Pending"@,
            retry_count: (a.retry_count + 1) as u32,
            next_retry_at: (now + recovery_delay(a.retry_count)) as i64,
            ..a
        }
    } else {
        a
    }
}

pub open spec fn recovered_by(now: i64) -> spec_fn(QueueRow) -> bool {
    |r: QueueRow| stale(after_reaping(r), now)
}

/// Completed rows whose time lies more than a week back.
pub open spec fn prunable(r: QueueRow, now: i64) -> bool {
    r.status == "Completed"@ && r.next_retry_at < now - 604800
}

pub open spec fn kept_after_prune(now: i64) -> spec_fn(QueueRow) -> bool {
    |r: QueueRow| !prunable(r, now)
}

/// Seconds a failed transfer waits before its retry:
/// `min(5 * 2^min(retries, 6), 300)`.
pub open spec fn retry_backoff_spec(retry_count: u32) -> int {
    min_int(5 * (two_pow(min_int(retry_count as int, 6) as nat) as int), 300)
}

pub fn retry_backoff_secs(retry_count: u32) -> (secs: u64)
    ensures
        secs == retry_backoff_spec(retry_count),
        10 <= secs || retry_count == 0,
        secs <= 300,
{
    let m: u32 = if retry_count < 6 {
        retry_count
    } else {
        6
    };
    let p = two_pow_exec(m);
    let b = 5 * p;
    proof {
        reveal_with_fuel(two_pow, 7);
    }
    if b < 300 {
        b
    } else {
        300
    }
}

/// The retry count and retry time a failed transfer is written back with:
/// one more retry, due again after the backoff.
pub fn failed_retry(retry_count: u32, now: i64) -> (r: (u32, i64))
    requires
        retry_count < u32::MAX,
        now <= i64::MAX - 300,
    ensures
        r.0 == retry_count + 1,
        r.1 == now + retry_backoff_spec((retry_count + 1) as u32),
{
    let n = retry_count + 1;
    let b = retry_backoff_secs(n);
    (n, now + b as i64)
}

/// The `queue` table, rows in insertion order; operation ids are unique.
pub struct QueueTable {
    pub rows: Vec<QueueRecord>,
}

impl View for QueueTable {
    type V = Seq<QueueRow>;

    open spec fn view(&self) -> Seq<QueueRow> {
        queue_rows(self.rows@)
    }
}

impl QueueTable {
    pub fn new() -> (t: Self)
        ensures
            t@ == Seq::<QueueRow>::empty(),
            queue_wf(t@),
    {
        let t = QueueTable { rows: Vec::new() };
        assert(t@ =~= Seq::<QueueRow>::empty());
        t
    }

    pub open spec fn wf(&self) -> bool {
        queue_wf(self@)
    }

    fn find_op(&self, op_id: &String) -> (r: Option<usize>)
        ensures
            match r {
                Some(k) => k < self@.len() && self@[k as int].op_id == op_id@,
                None => !has_op(self@, op_id@),
            },
    {
        let mut i: usize = 0;
        while i < self.rows.len()
            invariant
                i <= self.rows@.len(),
                forall|k: int| 0 <= k < i ==> (#[trigger] queue_rows(self.rows@)[k]).op_id != op_id@,
            decreases self.rows@.len() - i,
        {
            if self.rows[i].op_id == *op_id {
                return Some(i);
            }
            i = i + 1;
        }
        None
    }

    fn has_pending_twin_exec(&self, record: &QueueRecord) -> (r: bool)
        ensures
            r == has_pending_twin(self@, record@),
    {
        if record.retry_count != 0 {
            return false;
        }
        let mut i: usize = 0;
        while i < self.rows.len()
            invariant
                i <= self.rows@.len(),
                record.retry_count == 0,
                forall|k: int|
                    0 <= k < i ==> !((#[trigger] queue_rows(self.rows@)[k]).file_id == record@.file_id
                        && queue_rows(self.rows@)[k].intent == record@.intent
                        && queue_rows(self.rows@)[k].status == "Pending"@),
            decreases self.rows@.len() - i,
        {
            let x = &self.rows[i];
            if x.file_id == record.file_id && x.intent == record.intent && text_is(&x.status, "Pending") {
                assert(self@[i as int] == x@);
                return true;
            }
            i = i + 1;
        }
        false
    }

    /// Adds an intent (see `enqueue_spec`).
    pub fn enqueue_intent(&mut self, record: &QueueRecord)
        requires
            old(self).wf(),
        ensures
            final(self).wf(),
            final(self)@ == enqueue_spec(old(self)@, record@),
    {
        if self.has_pending_twin_exec(record) {
            return;
        }
        match self.find_op(&record.op_id) {
            Some(k) => {
                let ghost before = self@;
                let x = &self.rows[k];
                let updated = QueueRecord {
                    op_id: x.op_id.clone(),
                    file_id: x.file_id.clone(),
                    target_device_id: x.target_device_id,
                    intent: x.intent.clone(),
                    status: record.status.clone(),
                    retry_count: record.retry_count,
                    next_retry_at: record.next_retry_at,
                };
                let ghost prev = self.rows@;
                self.rows.set(k, updated);
                proof {
                    assert(queue_rows(self.rows@) =~= queue_rows(prev).update(k as int, updated@));
                    let j = op_index(before, record@.op_id);
                    assert((op_key())(before[j]) == (op_key())(before[k as int]));
                    assert(j == k);
                    let a = self@;
                    assert forall|x: int, y: int|
                        0 <= x < a.len() && 0 <= y < a.len() && x != y implies (op_key())(
                        #[trigger] a[x],
                    ) != (op_key())(#[trigger] a[y]) by {
                        assert(a[x].op_id == before[x].op_id && a[y].op_id == before[y].op_id);
                        assert((op_key())(before[x]) != (op_key())(before[y]));
                    }
                }
            },
            None => {
                let ghost before = self@;
                let d = record.duplicate();
                let ghost prev = self.rows@;
                self.rows.push(d);
                proof {
                    assert(queue_rows(self.rows@) =~= queue_rows(prev).push(d@));
                    let a = self@;
                    assert forall|x: int, y: int|
                        0 <= x < a.len() && 0 <= y < a.len() && x != y implies (op_key())(
                        #[trigger] a[x],
                    ) != (op_key())(#[trigger] a[y]) by {
                        if x < before.len() && y < before.len() {
                            assert(a[x] == before[x] && a[y] == before[y]);
                        } else if x < before.len() {
                            assert(a[x] == before[x]);
                        } else {
                            assert(a[y] == before[y]);
                        }
                    }
                }
            },
        }
    }

    /// Marks the first `limit` due rows `Transferring` and returns them
    /// (see `dequeue_spec`).
    pub fn dequeue_pending(&mut self, limit: i64, now: i64) -> (out: Vec<QueueRecord>)
        requires
            old(self).wf(),
        ensures
            final(self).wf(),
            final(self)@ == dequeue_spec(old(self)@, now, limit).0,
            queue_rows(out@) == dequeue_spec(old(self)@, now, limit).1,
    {
        let ghost before = self@;
        let mut kept: Vec<QueueRecord> = Vec::new();
        let mut out: Vec<QueueRecord> = Vec::new();
        let mut i: usize = 0;
        while i < self.rows.len()
            invariant
                i <= self.rows@.len(),
                before == queue_rows(self.rows@),
                queue_rows(kept@) == dequeue_spec(before.take(i as int), now, limit).0,
                queue_rows(out@) == dequeue_spec(before.take(i as int), now, limit).1,
                out@.len() <= i,
                kept@.len() == i,
                forall|k: int| 0 <= k < i ==> (#[trigger] queue_rows(kept@)[k]).op_id == before[k].op_id,
            decreases self.rows@.len() - i,
        {
            proof {
                assert(before.take(i + 1).drop_last() =~= before.take(i as int));
                assert(before.take(i + 1).last() == before[i as int]);
            }
            let x = &self.rows[i];
            let room = limit < 0 || (out.len() as u64) < (limit as u64);
            assert(room == (limit < 0 || dequeue_spec(before.take(i as int), now, limit).1.len() < limit));
            if text_is(&x.status, "Pending") && x.next_retry_at <= now && room {
                let m = QueueRecord {
                    op_id: x.op_id.clone(),
                    file_id: x.file_id.clone(),
                    target_device_id: x.target_device_id,
                    intent: x.intent.clone(),
                    status: String::from_str("Transferring"),
                    retry_count: x.retry_count,
                    next_retry_at: x.next_retry_at,
                };
                let m2 = m.duplicate();
                let ghost pk = kept@;
                let ghost po = out@;
                kept.push(m);
                out.push(m2);
                proof {
                    assert(queue_rows(kept@) =~= queue_rows(pk).push(m@));
                    assert(queue_rows(out@) =~= queue_rows(po).push(m2@));
                }
            } else {
                let d = x.duplicate();
                let ghost pk = kept@;
                kept.push(d);
                proof {
                    assert(queue_rows(kept@) =~= queue_rows(pk).push(d@));
                }
            }
            i = i + 1;
        }
        assert(before.take(before.len() as int) =~= before);
        self.rows = kept;
        proof {
            let a = self@;
            assert forall|x: int, y: int|
                0 <= x < a.len() && 0 <= y < a.len() && x != y implies (op_key())(
                #[trigger] a[x],
            ) != (op_key())(#[trigger] a[y]) by {
                assert((op_key())(before[x]) != (op_key())(before[y]));
            }
        }
        out
    }

    /// Writes a failed transfer back as `Pending` with its new retry count
    /// and retry time; other rows are untouched.
    pub fn update_failed_queue_item(&mut self, op_id: &String, retry_count: u32, next_retry_at: i64)
        requires
            old(self).wf(),
        ensures
            final(self).wf(),
            has_op(old(self)@, op_id@) ==> final(self)@ == old(self)@.update(
                op_index(old(self)@, op_id@),
                QueueRow {
                    status: "Pending"@,
                    retry_count: retry_count,
                    next_retry_at: next_retry_at,
                    ..old(self)@[op_index(old(self)@, op_id@)]
                },
            ),
            !has_op(old(self)@, op_id@) ==> final(self)@ == old(self)@,
    {
        match self.find_op(op_id) {
            Some(k) => {
                let ghost before = self@;
                let x = &self.rows[k];
                let updated = QueueRecord {
                    op_id: x.op_id.clone(),
                    file_id: x.file_id.clone(),
                    target_device_id: x.target_device_id,
                    intent: x.intent.clone(),
                    status: String::from_str("Pending"),
                    retry_count: retry_count,
                    next_retry_at: next_retry_at,
                };
                let ghost prev = self.rows@;
                self.rows.set(k, updated);
                proof {
                    assert(queue_rows(self.rows@) =~= queue_rows(prev).update(k as int, updated@));
                    let j = op_index(before, op_id@);
                    assert((op_key())(before[j]) == (op_key())(before[k as int]));
                    assert(j == k);
                    let a = self@;
                    assert forall|x: int, y: int|
                        0 <= x < a.len() && 0 <= y < a.len() && x != y implies (op_key())(
                        #[trigger] a[x],
                    ) != (op_key())(#[trigger] a[y]) by {
                        assert(a[x].op_id == before[x].op_id && a[y].op_id == before[y].op_id);
                        assert((op_key())(before[x]) != (op_key())(before[y]));
                    }
                }
            },
            None => {},
        }
    }

    fn retain_rows(&mut self, Ghost(keep): Ghost<spec_fn(QueueRow) -> bool>, op_id: Option<&String>, file_id: Option<&String>)
        requires
            old(self).wf(),
            op_id is Some ==> keep == other_op(op_id->0@),
            file_id is Some ==> keep == other_file(file_id->0@),
            op_id is Some <==> file_id is None,
        ensures
            final(self).wf(),
            final(self)@ == old(self)@.filter(keep),
    {
        let ghost before = self@;
        let mut kept: Vec<QueueRecord> = Vec::new();
        let mut i: usize = 0;
        while i < self.rows.len()
            invariant
                i <= self.rows@.len(),
                before == queue_rows(self.rows@),
                op_id is Some ==> keep == other_op(op_id->0@),
                file_id is Some ==> keep == other_file(file_id->0@),
                op_id is Some <==> file_id is None,
                queue_rows(kept@) == before.take(i as int).filter(keep),
            decreases self.rows@.len() - i,
        {
            proof {
                assert(before.take(i + 1) =~= before.take(i as int).push(before[i as int]));
                before.take(i as int).lemma_filter_push(before[i as int], keep);
            }
            let x = &self.rows[i];
            let stays = match op_id {
                Some(o) => !(x.op_id == *o),
                None => match file_id {
                    Some(f) => !(x.file_id == *f),
                    None => true,
                },
            };
            if stays {
                let d = x.duplicate();
                let ghost pk = kept@;
                kept.push(d);
                proof {
                    assert(queue_rows(kept@) =~= queue_rows(pk).push(d@));
                }
            }
            i = i + 1;
        }
        assert(before.take(before.len() as int) =~= before);
        self.rows = kept;
        proof {
            lemma_filter_keeps_unique(before, op_key(), keep);
        }
    }

    /// Removes the row with `op_id`.
    pub fn remove_queue_item(&mut self, op_id: &String)
        requires
            old(self).wf(),
        ensures
            final(self).wf(),
            final(self)@ == old(self)@.filter(other_op(op_id@)),
    {
        self.retain_rows(Ghost(other_op(op_id@)), Some(op_id), None);
    }

    /// Removes every row queued for `file_id`.
    pub fn delete_intents_for_file(&mut self, file_id: &String)
        requires
            old(self).wf(),
        ensures
            final(self).wf(),
            final(self)@ == old(self)@.filter(other_file(file_id@)),
    {
        self.retain_rows(Ghost(other_file(file_id@)), None, Some(file_id));
    }

    /// The recovery pass: rows failed ten times are marked `Dead`; failed
    /// rows and rows stuck transferring are made `Pending` again with one more
    /// retry and a delay (see `recover_row`). Returns how many were revived.
    pub fn recover_stale_intents(&mut self, now: i64) -> (count: usize)
        requires
            old(self).wf(),
            i64::MIN + 300 <= now <= i64::MAX - 640,
            forall|k: int| 0 <= k < old(self)@.len() ==> (#[trigger] old(self)@[k]).retry_count < u32::MAX,
        ensures
            final(self).wf(),
            final(self)@.len() == old(self)@.len(),
            forall|k: int| 0 <= k < old(self)@.len() ==> #[trigger] final(self)@[k] == recover_row(old(self)@[k], now),
            count == old(self)@.filter(recovered_by(now)).len(),
    {
        let ghost before = self@;
        let mut kept: Vec<QueueRecord> = Vec::new();
        let mut count: usize = 0;
        let mut i: usize = 0;
        while i < self.rows.len()
            invariant
                i <= self.rows@.len(),
                before == queue_rows(self.rows@),
                i64::MIN + 300 <= now <= i64::MAX - 640,
                forall|k: int| 0 <= k < before.len() ==> (#[trigger] before[k]).retry_count < u32::MAX,
                kept@.len() == i,
                forall|k: int| 0 <= k < i ==> #[trigger] queue_rows(kept@)[k] == recover_row(before[k], now),
                count == before.take(i as int).filter(recovered_by(now)).len(),
                count <= i,
            decreases self.rows@.len() - i,
        {
            proof {
                assert(before.take(i + 1) =~= before.take(i as int).push(before[i as int]));
                before.take(i as int).lemma_filter_push(before[i as int], recovered_by(now));
            }
            let x = &self.rows[i];
            assert(x@ == before[i as int]);
            let exhausted_now = text_is(&x.status, "Failed") && x.retry_count >= 10;
            let failed_after = text_is(&x.status, "Failed") && !exhausted_now;
            let status_after: String = if exhausted_now {
                String::from_str("Dead")
            } else {
                x.status.clone()
            };
            proof {
                reveal_strlit("Dead");
                reveal_strlit("Failed");
                reveal_strlit("Transferring");
            }
            let stale_now = failed_after || (text_is(&status_after, "Transferring") && x.next_retry_at < now - 300);
            proof {
                assert("Dead"@ != "Failed"@) by {
                    assert("Dead"@.len() != "Failed"@.len());
                }
                assert("Dead"@ != "Transferring"@) by {
                    assert("Dead"@.len() != "Transferring"@.len());
                }
                assert(after_reaping(x@).status == status_after@);
            }
            assert(stale_now == stale(after_reaping(x@), now));
            let m = if stale_now {
                let e: u32 = if x.retry_count < 6 {
                    x.retry_count
                } else {
                    6
                };
                let delay = 10 * two_pow_exec(e);
                QueueRecord {
                    op_id: x.op_id.clone(),
                    file_id: x.file_id.clone(),
                    target_device_id: x.target_device_id,
                    intent: x.intent.clone(),
                    status: String::from_str("Pending"),
                    retry_count: x.retry_count + 1,
                    next_retry_at: now + delay as i64,
                }
            } else {
                QueueRecord {
                    op_id: x.op_id.clone(),
                    file_id: x.file_id.clone(),
                    target_device_id: x.target_device_id,
                    intent: x.intent.clone(),
                    status: status_after,
                    retry_count: x.retry_count,
                    next_retry_at: x.next_retry_at,
                }
            };
            assert(m@ == recover_row(before[i as int], now));
            if stale_now {
                count = count + 1;
            }
            let ghost pk = kept@;
            kept.push(m);
            proof {
                assert(queue_rows(kept@) =~= queue_rows(pk).push(m@));
                assert(forall|k: int| 0 <= k < i ==> queue_rows(kept@)[k] == queue_rows(pk)[k]);
            }
            i = i + 1;
        }
        assert(before.take(before.len() as int) =~= before);
        self.rows = kept;
        proof {
            let a = self@;
            assert forall|x: int, y: int|
                0 <= x < a.len() && 0 <= y < a.len() && x != y implies (op_key())(
                #[trigger] a[x],
            ) != (op_key())(#[trigger] a[y]) by {
                assert(a[x] == recover_row(before[x], now));
                assert(a[y] == recover_row(before[y], now));
                assert((op_key())(before[x]) != (op_key())(before[y]));
            }
        }
        count
    }

    /// Deletes completed rows older than a week; returns how many went.
    pub fn prune_completed_intents(&mut self, now: i64) -> (count: usize)
        requires
            old(self).wf(),
            now >= i64::MIN + 604800,
        ensures
            final(self).wf(),
            final(self)@ == old(self)@.filter(kept_after_prune(now)),
            count == old(self)@.len() - final(self)@.len(),
    {
        let ghost before = self@;
        let ghost keep = kept_after_prune(now);
        let mut kept: Vec<QueueRecord> = Vec::new();
        let mut i: usize = 0;
        while i < self.rows.len()
            invariant
                i <= self.rows@.len(),
                before == queue_rows(self.rows@),
                keep == kept_after_prune(now),
                now >= i64::MIN + 604800,
                queue_rows(kept@) == before.take(i as int).filter(keep),
                kept@.len() <= i,
            decreases self.rows@.len() - i,
        {
            proof {
                assert(before.take(i + 1) =~= before.take(i as int).push(before[i as int]));
                before.take(i as int).lemma_filter_push(before[i as int], keep);
            }
            let x = &self.rows[i];
            if !(text_is(&x.status, "Completed") && x.next_retry_at < now - 604800) {
                let d = x.duplicate();
                let ghost pk = kept@;
                kept.push(d);
                proof {
                    assert(queue_rows(kept@) =~= queue_rows(pk).push(d@));
                }
            }
            i = i + 1;
        }
        assert(before.take(before.len() as int) =~= before);
        let removed = self.rows.len() - kept.len();
        self.rows = kept;
        proof {
            lemma_filter_keeps_unique(before, op_key(), keep);
        }
        removed
    }
}

/// Most queue transfers running at once.
pub const MAX_CONCURRENT_TRANSFERS: usize = 4;

/// The queue worker's admission state: how many dispatched transfers are
/// still running. It never exceeds `MAX_CONCURRENT_TRANSFERS`.
pub struct SyncQueueEngine {
    pub in_flight: usize,
}

impl SyncQueueEngine {
    pub open spec fn wf(&self) -> bool {
        self.in_flight <= MAX_CONCURRENT_TRANSFERS
    }

    pub fn new() -> (e: Self)
        ensures
            e.in_flight == 0,
            e.wf(),
    {
        SyncQueueEngine { in_flight: 0 }
    }

    /// Claims the next due intent for dispatch. With every slot taken the
    /// queue is not touched and nothing is claimed; otherwise one row is
    /// dequeued (marked `Transferring`) and takes a slot, or, with nothing
    /// due, the worker goes back to waiting.
    pub fn claim_next(&mut self, queue: &mut QueueTable, now: i64) -> (r: Option<QueueRecord>)
        requires
            old(self).wf(),
            old(queue).wf(),
        ensures
            final(self).wf(),
            final(queue).wf(),
            old(self).in_flight == MAX_CONCURRENT_TRANSFERS ==> {
                &&& r is None
                &&& final(queue)@ == old(queue)@
                &&& final(self).in_flight == old(self).in_flight
            },
            old(self).in_flight < MAX_CONCURRENT_TRANSFERS ==> {
                &&& final(queue)@ == dequeue_spec(old(queue)@, now, 1).0
                &&& match r {
                    Some(x) => {
                        &&& dequeue_spec(old(queue)@, now, 1).1 == seq![x@]
                        &&& final(self).in_flight == old(self).in_flight + 1
                    },
                    None => {
                        &&& dequeue_spec(old(queue)@, now, 1).1.len() == 0
                        &&& final(self).in_flight == old(self).in_flight
                    },
                }
            },
    {
        if self.in_flight >= MAX_CONCURRENT_TRANSFERS {
            return None;
        }
        let ghost before = queue@;
        let mut v = queue.dequeue_pending(1, now);
        proof {
            lemma_dequeued_not_due(before, now, 1);
        }
        assert(queue_rows(v@).len() == v@.len());
        if v.len() == 0 {
            None
        } else {
            let x = v.remove(0);
            proof {
                let out = dequeue_spec(before, now, 1).1;
                assert(out.len() == 1);
                assert(out[0] == queue_rows(v@.insert(0, x))[0]);
                assert(out =~= seq![x@]);
            }
            self.in_flight = self.in_flight + 1;
            Some(x)
        }
    }

    /// A dispatched transfer ended. Its slot is freed; on success its row
    /// leaves the queue, on failure the row is `Pending` again with one more
    /// retry and the backoff added to `now`.
    pub fn finish(&mut self, queue: &mut QueueTable, claimed: &QueueRecord, succeeded: bool, now: i64)
        requires
            old(self).wf(),
            old(self).in_flight > 0,
            old(queue).wf(),
            claimed.retry_count < u32::MAX,
            now <= i64::MAX - 300,
        ensures
            final(self).wf(),
            final(queue).wf(),
            final(self).in_flight == old(self).in_flight - 1,
            succeeded ==> final(queue)@ == old(queue)@.filter(other_op(claimed.op_id@)),
            !succeeded && has_op(old(queue)@, claimed.op_id@) ==> final(queue)@ == old(queue)@.update(
                op_index(old(queue)@, claimed.op_id@),
                QueueRow {
                    status: "Pending"@,
                    retry_count: (claimed.retry_count + 1) as u32,
                    next_retry_at: (now + retry_backoff_spec((claimed.retry_count + 1) as u32)) as i64,
                    ..old(queue)@[op_index(old(queue)@, claimed.op_id@)]
                },
            ),
            !succeeded && !has_op(old(queue)@, claimed.op_id@) ==> final(queue)@ == old(queue)@,
    {
        self.in_flight = self.in_flight - 1;
        if succeeded {
            queue.remove_queue_item(&claimed.op_id);
        } else {
            let (n, t) = failed_retry(claimed.retry_count, now);
            queue.update_failed_queue_item(&claimed.op_id, n, t);
        }
    }
}

/// The periodic repair of the intent queue.
pub struct RecoveryEngine;

impl RecoveryEngine {
    /// One pass: revive stale intents, then prune old completed ones.
    /// Returns the two counts.
    pub fn run_pass(queue: &mut QueueTable, now: i64) -> (r: (usize, usize))
        requires
            old(queue).wf(),
            i64::MIN + 604800 <= now <= i64::MAX - 640,
            forall|k: int| 0 <= k < old(queue)@.len() ==> (#[trigger] old(queue)@[k]).retry_count < u32::MAX,
        ensures
            final(queue).wf(),
            r.0 == old(queue)@.filter(recovered_by(now)).len(),
            final(queue)@ == old(queue)@.map_values(|x: QueueRow| recover_row(x, now)).filter(kept_after_prune(now)),
    {
        let ghost before = queue@;
        let revived = queue.recover_stale_intents(now);
        let ghost mid = queue@;
        assert(mid =~= before.map_values(|x: QueueRow| recover_row(x, now)));
        let pruned = queue.prune_completed_intents(now);
        (revived, pruned)
    }
}

/// A dequeued row is no longer due: a second dequeue does not hand it out
/// again.
pub proof fn lemma_dequeued_not_due(rows: Seq<QueueRow>, now: i64, limit: i64)
    ensures
        dequeue_spec(rows, now, limit).0.len() == rows.len(),
        forall|k: int|
            0 <= k < dequeue_spec(rows, now, limit).1.len() ==> (#[trigger] dequeue_spec(rows, now, limit).1[k]).status == "Transferring"@,
        forall|k: int|
            0 <= k < dequeue_spec(rows, now, limit).1.len() ==> !is_due(#[trigger] dequeue_spec(rows, now, limit).1[k], now),
        limit >= 0 ==> dequeue_spec(rows, now, limit).1.len() <= limit,
    decreases rows.len(),
{
    reveal_strlit("Transferring");
    reveal_strlit("Pending");
    assert("Transferring"@ != "Pending"@) by {
        assert("Transferring"@.len() != "Pending"@.len());
    }
    if rows.len() > 0 {
        lemma_dequeued_not_due(rows.drop_last(), now, limit);
        let prev = dequeue_spec(rows.drop_last(), now, limit);
        let out = dequeue_spec(rows, now, limit).1;
        assert forall|k: int| 0 <= k < out.len() implies (#[trigger] out[k]).status == "Transferring"@ by {
            if k < prev.1.len() {
                assert(out[k] == prev.1[k]);
            }
        }
    }
}

pub open spec fn due_at(now: i64) -> spec_fn(QueueRow) -> bool {
    |r: QueueRow| is_due(r, now)
}

pub open spec fn mark_transferring(s: Seq<QueueRow>) -> Seq<QueueRow> {
    s.map_values(|r: QueueRow| with_status(r, "Transferring"@))
}

/// What a dequeue hands out is the first `limit` due rows, in table order,
/// marked `Transferring` (all due rows when `limit` is negative); every other
/// row is left as it was.
pub proof fn lemma_dequeue_is_filter_take(rows: Seq<QueueRow>, now: i64, limit: i64)
    ensures
        limit >= 0 ==> dequeue_spec(rows, now, limit).1 == mark_transferring(
            rows.filter(due_at(now)).take(min_int(limit as int, rows.filter(due_at(now)).len() as int)),
        ),
        limit < 0 ==> dequeue_spec(rows, now, limit).1 == mark_transferring(rows.filter(due_at(now))),
        dequeue_spec(rows, now, limit).0.len() == rows.len(),
        forall|k: int| 0 <= k < rows.len() ==> #[trigger] dequeue_spec(rows, now, limit).0[k] == rows[k]
            || (is_due(rows[k], now) && dequeue_spec(rows, now, limit).0[k] == with_status(rows[k], "Transferring"@)),
    decreases rows.len(),
{
    if rows.len() == 0 {
        assert(rows.filter(due_at(now)) =~= Seq::<QueueRow>::empty());
        assert(mark_transferring(Seq::<QueueRow>::empty().take(0)) =~= Seq::<QueueRow>::empty());
        assert(mark_transferring(Seq::<QueueRow>::empty()) =~= Seq::<QueueRow>::empty());
    } else {
        let p = rows.drop_last();
        let r = rows.last();
        lemma_dequeue_is_filter_take(p, now, limit);
        assert(p.push(r) =~= rows);
        p.lemma_filter_push(r, due_at(now));
        let f = p.filter(due_at(now));
        let prev = dequeue_spec(p, now, limit);
        let cur = dequeue_spec(rows, now, limit);
        assert forall|k: int| 0 <= k < rows.len() implies #[trigger] cur.0[k] == rows[k]
            || (is_due(rows[k], now) && cur.0[k] == with_status(rows[k], "Transferring"@)) by {
            if k < p.len() {
                assert(cur.0[k] == prev.0[k]);
                assert(rows[k] == p[k]);
            }
        }
        if limit >= 0 {
            let n = min_int(limit as int, f.len() as int);
            assert(prev.1.len() == n);
            if is_due(r, now) {
                assert(rows.filter(due_at(now)) == f.push(r));
                if n < limit {
                    assert(n == f.len());
                    assert(f.take(n) =~= f);
                    assert(f.push(r).take(n + 1) =~= f.push(r));
                    assert(mark_transferring(f.push(r)) =~= mark_transferring(f).push(with_status(r, "Transferring"@)));
                } else {
                    assert(f.push(r).take(limit as int) =~= f.take(limit as int));
                }
            } else {
                assert(rows.filter(due_at(now)) == f);
            }
        } else {
            if is_due(r, now) {
                assert(mark_transferring(f.push(r)) =~= mark_transferring(f).push(with_status(r, "Transferring"@)));
            }
        }
    }
}

pub open spec fn dequeued_from(rows: Seq<QueueRow>, now: i64, table: Seq<QueueRow>, y: QueueRow, k: int) -> bool {
    0 <= k < rows.len() && is_due(rows[k], now) && y == with_status(rows[k], "Transferring"@) && table[k] == y
}

pub open spec fn came_from(rows: Seq<QueueRow>, now: i64, table: Seq<QueueRow>, y: QueueRow) -> bool {
    exists|k: int| #[trigger] dequeued_from(rows, now, table, y, k)
}

proof fn lemma_dequeue_positions(rows: Seq<QueueRow>, now: i64, limit: i64)
    ensures
        dequeue_spec(rows, now, limit).0.len() == rows.len(),
        forall|x: int| 0 <= x < dequeue_spec(rows, now, limit).1.len() ==>
            came_from(rows, now, dequeue_spec(rows, now, limit).0, #[trigger] dequeue_spec(rows, now, limit).1[x]),
    decreases rows.len(),
{
    lemma_dequeued_not_due(rows, now, limit);
    if rows.len() > 0 {
        let p = rows.drop_last();
        lemma_dequeue_positions(p, now, limit);
        let prev = dequeue_spec(p, now, limit);
        assert forall|x: int| 0 <= x < dequeue_spec(rows, now, limit).1.len() implies
            came_from(rows, now, dequeue_spec(rows, now, limit).0, #[trigger] dequeue_spec(rows, now, limit).1[x]) by {
            let cur = dequeue_spec(rows, now, limit);
            if x < prev.1.len() {
                assert(came_from(p, now, prev.0, prev.1[x]));
                let k = choose|k: int| dequeued_from(p, now, prev.0, prev.1[x], k);
                assert(cur.1[x] == prev.1[x]);
                assert(cur.0[k] == prev.0[k]);
                assert(rows[k] == p[k]);
                assert(dequeued_from(rows, now, cur.0, cur.1[x], k));
            } else {
                let k = rows.len() - 1;
                assert(rows[k] == rows.last());
                assert(dequeued_from(rows, now, cur.0, cur.1[x], k));
            }
        }
    }
}

/// Two dequeues in a row never hand out the same operation: what the first
/// hands out is `Transferring` afterwards, and the second hands out only due
/// (`Pending`) rows.
pub proof fn lemma_no_double_dequeue(rows: Seq<QueueRow>, now1: i64, limit1: i64, now2: i64, limit2: i64)
    requires
        queue_wf(rows),
    ensures
        ({
            let first = dequeue_spec(rows, now1, limit1);
            let second = dequeue_spec(first.0, now2, limit2);
            forall|i: int, j: int| 0 <= i < first.1.len() && 0 <= j < second.1.len() ==>
                (#[trigger] first.1[i]).op_id != (#[trigger] second.1[j]).op_id
        }),
{
    reveal_strlit("Transferring");
    reveal_strlit("Pending");
    assert("Transferring"@ != "Pending"@) by {
        assert("Transferring"@.len() != "Pending"@.len());
    }
    let first = dequeue_spec(rows, now1, limit1);
    let second = dequeue_spec(first.0, now2, limit2);
    lemma_dequeue_positions(rows, now1, limit1);
    lemma_dequeue_positions(first.0, now2, limit2);
    lemma_dequeue_is_filter_take(rows, now1, limit1);
    assert forall|i: int, j: int| 0 <= i < first.1.len() && 0 <= j < second.1.len() implies
        (#[trigger] first.1[i]).op_id != (#[trigger] second.1[j]).op_id by {
        assert(came_from(rows, now1, first.0, first.1[i]));
        assert(came_from(first.0, now2, second.0, second.1[j]));
        let k1 = choose|k: int| dequeued_from(rows, now1, first.0, first.1[i], k);
        let k2 = choose|k: int| dequeued_from(first.0, now2, second.0, second.1[j], k);
        assert(first.0[k2] == rows[k2] || first.0[k2] == with_status(rows[k2], "Transferring"@));
        if first.1[i].op_id == second.1[j].op_id {
            assert(rows[k1].op_id == rows[k2].op_id);
            if k1 != k2 {
                assert((op_key())(rows[k1]) != (op_key())(rows[k2]));
            }
            assert(first.0[k1].status == "Transferring"@);
            assert(first.0[k2].status == "Pending"@);
        }
    }
}

/// Enqueueing the same fresh intent twice leaves the queue as once.
pub proof fn lemma_enqueue_idempotent(rows: Seq<QueueRow>, r: QueueRow)
    requires
        queue_wf(rows),
        r.retry_count == 0,
        r.status == "Pending"@,
    ensures
        enqueue_spec(enqueue_spec(rows, r), r) == enqueue_spec(rows, r),
{
    let once = enqueue_spec(rows, r);
    if has_pending_twin(rows, r) {
    } else if has_op(rows, r.op_id) {
        let k = op_index(rows, r.op_id);
        assert(once[k].file_id == rows[k].file_id);
        if once[k].file_id == r.file_id && once[k].intent == r.intent {
            assert(has_pending_twin(once, r));
        } else {
            assert(has_op(once, r.op_id)) by {
                assert(once[k].op_id == r.op_id);
            }
            let j = op_index(once, r.op_id);
            assert((op_key())(rows[j]) == (op_key())(rows[k]) || j == k) by {
                if j != k {
                    assert(once[j] == rows[j]);
                }
            }
            assert(j == k);
            assert(once.update(k, QueueRow {
                status: r.status,
                retry_count: r.retry_count,
                next_retry_at: r.next_retry_at,
                ..once[k]
            }) =~= once);
        }
    } else {
        assert(once[rows.len() as int] == r);
        assert(has_pending_twin(once, r));
    }
}


/// Self-healing: a recovery pass makes every failed intent with retries left
/// pending again, one retry later and due after the recovery delay; an intent
/// stuck transferring for over five minutes likewise; an intent failed ten
/// times is given up as dead.
pub proof fn lemma_recovery_heals(r: QueueRow, now: i64)
    requires
        r.retry_count < u32::MAX,
        i64::MIN + 300 <= now <= i64::MAX - 640,
    ensures
        r.status == "Failed"@ && r.retry_count < 10 ==> recover_row(r, now).status == "Pending"@
            && recover_row(r, now).retry_count == r.retry_count + 1
            && recover_row(r, now).next_retry_at == now + recovery_delay(r.retry_count),
        r.status == "Transferring"@ && r.next_retry_at < now - 300 ==> recover_row(r, now).status == "Pending"@
            && recover_row(r, now).retry_count == r.retry_count + 1,
        r.status == "Failed"@ && r.retry_count >= 10 ==> recover_row(r, now).status == "Dead"@,
        r.op_id == recover_row(r, now).op_id && r.file_id == recover_row(r, now).file_id,
{
    reveal_strlit("Dead");
    reveal_strlit("Failed");
    reveal_strlit("Transferring");
    assert("Dead"@ != "Failed"@) by {
        assert("Dead"@.len() != "Failed"@.len());
    }
    assert("Dead"@ != "Transferring"@) by {
        assert("Dead"@.len() != "Transferring"@.len());
    }
    assert("Failed"@ != "Transferring"@) by {
        assert("Failed"@.len() != "Transferring"@.len());
    }
    lemma_two_pow_small(min_int(r.retry_count as int, 6) as nat);
}

/// The retry backoff never shrinks as failures accumulate, and never
/// exceeds five minutes.
pub proof fn lemma_backoff_monotone(a: u32, b: u32)
    requires
        a <= b,
    ensures
        retry_backoff_spec(a) <= retry_backoff_spec(b),
        retry_backoff_spec(b) <= 300,
{
    let ma = min_int(a as int, 6);
    let mb = min_int(b as int, 6);
    lemma_two_pow_small(ma as nat);
    lemma_two_pow_small(mb as nat);
    lemma_two_pow_monotone(ma as nat, mb as nat);
}

pub proof fn lemma_two_pow_monotone(x: nat, y: nat)
    requires
        x <= y,
    ensures
        two_pow(x) <= two_pow(y),
    decreases y,
{
    if x < y {
        lemma_two_pow_monotone(x, (y - 1) as nat);
    }
}


// ---------------------------------------------------------------- devices and folders

/// The `devices` table: one row per node id, ids handed out in increasing
/// order and never reused.
pub struct DeviceTable {
    pub rows: Vec<DeviceRecord>,
    pub next_id: i64,
}

/// The `folders` table: one row per path, ids handed out in increasing order
/// and never reused.
pub struct FolderTable {
    pub rows: Vec<FolderRecord>,
    pub next_id: i64,
}

pub open spec fn device_nodes_unique(rows: Seq<DeviceRecord>) -> bool {
    forall|i: int, j: int|
        0 <= i < rows.len() && 0 <= j < rows.len() && i != j ==> (#[trigger] rows[i]).node_id@ != (#[trigger] rows[j]).node_id@
}

pub open spec fn device_ids_below(rows: Seq<DeviceRecord>, next: i64) -> bool {
    forall|i: int| 0 <= i < rows.len() ==> 1 <= (#[trigger] rows[i]).id < next
}

pub open spec fn folder_paths_unique(rows: Seq<FolderRecord>) -> bool {
    forall|i: int, j: int|
        0 <= i < rows.len() && 0 <= j < rows.len() && i != j ==> (#[trigger] rows[i]).path@ != (#[trigger] rows[j]).path@
}

pub open spec fn folder_ids_below(rows: Seq<FolderRecord>, next: i64) -> bool {
    forall|i: int| 0 <= i < rows.len() ==> 1 <= (#[trigger] rows[i]).id < next
}

impl DeviceTable {
    pub fn new() -> (t: Self)
        ensures
            t.wf(),
            t.rows@.len() == 0,
    {
        DeviceTable { rows: Vec::new(), next_id: 1 }
    }

    pub open spec fn wf(&self) -> bool {
        device_nodes_unique(self.rows@) && device_ids_below(self.rows@, self.next_id) && self.next_id >= 1
    }

    /// Records a device seen at `now`: a known node id keeps its row and id
    /// and takes the new name, capabilities and time; a new one gets the next
    /// id. Returns the row's id.
    pub fn upsert_device(&mut self, node_id: &String, name: &String, capabilities: &String, now: i64) -> (id: i64)
        requires
            old(self).wf(),
            old(self).next_id < i64::MAX,
        ensures
            final(self).wf(),
            exists|k: int| 0 <= k < final(self).rows@.len() && (#[trigger] final(self).rows@[k]).id == id
                && final(self).rows@[k].node_id@ == node_id@ && final(self).rows@[k].name@ == name@
                && final(self).rows@[k].capabilities@ == capabilities@ && final(self).rows@[k].last_seen == now,
            (exists|k: int| 0 <= k < old(self).rows@.len() && (#[trigger] old(self).rows@[k]).node_id@ == node_id@)
                ==> final(self).rows@.len() == old(self).rows@.len() && final(self).next_id == old(self).next_id
                && exists|k: int| 0 <= k < old(self).rows@.len() && (#[trigger] old(self).rows@[k]).node_id@ == node_id@
                    && old(self).rows@[k].id == id,
            !(exists|k: int| 0 <= k < old(self).rows@.len() && (#[trigger] old(self).rows@[k]).node_id@ == node_id@)
                ==> id == old(self).next_id && final(self).next_id == old(self).next_id + 1
                && final(self).rows@.len() == old(self).rows@.len() + 1,
            forall|k: int| 0 <= k < old(self).rows@.len() && (#[trigger] old(self).rows@[k]).node_id@ != node_id@
                ==> final(self).rows@[k] == old(self).rows@[k],
    {
        let ghost rows0 = self.rows@;
        let ghost next0 = self.next_id;
        let mut i: usize = 0;
        while i < self.rows.len()
            invariant
                self.rows@ == rows0,
                self.next_id == next0,
                old(self).rows@ == rows0,
                old(self).next_id == next0,
                i <= self.rows@.len(),
                device_nodes_unique(self.rows@),
                device_ids_below(self.rows@, self.next_id),
                1 <= self.next_id < i64::MAX,
                forall|k: int| 0 <= k < i ==> (#[trigger] self.rows@[k]).node_id@ != node_id@,
            decreases self.rows@.len() - i,
        {
            if self.rows[i].node_id == *node_id {
                let id = self.rows[i].id;
                let row = DeviceRecord {
                    id,
                    node_id: node_id.clone(),
                    name: name.clone(),
                    capabilities: capabilities.clone(),
                    last_seen: now,
                };
                let ghost before = self.rows@;
                self.rows.set(i, row);
                proof {
                    let a = self.rows@;
                    assert(a[i as int].id == id);
                    assert forall|x: int, y: int|
                        0 <= x < a.len() && 0 <= y < a.len() && x != y implies (#[trigger] a[x]).node_id@ != (#[trigger] a[y]).node_id@ by {
                        assert(a[x].node_id@ == before[x].node_id@ && a[y].node_id@ == before[y].node_id@);
                    }
                    assert forall|x: int| 0 <= x < a.len() implies 1 <= (#[trigger] a[x]).id < self.next_id by {
                        assert(a[x].id == before[x].id);
                    }
                    assert forall|k: int| 0 <= k < before.len() && (#[trigger] before[k]).node_id@ != node_id@ implies a[k] == before[k] by {
                        assert(k != i);
                    }
                    assert(rows0[i as int].node_id@ == node_id@ && rows0[i as int].id == id);
                }
                return id;
            }
            i = i + 1;
        }
        let id = self.next_id;
        let ghost before = self.rows@;
        self.rows.push(DeviceRecord {
            id,
            node_id: node_id.clone(),
            name: name.clone(),
            capabilities: capabilities.clone(),
            last_seen: now,
        });
        self.next_id = self.next_id + 1;
        proof {
            let a = self.rows@;
            assert(a[before.len() as int].id == id);
            assert forall|x: int, y: int|
                0 <= x < a.len() && 0 <= y < a.len() && x != y implies (#[trigger] a[x]).node_id@ != (#[trigger] a[y]).node_id@ by {
                if x < before.len() {
                    assert(a[x] == before[x]);
                }
                if y < before.len() {
                    assert(a[y] == before[y]);
                }
            }
            assert forall|x: int| 0 <= x < a.len() implies 1 <= (#[trigger] a[x]).id < self.next_id by {
                if x < before.len() {
                    assert(a[x] == before[x]);
                }
            }
            assert forall|k: int| 0 <= k < before.len() && (#[trigger] before[k]).node_id@ != node_id@ implies a[k] == before[k] by {}
        }
        id
    }
}

impl FolderTable {
    pub fn new() -> (t: Self)
        ensures
            t.wf(),
            t.rows@.len() == 0,
    {
        FolderTable { rows: Vec::new(), next_id: 1 }
    }

    pub open spec fn wf(&self) -> bool {
        folder_paths_unique(self.rows@) && folder_ids_below(self.rows@, self.next_id) && self.next_id >= 1
    }

    /// Records a folder with `status`: a known path keeps its row and id and
    /// takes the new status; a new one gets the next id. Returns the id.
    pub fn upsert_folder(&mut self, path: &String, status: &String) -> (id: i64)
        requires
            old(self).wf(),
            old(self).next_id < i64::MAX,
        ensures
            final(self).wf(),
            exists|k: int| 0 <= k < final(self).rows@.len() && (#[trigger] final(self).rows@[k]).id == id
                && final(self).rows@[k].path@ == path@ && final(self).rows@[k].status@ == status@,
            (exists|k: int| 0 <= k < old(self).rows@.len() && (#[trigger] old(self).rows@[k]).path@ == path@)
                ==> final(self).rows@.len() == old(self).rows@.len() && final(self).next_id == old(self).next_id
                && exists|k: int| 0 <= k < old(self).rows@.len() && (#[trigger] old(self).rows@[k]).path@ == path@
                    && old(self).rows@[k].id == id,
            !(exists|k: int| 0 <= k < old(self).rows@.len() && (#[trigger] old(self).rows@[k]).path@ == path@)
                ==> id == old(self).next_id && final(self).next_id == old(self).next_id + 1
                && final(self).rows@.len() == old(self).rows@.len() + 1,
            forall|k: int| 0 <= k < old(self).rows@.len() && (#[trigger] old(self).rows@[k]).path@ != path@
                ==> final(self).rows@[k] == old(self).rows@[k],
    {
        let ghost rows0 = self.rows@;
        let ghost next0 = self.next_id;
        let mut i: usize = 0;
        while i < self.rows.len()
            invariant
                self.rows@ == rows0,
                self.next_id == next0,
                old(self).rows@ == rows0,
                old(self).next_id == next0,
                i <= self.rows@.len(),
                folder_paths_unique(self.rows@),
                folder_ids_below(self.rows@, self.next_id),
                1 <= self.next_id < i64::MAX,
                forall|k: int| 0 <= k < i ==> (#[trigger] self.rows@[k]).path@ != path@,
            decreases self.rows@.len() - i,
        {
            if self.rows[i].path == *path {
                let id = self.rows[i].id;
                let row = FolderRecord { id, path: path.clone(), status: status.clone() };
                let ghost before = self.rows@;
                self.rows.set(i, row);
                proof {
                    let a = self.rows@;
                    assert(a[i as int].id == id);
                    assert forall|x: int, y: int|
                        0 <= x < a.len() && 0 <= y < a.len() && x != y implies (#[trigger] a[x]).path@ != (#[trigger] a[y]).path@ by {
                        assert(a[x].path@ == before[x].path@ && a[y].path@ == before[y].path@);
                    }
                    assert forall|x: int| 0 <= x < a.len() implies 1 <= (#[trigger] a[x]).id < self.next_id by {
                        assert(a[x].id == before[x].id);
                    }
                    assert forall|k: int| 0 <= k < before.len() && (#[trigger] before[k]).path@ != path@ implies a[k] == before[k] by {
                        assert(k != i);
                    }
                    assert(rows0[i as int].path@ == path@ && rows0[i as int].id == id);
                }
                return id;
            }
            i = i + 1;
        }
        let id = self.next_id;
        let ghost before = self.rows@;
        self.rows.push(FolderRecord { id, path: path.clone(), status: status.clone() });
        self.next_id = self.next_id + 1;
        proof {
            let a = self.rows@;
            assert(a[before.len() as int].id == id);
            assert forall|x: int, y: int|
                0 <= x < a.len() && 0 <= y < a.len() && x != y implies (#[trigger] a[x]).path@ != (#[trigger] a[y]).path@ by {
                if x < before.len() {
                    assert(a[x] == before[x]);
                }
                if y < before.len() {
                    assert(a[y] == before[y]);
                }
            }
            assert forall|x: int| 0 <= x < a.len() implies 1 <= (#[trigger] a[x]).id < self.next_id by {
                if x < before.len() {
                    assert(a[x] == before[x]);
                }
            }
            assert forall|k: int| 0 <= k < before.len() && (#[trigger] before[k]).path@ != path@ implies a[k] == before[k] by {}
        }
        id
    }

    /// The path of the folder with `id`, if there is one.
    pub fn get_folder_path_by_id(&self, id: i64) -> (r: Option<String>)
        ensures
            match r {
                Some(p) => exists|k: int| 0 <= k < self.rows@.len() && (#[trigger] self.rows@[k]).id == id && self.rows@[k].path@ == p@,
                None => forall|k: int| 0 <= k < self.rows@.len() ==> (#[trigger] self.rows@[k]).id != id,
            },
    {
        let mut i: usize = 0;
        while i < self.rows.len()
            invariant
                i <= self.rows@.len(),
                forall|k: int| 0 <= k < i ==> (#[trigger] self.rows@[k]).id != id,
            decreases self.rows@.len() - i,
        {
            if self.rows[i].id == id {
                return Some(self.rows[i].path.clone());
            }
            i = i + 1;
        }
        None
    }
}

/// Upserting the same folder twice gives the same id.
pub proof fn lemma_folder_id_stable(rows: Seq<FolderRecord>, path: Seq<char>, k1: int, k2: int)
    requires
        folder_paths_unique(rows),
        0 <= k1 < rows.len(),
        0 <= k2 < rows.len(),
        rows[k1].path@ == path,
        rows[k2].path@ == path,
    ensures
        rows[k1].id == rows[k2].id,
{
    if k1 != k2 {
        assert(rows[k1].path@ != rows[k2].path@);
    }
}

// ---------------------------------------------------------------- the queue as shown

pub open spec fn path_for_file(files: Seq<FileRow>, file_id: Seq<char>) -> Option<Seq<char>> {
    if exists|k: int| 0 <= k < files.len() && (#[trigger] files[k]).id == file_id {
        let k = choose|k: int| 0 <= k < files.len() && (#[trigger] files[k]).id == file_id;
        Some(files[k].relative_path)
    } else {
        None
    }
}

impl QueueTable {
    /// The newest `limit` rows (all when `limit` is negative), newest first.
    pub fn get_all_queue_records(&self, limit: i64) -> (r: Vec<QueueRecord>)
        ensures
            r@.len() == (if limit < 0 || limit >= self@.len() { self@.len() as int } else { limit as int }),
            forall|k: int| 0 <= k < r@.len() ==> (#[trigger] r@[k])@ == self@[self@.len() - 1 - k],
    {
        let n = self.rows.len();
        let want: usize = if limit < 0 || (limit as u64) >= (n as u64) {
            n
        } else {
            limit as usize
        };
        let mut out: Vec<QueueRecord> = Vec::new();
        let mut k: usize = 0;
        while k < want
            invariant
                want <= n == self.rows@.len(),
                k <= want,
                out@.len() == k,
                forall|j: int| 0 <= j < k ==> (#[trigger] out@[j])@ == queue_rows(self.rows@)[n - 1 - j],
            decreases want - k,
        {
            let d = self.rows[n - 1 - k].duplicate();
            out.push(d);
            k = k + 1;
        }
        out
    }

    /// The queue as shown: the newest `limit` rows (all when `limit` is
    /// negative), newest first, each with the relative path of its file when
    /// the file table has that file.
    pub fn get_queue_view(&self, files: &FileTable, limit: i64) -> (r: Vec<QueueViewRecord>)
        requires
            files.wf(),
        ensures
            r@.len() == (if limit < 0 || limit >= self@.len() { self@.len() as int } else { limit as int }),
            forall|k: int| 0 <= k < r@.len() ==> {
                let q = #[trigger] self@[self@.len() - 1 - k];
                &&& r@[k].op_id@ == q.op_id
                &&& opt_text(r@[k].relative_path) == path_for_file(files@, q.file_id)
                &&& r@[k].intent@ == q.intent
                &&& r@[k].status@ == q.status
                &&& r@[k].retry_count == q.retry_count
                &&& r@[k].next_retry_at == q.next_retry_at
            },
    {
        let recs = self.get_all_queue_records(limit);
        let mut out: Vec<QueueViewRecord> = Vec::new();
        let mut k: usize = 0;
        while k < recs.len()
            invariant
                files.wf(),
                k <= recs@.len(),
                out@.len() == k,
                recs@.len() <= self@.len(),
                forall|j: int| 0 <= j < recs@.len() ==> (#[trigger] recs@[j])@ == self@[self@.len() - 1 - j],
                forall|j: int| 0 <= j < k ==> {
                    let q = #[trigger] self@[self@.len() - 1 - j];
                    &&& out@[j].op_id@ == q.op_id
                    &&& opt_text(out@[j].relative_path) == path_for_file(files@, q.file_id)
                    &&& out@[j].intent@ == q.intent
                    &&& out@[j].status@ == q.status
                    &&& out@[j].retry_count == q.retry_count
                    &&& out@[j].next_retry_at == q.next_retry_at
                },
            decreases recs@.len() - k,
        {
            let q = &recs[k];
            let path = match files.get_file_by_id(&q.file_id) {
                Some(f) => {
                    proof {
                        let fs = files@;
                        let m = choose|m: int| 0 <= m < fs.len() && fs[m] == f@ && f@.id == q.file_id@;
                        let c = choose|c: int| 0 <= c < fs.len() && (#[trigger] fs[c]).id == q.file_id@;
                        if c != m {
                            assert((file_id_key())(fs[c]) != (file_id_key())(fs[m]));
                        }
                    }
                    Some(f.relative_path)
                },
                None => None,
            };
            let ghost before = out@;
            out.push(QueueViewRecord {
                op_id: q.op_id.clone(),
                relative_path: path,
                intent: q.intent.clone(),
                status: q.status.clone(),
                retry_count: q.retry_count,
                next_retry_at: q.next_retry_at,
            });
            proof {
                assert(recs@[k as int]@ == self@[self@.len() - 1 - k]);
                assert forall|j: int| 0 <= j < k implies out@[j] == before[j] by {}
            }
            k = k + 1;
        }
        out
    }
}

// ---------------------------------------------------------------- finished transactions

/// Finished sync transactions, newest timestamp first.
pub struct TransactionLog {
    pub rows: Vec<SyncTransactionRecord>,
}

pub open spec fn newest_first(rows: Seq<SyncTransactionRecord>) -> bool {
    forall|i: int, j: int| 0 <= i <= j < rows.len() ==> (#[trigger] rows[i]).timestamp >= (#[trigger] rows[j]).timestamp
}

impl TransactionLog {
    pub fn new() -> (t: Self)
        ensures
            t.rows@.len() == 0,
            newest_first(t.rows@),
    {
        TransactionLog { rows: Vec::new() }
    }

    /// Records a transaction, after every one with the same or a later
    /// timestamp and before every earlier one.
    pub fn insert_sync_transaction(&mut self, record: SyncTransactionRecord)
        requires
            newest_first(old(self).rows@),
        ensures
            newest_first(final(self).rows@),
            exists|p: int| 0 <= p <= old(self).rows@.len() && final(self).rows@ == old(self).rows@.insert(p, record),
    {
        let mut p: usize = 0;
        while p < self.rows.len() && self.rows[p].timestamp >= record.timestamp
            invariant
                p <= self.rows@.len(),
                forall|j: int| 0 <= j < p ==> (#[trigger] self.rows@[j]).timestamp >= record.timestamp,
            decreases self.rows@.len() - p,
        {
            p = p + 1;
        }
        let ghost before = self.rows@;
        self.rows.insert(p, record);
        proof {
            let a = self.rows@;
            assert(a =~= before.insert(p as int, record));
            assert forall|i: int, j: int| 0 <= i <= j < a.len() implies (#[trigger] a[i]).timestamp >= (#[trigger] a[j]).timestamp by {
                if p < before.len() {
                    assert(before[p as int].timestamp < record.timestamp);
                }
                let bi = if i < p { i } else { i - 1 };
                let bj = if j < p { j } else { j - 1 };
                if i != p && j != p {
                    assert(a[i] == before[bi] && a[j] == before[bj]);
                } else if i == p && j != p {
                    assert(a[j] == before[bj]);
                    assert(bj >= p);
                    assert(before[p as int].timestamp >= before[bj].timestamp);
                } else if j == p && i != p {
                    assert(a[i] == before[bi]);
                }
            }
        }
    }

    /// The `limit` newest transactions.
    pub fn get_transactions(&self, limit: usize) -> (r: Vec<SyncTransactionRecord>)
        ensures
            r@.len() == (if limit < self.rows@.len() { limit as int } else { self.rows@.len() as int }),
            forall|k: int| 0 <= k < r@.len() ==> (#[trigger] r@[k]).op_id@ == self.rows@[k].op_id@
                && r@[k].timestamp == self.rows@[k].timestamp && r@[k].file_name@ == self.rows@[k].file_name@
                && r@[k].file_size == self.rows@[k].file_size && r@[k].direction@ == self.rows@[k].direction@
                && r@[k].speed_bps == self.rows@[k].speed_bps && r@[k].duration_ms == self.rows@[k].duration_ms,
    {
        let want = if limit < self.rows.len() {
            limit
        } else {
            self.rows.len()
        };
        let mut out: Vec<SyncTransactionRecord> = Vec::new();
        let mut k: usize = 0;
        while k < want
            invariant
                want <= self.rows@.len(),
                k <= want,
                out@.len() == k,
                forall|j: int| 0 <= j < k ==> (#[trigger] out@[j]).op_id@ == self.rows@[j].op_id@
                    && out@[j].timestamp == self.rows@[j].timestamp && out@[j].file_name@ == self.rows@[j].file_name@
                    && out@[j].file_size == self.rows@[j].file_size && out@[j].direction@ == self.rows@[j].direction@
                    && out@[j].speed_bps == self.rows@[j].speed_bps && out@[j].duration_ms == self.rows@[j].duration_ms,
            decreases want - k,
        {
            let t = &self.rows[k];
            out.push(SyncTransactionRecord {
                op_id: t.op_id.clone(),
                file_name: t.file_name.clone(),
                file_size: t.file_size,
                direction: t.direction.clone(),
                speed_bps: t.speed_bps,
                duration_ms: t.duration_ms,
                timestamp: t.timestamp,
            });
            k = k + 1;
        }
        out
    }
}

} // verus!
