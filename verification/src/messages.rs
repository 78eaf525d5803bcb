//! What peers say to each other on a transfer connection: the control and
//! chunk messages, the sync metadata that rides on them, the chunk trailer
//! digest, and the reading of a queued intent into the metadata it sends.

use vstd::prelude::*;
use crate::chunking::ChunkHeader;
use crate::framing::{FrameError, MAX_CONTROL_MESSAGE_SIZE, frame, frame_spec, unframe, unframe_spec};
use crate::manifest::{FileRecord, FileRow, opt_text, copy_opt_text};
use crate::pairing::{blake3_digest, blake3_spec};
use crate::text::{chars_of, starts_with_chars, slice_chars, string_from_chars};
use crate::transfers::{PreFlight, preflight_outcome, preflight_spec};

verus! {

#[derive(Debug, Clone, Copy, PartialEq, Eq, Structural)]
pub enum IntentType {
    Create,
    Modify,
    Delete,
    Rename,
}

#[derive(Debug, Clone)]
pub struct SyncMetadata {
    pub protocol_version: u16,
    pub operation_id: String,
    pub sync_intent: IntentType,
    pub file_id: String,
    pub revision: u64,
    pub blake3_hash: Option<String>,
    pub origin_node_id: String,
    pub relative_path: String,
    pub new_relative_path: Option<String>,
}

#[derive(Debug, Clone)]
pub struct ProtocolInfo {
    pub version: u16,
    pub capabilities: Vec<String>,
}

#[derive(Debug, Clone)]
pub struct FileMetadata {
    pub transfer_id: String,
    pub file_name: String,
    pub file_size: u64,
    pub chunk_count: usize,
    pub sync_metadata: Option<SyncMetadata>,
}

/// Sent after a chunk's payload: the bytes written and the first 16 bytes of
/// the payload's BLAKE3 digest.
#[derive(Debug, Clone)]
pub struct ChunkTrailer {
    pub transfer_id: String,
    pub chunk_index: usize,
    pub bytes_written: u64,
    pub hash: [u8; 16],
}

#[derive(Debug, Clone)]
pub struct TestBridgeDiagnosticResponse {
    pub success: bool,
    pub remote_device_name: String,
    pub remote_os: String,
    pub remote_folders_ok: usize,
    pub remote_folders_total: usize,
    pub remote_disk_free_mb: u64,
    pub remote_logs: Vec<String>,
}

#[derive(Debug, Clone)]
pub enum StreamMessage {
    ProtocolHandshake(ProtocolInfo),
    Control(FileMetadata),
    Chunk(ChunkHeader),
    PreFlightResponse { accepted: bool, has_space: bool, already_exists: bool },
    CancelTransfer { transfer_id: String },
    PauseTransfer { transfer_id: String },
    ResumeTransfer { transfer_id: String },
    FolderSyncBindRequest { node_id: String, device_name: String, os: String },
    FolderSyncBindResponse { accepted: bool },
    FolderSyncBindFinalize { accepted: bool },
    FolderSyncBindAck,
    FolderSyncUnbind { node_id: String },
    FolderSyncHashCheck { relative_path: String, hash: String },
    FolderSyncHashCheckResponse { matches: bool },
    FolderSyncTestBridgeRequest { sender_node_id: String },
    FolderSyncTestBridgeResponse(TestBridgeDiagnosticResponse),
    TransferCompleted { success: bool },
    Ping,
    Pong,
}

#[derive(Debug, Clone, Copy, PartialEq, Eq, Structural)]
pub enum ProgressEvent {
    InitParts(u32),
    Bytes(usize),
    ChunkStarted(usize, u64),
    ChunkCompleted(usize),
    Cancel,
    Pause,
    Resume,
}

#[derive(Debug, Clone)]
pub struct HandshakeRequest {
    pub file_name: String,
    pub file_size: u64,
    pub sender_name: String,
}

#[derive(Debug, Clone)]
pub struct HandshakeResponse {
    pub accepted: bool,
    pub message: Option<String>,
}

/// The 128-bit chunk digest: the first 16 bytes of BLAKE3 of the payload.
pub open spec fn chunk_digest_spec(payload: Seq<u8>) -> Seq<u8> {
    blake3_spec(payload).take(16)
}

pub fn chunk_digest(payload: &[u8]) -> (d: [u8; 16])
    ensures
        d@ == chunk_digest_spec(payload@),
{
    let full = blake3_digest(payload);
    let d: [u8; 16] = [
        full[0], full[1], full[2], full[3], full[4], full[5], full[6], full[7], full[8], full[9],
        full[10], full[11], full[12], full[13], full[14], full[15],
    ];
    assert(d@ =~= full@.take(16));
    d
}

impl ChunkTrailer {
    /// The trailer a sender writes after `payload`, the bytes it read for
    /// chunk `chunk_index`.
    pub fn for_payload(transfer_id: &String, chunk_index: usize, payload: &[u8]) -> (t: Self)
        ensures
            t.transfer_id@ == transfer_id@,
            t.chunk_index == chunk_index,
            t.bytes_written == payload@.len(),
            t.hash@ == chunk_digest_spec(payload@),
    {
        ChunkTrailer {
            transfer_id: transfer_id.clone(),
            chunk_index,
            bytes_written: payload.len() as u64,
            hash: chunk_digest(payload),
        }
    }
}

/// Length-prefixed framing of control messages, bounded on the way in.
pub struct TransferStream;

impl TransferStream {
    /// The bytes sent for one serialized message.
    pub fn frame_message(payload: &[u8]) -> (out: Vec<u8>)
        ensures
            out@ == frame_spec(payload@),
    {
        frame(payload)
    }

    /// Reads one message of at most `max_len` bytes from the front of `buf`:
    /// the payload and the bytes consumed.
    pub fn read_bounded_message(buf: &[u8], max_len: usize) -> (r: Result<(Vec<u8>, usize), FrameError>)
        ensures
            match r {
                Ok((p, n)) => unframe_spec(buf@, max_len as nat) == Ok::<(Seq<u8>, nat), FrameError>((p@, n as nat)),
                Err(e) => unframe_spec(buf@, max_len as nat) == Err::<(Seq<u8>, nat), FrameError>(e),
            },
    {
        unframe(buf, max_len)
    }

    /// Reads one control message, bounded by `MAX_CONTROL_MESSAGE_SIZE`.
    pub fn read_stream_message(buf: &[u8]) -> (r: Result<(Vec<u8>, usize), FrameError>)
        ensures
            match r {
                Ok((p, n)) => unframe_spec(buf@, MAX_CONTROL_MESSAGE_SIZE as nat) == Ok::<(Seq<u8>, nat), FrameError>((p@, n as nat)),
                Err(e) => unframe_spec(buf@, MAX_CONTROL_MESSAGE_SIZE as nat) == Err::<(Seq<u8>, nat), FrameError>(e),
            },
    {
        unframe(buf, MAX_CONTROL_MESSAGE_SIZE)
    }
}

/// The sender's reading of the first message on the control stream after
/// its metadata: a pre-flight response gives its outcome; any other message
/// is an unexpected answer (`None`), and the transfer fails.
pub fn preflight_reply(msg: &StreamMessage) -> (r: Option<PreFlight>)
    ensures
        match msg {
            StreamMessage::PreFlightResponse { accepted, has_space, already_exists } =>
                r == Some(preflight_spec(*accepted, *has_space, *already_exists)),
            _ => r is None,
        },
{
    match msg {
        StreamMessage::PreFlightResponse { accepted, has_space, already_exists } =>
            Some(preflight_outcome(*accepted, *has_space, *already_exists)),
        _ => None,
    }
}

/// The prefix that marks a queued rename; the old relative path follows it.
pub const RENAME_PREFIX: &'static str = "Rename:";

pub open spec fn has_rename_prefix(s: Seq<char>) -> bool {
    s.len() >= RENAME_PREFIX@.len() && s.take(RENAME_PREFIX@.len() as int) == RENAME_PREFIX@
}

/// `s` with every leading repetition of the rename prefix removed.
pub open spec fn trim_rename_prefixes(s: Seq<char>) -> Seq<char>
    decreases s.len(),
{
    if RENAME_PREFIX@.len() > 0 && has_rename_prefix(s) {
        trim_rename_prefixes(s.skip(RENAME_PREFIX@.len() as int))
    } else {
        s
    }
}

/// How a queued intent string reads: `Rename:<old path>` is a rename of that
/// path (every leading `Rename:` is stripped), the names `Create` and
/// `Delete` are themselves, anything else is a modify.
pub open spec fn parse_intent_spec(intent: Seq<char>) -> (IntentType, Option<Seq<char>>) {
    if has_rename_prefix(intent) {
        (IntentType::Rename, Some(trim_rename_prefixes(intent)))
    } else if intent == "Create"@ {
        (IntentType::Create, None)
    } else if intent == "Delete"@ {
        (IntentType::Delete, None)
    } else {
        (IntentType::Modify, None)
    }
}

pub fn parse_queue_intent(intent: &str) -> (r: (IntentType, Option<String>))
    ensures
        r.0 == parse_intent_spec(intent@).0,
        opt_text(r.1) == parse_intent_spec(intent@).1,
{
    let v = chars_of(intent);
    let p = chars_of(RENAME_PREFIX);
    proof {
        reveal_strlit("Rename:");
    }
    if starts_with_chars(v.as_slice(), p.as_slice()) {
        let mut rest = v;
        while starts_with_chars(rest.as_slice(), p.as_slice())
            invariant
                p@ == RENAME_PREFIX@,
                p@.len() == 7,
                trim_rename_prefixes(rest@) == trim_rename_prefixes(intent@),
            decreases rest@.len(),
        {
            let next = slice_chars(rest.as_slice(), p.len(), rest.len());
            assert(next@ =~= rest@.skip(RENAME_PREFIX@.len() as int));
            rest = next;
        }
        return (IntentType::Rename, Some(string_from_chars(rest.as_slice())));
    }
    let s = String::from_str(intent);
    if s == String::from_str("Create") {
        (IntentType::Create, None)
    } else if s == String::from_str("Delete") {
        (IntentType::Delete, None)
    } else {
        (IntentType::Modify, None)
    }
}

/// The metadata an outgoing sync carries for `file`: a rename names the old
/// path first and the file's current path second; everything else names the
/// current path only.
pub open spec fn outgoing_paths(intent: IntentType, old_path: Option<Seq<char>>, file: FileRow) -> (Seq<char>, Option<Seq<char>>) {
    if intent == IntentType::Rename {
        (old_path.unwrap(), Some(file.relative_path))
    } else {
        (file.relative_path, None)
    }
}

pub fn outgoing_sync_metadata(
    operation_id: &String,
    intent: &str,
    file: &FileRecord,
    origin_node_id: &String,
) -> (m: SyncMetadata)
    ensures
        m.protocol_version == 1,
        m.operation_id@ == operation_id@,
        m.sync_intent == parse_intent_spec(intent@).0,
        m.file_id@ == file.id@,
        m.revision == file.revision,
        opt_text(m.blake3_hash) == opt_text(file.blake3_hash),
        m.origin_node_id@ == origin_node_id@,
        (m.relative_path@, opt_text(m.new_relative_path)) == outgoing_paths(
            parse_intent_spec(intent@).0,
            parse_intent_spec(intent@).1,
            file@,
        ),
{
    let (kind, old_path) = parse_queue_intent(intent);
    let (rel, new_rel) = match kind {
        IntentType::Rename => {
            let old = match old_path {
                Some(o) => o,
                None => String::new(),
            };
            (old, Some(file.relative_path.clone()))
        },
        _ => (file.relative_path.clone(), None),
    };
    SyncMetadata {
        protocol_version: 1,
        operation_id: operation_id.clone(),
        sync_intent: kind,
        file_id: file.id.clone(),
        revision: file.revision,
        blake3_hash: copy_opt_text(&file.blake3_hash),
        origin_node_id: origin_node_id.clone(),
        relative_path: rel,
        new_relative_path: new_rel,
    }
}

/// Bytes an outgoing sync sends: none for a delete or a rename.
pub fn sync_payload_size(intent: IntentType, file_size: u64) -> (n: u64)
    ensures
        n == (if intent == IntentType::Delete || intent == IntentType::Rename {
            0
        } else {
            file_size
        }),
{
    match intent {
        IntentType::Delete | IntentType::Rename => 0,
        _ => file_size,
    }
}

/// The file row a receiver records for an applied sync in folder
/// `folder_id`: a delete clears the hash and size and marks the row deleted;
/// a rename records the new path; a create or modify records the metadata
/// as sent, with `file_size` bytes.
pub open spec fn incoming_row_spec(m_file_id: Seq<char>, intent: IntentType, relative_path: Seq<char>, new_path: Option<Seq<char>>, hash: Option<Seq<char>>, revision: u64, folder_id: i64, file_size: u64) -> FileRow {
    if intent == IntentType::Delete {
        FileRow { id: m_file_id, folder_id, relative_path, blake3_hash: None, revision, size: 0, is_deleted: true }
    } else if intent == IntentType::Rename && new_path is Some {
        FileRow { id: m_file_id, folder_id, relative_path: new_path->0, blake3_hash: hash, revision, size: file_size, is_deleted: false }
    } else {
        FileRow { id: m_file_id, folder_id, relative_path, blake3_hash: hash, revision, size: file_size, is_deleted: false }
    }
}

pub fn incoming_file_record(meta: &SyncMetadata, folder_id: i64, file_size: u64) -> (r: FileRecord)
    ensures
        r@ == incoming_row_spec(
            meta.file_id@,
            meta.sync_intent,
            meta.relative_path@,
            opt_text(meta.new_relative_path),
            opt_text(meta.blake3_hash),
            meta.revision,
            folder_id,
            file_size,
        ),
{
    match meta.sync_intent {
        IntentType::Delete => FileRecord {
            id: meta.file_id.clone(),
            folder_id,
            relative_path: meta.relative_path.clone(),
            blake3_hash: None,
            revision: meta.revision,
            size: 0,
            is_deleted: true,
        },
        IntentType::Rename if meta.new_relative_path.is_some() => {
            let p = match &meta.new_relative_path {
                Some(p) => p.clone(),
                None => String::new(),
            };
            FileRecord {
                id: meta.file_id.clone(),
                folder_id,
                relative_path: p,
                blake3_hash: copy_opt_text(&meta.blake3_hash),
                revision: meta.revision,
                size: file_size,
                is_deleted: false,
            }
        },
        _ => FileRecord {
            id: meta.file_id.clone(),
            folder_id,
            relative_path: meta.relative_path.clone(),
            blake3_hash: copy_opt_text(&meta.blake3_hash),
            revision: meta.revision,
            size: file_size,
            is_deleted: false,
        },
    }
}

/// A parsed rename reads back the path it was queued with, unless that path
/// itself begins with the rename prefix.
pub proof fn lemma_rename_intent_roundtrip(old_path: Seq<char>)
    requires
        !has_rename_prefix(old_path),
    ensures
        parse_intent_spec(RENAME_PREFIX@ + old_path) == (IntentType::Rename, Some(old_path)),
{
    reveal_strlit("Rename:");
    let s = RENAME_PREFIX@ + old_path;
    assert(s.take(RENAME_PREFIX@.len() as int) =~= RENAME_PREFIX@);
    assert(s.skip(RENAME_PREFIX@.len() as int) =~= old_path);
    assert(trim_rename_prefixes(old_path) == old_path);
    assert(trim_rename_prefixes(s) == trim_rename_prefixes(old_path));
}


/// Whether the receiver already holds the file a create or modify would
/// bring: it exists with the announced size, and its digest (`actual_hash`,
/// empty when it could not be read) equals the announced one. Other intents,
/// and an announcement without a digest, never count as held.
pub open spec fn already_held_spec(intent: IntentType, local_size: Option<u64>, file_size: u64, expected: Option<Seq<char>>, actual_hash: Seq<char>) -> bool {
    (intent == IntentType::Create || intent == IntentType::Modify) && local_size == Some(file_size)
        && expected == Some(actual_hash)
}

pub fn already_held(intent: IntentType, local_size: Option<u64>, file_size: u64, expected: &Option<String>, actual_hash: &String) -> (r: bool)
    ensures
        r == already_held_spec(intent, local_size, file_size, opt_text(*expected), actual_hash@),
{
    let content = intent == IntentType::Create || intent == IntentType::Modify;
    let sized = match local_size {
        Some(n) => n == file_size,
        None => false,
    };
    let same = match expected {
        Some(e) => *e == *actual_hash,
        None => false,
    };
    content && sized && same
}

/// Whether a received file may replace its target: no digest was announced,
/// or the written file's digest (`actual_hash`, empty when unreadable)
/// equals the announced one.
pub fn transfer_verified(expected: &Option<String>, actual_hash: &String) -> (r: bool)
    ensures
        r == (match opt_text(*expected) {
            Some(e) => e == actual_hash@,
            None => true,
        }),
{
    match expected {
        Some(e) => *e == *actual_hash,
        None => true,
    }
}

fn join_text(parts: &Vec<&str>) -> (s: String)
    ensures
        s@ == concat_all(parts@.map_values(|p: &str| p@)),
{
    let mut out: Vec<char> = Vec::new();
    let mut i: usize = 0;
    while i < parts.len()
        invariant
            i <= parts@.len(),
            out@ == concat_all(parts@.map_values(|p: &str| p@).take(i as int)),
        decreases parts@.len() - i,
    {
        let v = chars_of(parts[i]);
        crate::text::extend_chars(&mut out, v.as_slice());
        proof {
            let m = parts@.map_values(|p: &str| p@);
            assert(m.take(i + 1).drop_last() =~= m.take(i as int));
        }
        i = i + 1;
    }
    assert(parts@.map_values(|p: &str| p@).take(parts@.len() as int) =~= parts@.map_values(|p: &str| p@));
    string_from_chars(out.as_slice())
}

/// The texts of `parts`, one after another.
pub open spec fn concat_all(parts: Seq<Seq<char>>) -> Seq<char>
    decreases parts.len(),
{
    if parts.len() == 0 {
        Seq::empty()
    } else {
        concat_all(parts.drop_last()) + parts.last()
    }
}

/// The log line for one of the sender's folders on the receiving side.
pub open spec fn folder_log_line(path: Seq<char>, exists: bool) -> Seq<char> {
    if exists {
        "[Receiver] Verified folder path: "@ + path + " (OK)"@
    } else {
        "[Receiver] Folder path missing: "@ + path + " (FAIL)"@
    }
}

/// The receiver's answer to a bridge test from `sender_node_id`. `folders`
/// lists the sender's bonded folders here with whether each path exists, or
/// is `None` when the sender is not bonded.
pub fn bridge_diagnostic(
    sender_node_id: &str,
    folders: &Option<Vec<(String, bool)>>,
    device_name: String,
    os: String,
) -> (r: TestBridgeDiagnosticResponse)
    ensures
        r.success,
        r.remote_device_name@ == device_name@,
        r.remote_os@ == os@,
        r.remote_disk_free_mb == 10240,
        match folders {
            Some(f) => r.remote_folders_total == f@.len()
                && r.remote_folders_ok == count_existing(f@, f@.len() as int)
                && r.remote_logs@.len() == f@.len() + 5
                && forall|k: int| 0 <= k < f@.len() ==> (#[trigger] r.remote_logs@[k + 2])@ == folder_log_line(f@[k].0@, f@[k].1),
            None => r.remote_folders_total == 0 && r.remote_folders_ok == 0 && r.remote_logs@.len() == 6,
        },
        r.remote_logs@[0]@ == "[Receiver] ALPN send2me-sync/1 handshake accepted from "@ + sender_node_id@,
        r.remote_logs@[1]@ == "[Receiver] Initiating local target node health check..."@,
        folders is None ==> r.remote_logs@[2]@ == "[Receiver] Sender node ID is bonded on target device"@,
        r.remote_logs@[r.remote_logs@.len() - 3]@ == "[Receiver] Target SQLite Manifest DB engine: WAL Mode Active"@,
        r.remote_logs@[r.remote_logs@.len() - 2]@ == "[Receiver] Target Write Permissions: Granted"@,
        r.remote_logs@[r.remote_logs@.len() - 1]@ == "[Receiver] Bridge Diagnostic complete. Dispatching ACK..."@,
{
    let mut logs: Vec<String> = Vec::new();
    let mut first: Vec<&str> = Vec::new();
    first.push("[Receiver] ALPN send2me-sync/1 handshake accepted from ");
    first.push(sender_node_id);
    let l0 = join_text(&first);
    proof {
        let m = first@.map_values(|p: &str| p@);
        assert(m.drop_last().drop_last() =~= Seq::<Seq<char>>::empty());
        assert(concat_all(m) =~= "[Receiver] ALPN send2me-sync/1 handshake accepted from "@ + sender_node_id@) by {
            assert(concat_all(m.drop_last()) =~= concat_all(m.drop_last().drop_last()) + m[0]);
        }
    }
    logs.push(l0);
    logs.push(String::from_str("[Receiver] Initiating local target node health check..."));
    let mut ok: usize = 0;
    let mut total: usize = 0;
    match folders {
        Some(f) => {
            let mut i: usize = 0;
            while i < f.len()
                invariant
                    i <= f@.len(),
                    logs@.len() == i + 2,
                    ok == count_existing(f@, i as int),
                    ok <= i,
                    forall|k: int| 0 <= k < i ==> (#[trigger] logs@[k + 2])@ == folder_log_line(f@[k].0@, f@[k].1),
                    logs@[0]@ == "[Receiver] ALPN send2me-sync/1 handshake accepted from "@ + sender_node_id@,
                    logs@[1]@ == "[Receiver] Initiating local target node health check..."@,
                decreases f@.len() - i,
            {
                let (path, exists) = (&f[i].0, f[i].1);
                let mut parts: Vec<&str> = Vec::new();
                if exists {
                    parts.push("[Receiver] Verified folder path: ");
                    parts.push(path.as_str());
                    parts.push(" (OK)");
                    ok = ok + 1;
                } else {
                    parts.push("[Receiver] Folder path missing: ");
                    parts.push(path.as_str());
                    parts.push(" (FAIL)");
                }
                let line = join_text(&parts);
                proof {
                    let m = parts@.map_values(|p: &str| p@);
                    assert(m =~= seq![m[0], m[1], m[2]]);
                    lemma_concat3(m[0], m[1], m[2]);
                    assert(concat_all(m) =~= folder_log_line(path@, exists));
                }
                let ghost before = logs@;
                logs.push(line);
                assert(forall|k: int| 0 <= k < i ==> #[trigger] logs@[k + 2] == before[k + 2]);
                i = i + 1;
            }
            total = f.len();
        },
        None => {
            logs.push(String::from_str("[Receiver] Sender node ID is bonded on target device"));
        },
    }
    logs.push(String::from_str("[Receiver] Target SQLite Manifest DB engine: WAL Mode Active"));
    logs.push(String::from_str("[Receiver] Target Write Permissions: Granted"));
    logs.push(String::from_str("[Receiver] Bridge Diagnostic complete. Dispatching ACK..."));
    TestBridgeDiagnosticResponse {
        success: true,
        remote_device_name: device_name,
        remote_os: os,
        remote_folders_ok: ok,
        remote_folders_total: total,
        remote_disk_free_mb: 10240,
        remote_logs: logs,
    }
}

pub proof fn lemma_concat3(a: Seq<char>, b: Seq<char>, c: Seq<char>)
    ensures
        concat_all(seq![a, b, c]) == a + b + c,
{
    let s = seq![a, b, c];
    assert(s.drop_last() =~= seq![a, b]);
    assert(s.drop_last().drop_last() =~= seq![a]);
    assert(s.drop_last().drop_last().drop_last() =~= Seq::<Seq<char>>::empty());
    assert(seq![a].drop_last() =~= Seq::<Seq<char>>::empty());
    assert(concat_all(Seq::<Seq<char>>::empty()) == Seq::<char>::empty());
    assert(concat_all(seq![a]) == concat_all(Seq::<Seq<char>>::empty()) + a);
    assert(concat_all(seq![a]) =~= a);
    assert(seq![a, b].drop_last() =~= seq![a]);
    assert(concat_all(seq![a, b]) =~= a + b);
}

/// How many of the first `k` folders exist.
pub open spec fn count_existing(f: Seq<(String, bool)>, k: int) -> int
    decreases k,
{
    if k <= 0 {
        0
    } else {
        count_existing(f, k - 1) + if f[k - 1].1 {
            1int
        } else {
            0
        }
    }
}


/// What a receiver does with an incoming sync of a file it already has a
/// row for at the same path.
#[derive(Debug, Clone, Copy, PartialEq, Eq, Structural)]
pub enum Arrival {
    /// Write it over the local file.
    Apply,
    /// The local row is as new or newer with other content: keep both, the
    /// incoming one under a conflict name and a new id.
    ConflictCopy,
    /// The local row is as new or newer with the same content: refuse it.
    Duplicate,
}

pub open spec fn arrival_spec(local: Option<FileRow>, revision: u64, hash: Option<Seq<char>>) -> Arrival {
    match local {
        None => Arrival::Apply,
        Some(l) => if revision <= l.revision {
            if l.blake3_hash != hash {
                Arrival::ConflictCopy
            } else {
                Arrival::Duplicate
            }
        } else {
            Arrival::Apply
        },
    }
}

/// Classifies an incoming sync against the local row at its path (see
/// `arrival_spec`). An incoming revision never replaces a local row of the
/// same or a higher revision. Concurrent edits are settled by these revision
/// numbers and a conflict copy, not by which side was modified last: the
/// sync metadata carries no modification time to compare.
pub fn classify_arrival(local: &Option<FileRecord>, meta: &SyncMetadata) -> (a: Arrival)
    ensures
        a == arrival_spec(
            match local {
                Some(l) => Some(l@),
                None => None,
            },
            meta.revision,
            opt_text(meta.blake3_hash),
        ),
        a == Arrival::Apply ==> (local matches Some(l) ==> meta.revision > l.revision),
{
    match local {
        None => Arrival::Apply,
        Some(l) => {
            if meta.revision <= l.revision {
                let same = match (&l.blake3_hash, &meta.blake3_hash) {
                    (Some(x), Some(y)) => *x == *y,
                    (None, None) => true,
                    _ => false,
                };
                if same {
                    Arrival::Duplicate
                } else {
                    Arrival::ConflictCopy
                }
            } else {
                Arrival::Apply
            }
        },
    }
}


/// What an arrival decision means: an incoming file is applied exactly
/// when there is no local row or its revision is newer than the local one;
/// otherwise it is refused as a duplicate only when its digest equals the
/// local row's, and kept as a conflict copy whenever the digests differ.
pub proof fn lemma_arrival_meaning(local: Option<FileRow>, revision: u64, hash: Option<Seq<char>>)
    ensures
        (arrival_spec(local, revision, hash) == Arrival::Apply) <==> (local matches Some(l) ==> revision > l.revision),
        arrival_spec(local, revision, hash) == Arrival::Duplicate ==> (local matches Some(l) && l.blake3_hash == hash
            && revision <= l.revision),
        (local matches Some(l) && revision <= l.revision && l.blake3_hash != hash)
            ==> arrival_spec(local, revision, hash) == Arrival::ConflictCopy,
        (local matches Some(l) && revision <= l.revision && l.blake3_hash == hash)
            ==> arrival_spec(local, revision, hash) == Arrival::Duplicate,
{
}

/// The row an applied incoming sync records carries the sender's file id,
/// revision and folder for every intent; a create or modify records the
/// sent digest and the received size, a delete marks the row deleted with
/// no digest and size 0, and a rename with a new path records that path.
pub proof fn lemma_incoming_row_meaning(m_file_id: Seq<char>, intent: IntentType, relative_path: Seq<char>, new_path: Option<Seq<char>>, hash: Option<Seq<char>>, revision: u64, folder_id: i64, file_size: u64)
    ensures
        ({
            let r = incoming_row_spec(m_file_id, intent, relative_path, new_path, hash, revision, folder_id, file_size);
            &&& r.id == m_file_id
            &&& r.revision == revision
            &&& r.folder_id == folder_id
            &&& (intent == IntentType::Delete) == r.is_deleted
            &&& intent == IntentType::Delete ==> r.blake3_hash is None && r.size == 0 && r.relative_path == relative_path
            &&& intent != IntentType::Delete ==> r.blake3_hash == hash && r.size == file_size
            &&& (intent != IntentType::Delete && !(intent == IntentType::Rename && new_path is Some)) ==> r.relative_path == relative_path
            &&& (intent == IntentType::Rename && new_path is Some) ==> r.relative_path == new_path->0
        }),
{
}

/// What the receiver does with the first message on a control stream.
pub enum ControlAction {
    /// Ask the user whether to bond folders with this device.
    PromptBind { node_id: String, device_name: String, os: String },
    /// The peer dropped the bond: remove it here too.
    Unbind { node_id: String },
    /// Answer a ping.
    ReplyPong,
    /// Nothing to answer: close the stream.
    Close,
    /// An incoming file: start receiving it.
    StartTransfer(FileMetadata),
    /// Anything else: refuse with a negative pre-flight answer.
    Refuse,
}

pub fn control_action(msg: StreamMessage) -> (a: ControlAction)
    ensures
        match msg {
            StreamMessage::FolderSyncBindRequest { node_id, device_name, os } => a matches ControlAction::PromptBind { node_id: n, device_name: d, os: o }
                && n@ == node_id@ && d@ == device_name@ && o@ == os@,
            StreamMessage::FolderSyncUnbind { node_id } => a matches ControlAction::Unbind { node_id: n } && n@ == node_id@,
            StreamMessage::Ping => a is ReplyPong,
            StreamMessage::Pong => a is Close,
            StreamMessage::Control(m) => a matches ControlAction::StartTransfer(x) && x == m,
            _ => a is Refuse,
        },
{
    match msg {
        StreamMessage::FolderSyncBindRequest { node_id, device_name, os } => ControlAction::PromptBind { node_id, device_name, os },
        StreamMessage::FolderSyncUnbind { node_id } => ControlAction::Unbind { node_id },
        StreamMessage::Ping => ControlAction::ReplyPong,
        StreamMessage::Pong => ControlAction::Close,
        StreamMessage::Control(m) => ControlAction::StartTransfer(m),
        _ => ControlAction::Refuse,
    }
}

/// The receiving side of a bond request, once the user answered and the
/// sender's final word (if any arrived) was read: whether the bond is made,
/// and whether the final word is acknowledged. A bond needs both sides'
/// consent.
pub fn bind_reply_plan(user_accepted: bool, finalize: Option<bool>) -> (r: (bool, bool))
    ensures
        r.0 == (user_accepted && finalize == Some(true)),
        r.1 == (user_accepted && finalize is Some),
{
    match finalize {
        Some(f) => (user_accepted && f, user_accepted),
        None => (false, false),
    }
}

/// Why a bond request failed on the sending side.
#[derive(Debug, Clone, Copy, PartialEq, Eq, Structural)]
pub enum BindFault {
    /// The device is bonded already.
    AlreadyPaired,
    /// The peer answered with something other than a bond response.
    UnexpectedResponse,
}

/// Before asking a device to bond: refused when it is bonded already.
pub fn bind_precheck(manager: &crate::bonds::SyncManager, node_id: &String) -> (r: Result<(), BindFault>)
    ensures
        r is Err <==> crate::bonds::is_bonded(manager.bonded_devices@, node_id@),
        r is Err ==> r == Err::<(), BindFault>(BindFault::AlreadyPaired),
{
    if manager.is_bonded(node_id) {
        Err(BindFault::AlreadyPaired)
    } else {
        Ok(())
    }
}

/// The sending side's reading of the peer's answer: whether it accepted.
pub fn bind_response_accepted(resp: &StreamMessage) -> (r: Result<bool, BindFault>)
    ensures
        match resp {
            StreamMessage::FolderSyncBindResponse { accepted } => r == Ok::<bool, BindFault>(*accepted),
            _ => r == Err::<bool, BindFault>(BindFault::UnexpectedResponse),
        },
{
    match resp {
        StreamMessage::FolderSyncBindResponse { accepted } => Ok(*accepted),
        _ => Err(BindFault::UnexpectedResponse),
    }
}

} // verus!
